//! The markdown files of a worktree, as a tree in listing order.

use vstd::prelude::*;
use vstd::string::*;
use crate::files::{
    has_markdown_files, is_markdown_file, join_path, joined_path, markdown_below, markdown_path,
    FileEntry,
};
use crate::text::starts_with;

verus! {

/// A directory entry as read from disk, with the entries of a directory.
pub struct DirItem {
    pub name: String,
    pub is_dir: bool,
    /// Empty for a file.
    pub children: Vec<DirItem>,
}

/// Hidden entries (`.git` among them) are never listed.
pub open spec fn hidden(name: Seq<char>) -> bool {
    name.len() > 0 && name[0] == '.'
}

pub fn is_hidden(name: &str) -> (r: bool)
    ensures
        r == hidden(name@),
{
    proof {
        reveal_strlit(".");
        if name@.len() > 0 && name@[0] == '.' {
            assert(name@.take(1) =~= "."@);
        }
        if name@.len() > 0 && name@.take(1) == "."@ {
            assert(name@.take(1)[0] == name@[0]);
        }
    }
    starts_with(name, ".")
}

/// Whether an entry is listed: not hidden, and a markdown file or a
/// directory with a listed entry.
#[verifier::opaque]
pub open spec fn shown(item: DirItem) -> bool
    decreases item,
{
    &&& !hidden(item.name@)
    &&& if item.is_dir {
        exists|i: int| 0 <= i < item.children@.len() && shown(#[trigger] item.children@[i])
    } else {
        markdown_path(item.name@)
    }
}

proof fn lemma_shown_dir(x: DirItem)
    requires
        x.is_dir,
        forall|w: int| 0 <= w < x.children@.len() ==> !shown(#[trigger] x.children@[w]),
    ensures
        !shown(x),
{
    reveal(shown);
}

/// Names in the order of their characters' code points, which is the byte
/// order of their UTF-8 text.
#[verifier::opaque]
pub open spec fn name_lt(a: Seq<char>, b: Seq<char>) -> bool
    decreases a.len(),
{
    if a.len() == 0 {
        b.len() > 0
    } else if b.len() == 0 {
        false
    } else if a[0] != b[0] {
        a[0] < b[0]
    } else {
        name_lt(a.drop_first(), b.drop_first())
    }
}

/// The listing order: directories first, then by name.
pub open spec fn goes_before(a_dir: bool, a: Seq<char>, b_dir: bool, b: Seq<char>) -> bool {
    (a_dir && !b_dir) || (a_dir == b_dir && name_lt(a, b))
}

pub open spec fn item_before(a: DirItem, b: DirItem) -> bool {
    goes_before(a.is_dir, a.name@, b.is_dir, b.name@)
}

pub open spec fn entry_before(a: FileEntry, b: FileEntry) -> bool {
    goes_before(a.is_dir, a.name@, b.is_dir, b.name@)
}

proof fn lemma_name_lt_irreflexive(a: Seq<char>)
    ensures
        !name_lt(a, a),
    decreases a.len(),
{
    reveal(name_lt);
    if a.len() > 0 {
        lemma_name_lt_irreflexive(a.drop_first());
    }
}

proof fn lemma_name_lt_asymmetric(a: Seq<char>, b: Seq<char>)
    ensures
        name_lt(a, b) ==> !name_lt(b, a),
    decreases a.len(),
{
    reveal(name_lt);
    if a.len() > 0 && b.len() > 0 && a[0] == b[0] {
        lemma_name_lt_asymmetric(a.drop_first(), b.drop_first());
    }
}

proof fn lemma_name_lt_transitive(a: Seq<char>, b: Seq<char>, c: Seq<char>)
    ensures
        name_lt(a, b) && name_lt(b, c) ==> name_lt(a, c),
    decreases a.len(),
{
    reveal(name_lt);
    if a.len() > 0 && b.len() > 0 && c.len() > 0 {
        lemma_name_lt_transitive(a.drop_first(), b.drop_first(), c.drop_first());
    }
}

proof fn lemma_name_lt_total(a: Seq<char>, b: Seq<char>)
    ensures
        !name_lt(a, b) && !name_lt(b, a) ==> a == b,
    decreases a.len(),
{
    reveal(name_lt);
    if a.len() > 0 && b.len() > 0 && a[0] == b[0] {
        lemma_name_lt_total(a.drop_first(), b.drop_first());
        if a.drop_first() == b.drop_first() {
            assert(a =~= seq![a[0]] + a.drop_first());
            assert(b =~= seq![b[0]] + b.drop_first());
        }
    } else if a.len() == 0 && b.len() == 0 {
        assert(a =~= b);
    }
}

proof fn lemma_order(a: DirItem, b: DirItem, c: DirItem)
    ensures
        !item_before(a, a),
        item_before(a, b) ==> !item_before(b, a),
        item_before(a, b) && item_before(b, c) ==> item_before(a, c),
        item_before(a, b) && !item_before(c, b) ==> item_before(a, c),
{
    lemma_name_lt_irreflexive(a.name@);
    lemma_name_lt_asymmetric(a.name@, b.name@);
    lemma_name_lt_transitive(a.name@, b.name@, c.name@);
    lemma_name_lt_total(b.name@, c.name@);
}

fn name_less(a: &str, b: &str) -> (r: bool)
    ensures
        r == name_lt(a@, b@),
{
    let n = a.unicode_len();
    let m = b.unicode_len();
    let mut i: usize = 0;
    proof {
        reveal(name_lt);
        assert(a@.skip(0) =~= a@);
        assert(b@.skip(0) =~= b@);
    }
    while i < n && i < m && a.get_char(i) == b.get_char(i)
        invariant
            n == a@.len(),
            m == b@.len(),
            i <= n,
            i <= m,
            name_lt(a@, b@) == name_lt(a@.skip(i as int), b@.skip(i as int)),
        decreases n - i,
    {
        proof {
            reveal(name_lt);
            assert(a@.skip(i as int).drop_first() =~= a@.skip(i + 1));
            assert(b@.skip(i as int).drop_first() =~= b@.skip(i + 1));
        }
        i = i + 1;
    }
    proof {
        reveal(name_lt);
    }
    if i == n {
        i < m
    } else if i == m {
        false
    } else {
        a.get_char(i) < b.get_char(i)
    }
}

fn before(a: &DirItem, b: &DirItem) -> (r: bool)
    ensures
        r == item_before(*a, *b),
{
    (a.is_dir && !b.is_dir) || (a.is_dir == b.is_dir && name_less(a.name.as_str(), b.name.as_str()))
}

pub open spec fn items_sorted(s: Seq<DirItem>) -> bool {
    forall|i: int, j: int| 0 <= i < j < s.len() ==> !item_before(#[trigger] s[j], #[trigger] s[i])
}

/// The items in listing order, each exactly where the order puts it; items
/// that the order does not tell apart keep their order.
fn sort_items(items: Vec<DirItem>) -> (r: Vec<DirItem>)
    ensures
        r@.len() == items@.len(),
        items_sorted(r@),
        forall|i: int| 0 <= i < items@.len() ==> r@.contains(#[trigger] items@[i]),
        forall|k: int| 0 <= k < r@.len() ==> items@.contains(#[trigger] r@[k]),
{
    let ghost orig = items@;
    let mut rest = items;
    let mut out: Vec<DirItem> = Vec::new();
    while rest.len() > 0
        invariant
            orig.len() == out@.len() + rest@.len(),
            rest@ == orig.skip(out@.len() as int),
            items_sorted(out@),
            forall|i: int| 0 <= i < out@.len() ==> out@.contains(#[trigger] orig[i]),
            forall|k: int| 0 <= k < out@.len() ==> orig.take(out@.len() as int).contains(#[trigger] out@[k]),
        decreases rest@.len(),
    {
        let ghost n = out@.len();
        let x = rest.remove(0);
        proof {
            assert(x == orig[n as int]);
        }
        let mut p: usize = 0;
        while p < out.len() && !before(&x, &out[p])
            invariant
                p <= out@.len(),
                forall|k: int| 0 <= k < p ==> !item_before(x, #[trigger] out@[k]),
            decreases out@.len() - p,
        {
            p = p + 1;
        }
        let ghost old_out = out@;
        proof {
            assert forall|k: int| p <= k < old_out.len() implies item_before(x, #[trigger] old_out[k]) by {
                lemma_order(x, old_out[p as int], old_out[k]);
            }
        }
        out.insert(p, x);
        proof {
            assert forall|i: int, j: int| 0 <= i < j < out@.len() implies !item_before(
                #[trigger] out@[j],
                #[trigger] out@[i],
            ) by {
                if i < p && j == p {
                } else if i == p && j > p {
                    lemma_order(x, old_out[j - 1], x);
                } else if i < p && j > p {
                    assert(out@[i] == old_out[i]);
                    assert(out@[j] == old_out[j - 1]);
                } else if j < p {
                    assert(out@[i] == old_out[i]);
                    assert(out@[j] == old_out[j]);
                } else {
                    assert(out@[i] == old_out[i - 1]);
                    assert(out@[j] == old_out[j - 1]);
                }
            }
            assert forall|i: int| 0 <= i < out@.len() implies out@.contains(#[trigger] orig[i]) by {
                if i == n {
                    assert(out@[p as int] == orig[i]);
                } else {
                    assert(old_out.contains(orig[i]));
                    let k = choose|k: int| 0 <= k < old_out.len() && old_out[k] == orig[i];
                    if k < p {
                        assert(out@[k] == orig[i]);
                    } else {
                        assert(out@[k + 1] == orig[i]);
                    }
                }
            }
            assert forall|k: int| 0 <= k < out@.len() implies orig.take(out@.len() as int).contains(
                #[trigger] out@[k],
            ) by {
                if k == p {
                    assert(orig.take(out@.len() as int)[n as int] == x);
                } else {
                    let ok = if k < p { k } else { k - 1 };
                    assert(out@[k] == old_out[ok]);
                    assert(orig.take(n as int).contains(old_out[ok]));
                    let w = choose|w: int| 0 <= w < n && orig.take(n as int)[w] == old_out[ok];
                    assert(orig.take(out@.len() as int)[w] == old_out[ok]);
                }
            }
            assert(rest@ =~= orig.skip(out@.len() as int));
        }
    }
    proof {
        assert(orig.take(out@.len() as int) =~= orig);
    }
    out
}

pub open spec fn entries_sorted(s: Seq<FileEntry>) -> bool {
    forall|i: int, j: int| 0 <= i < j < s.len() ==> !entry_before(#[trigger] s[j], #[trigger] s[i])
}

/// Whether `e` lists `item`, found under `prefix`.
#[verifier::opaque]
pub open spec fn lists_item(item: DirItem, prefix: Seq<char>, e: FileEntry) -> bool
    decreases item,
{
    &&& e.name@ == item.name@
    &&& e.is_dir == item.is_dir
    &&& e.path@ == joined_path(prefix, item.name@)
    &&& if item.is_dir {
        match e.children {
            Some(c) => {
                &&& c@.len() > 0
                &&& forall|k: int|
                    0 <= k < c@.len() ==> exists|i: int|
                        0 <= i < item.children@.len() && #[trigger] shown(item.children@[i])
                            && lists_item(
                            item.children@[i],
                            joined_path(prefix, item.name@),
                            #[trigger] c@[k],
                        )
            },
            None => false,
        }
    } else {
        e.children is None
    }
}

/// An entry that lists an item is a file or holds a file below it.
proof fn lemma_listed_has_markdown(item: DirItem, prefix: Seq<char>, e: FileEntry)
    requires
        lists_item(item, prefix, e),
    ensures
        !e.is_dir || match e.children {
            Some(c) => markdown_below(c@),
            None => false,
        },
    decreases item,
{
    reveal(lists_item);
    if item.is_dir {
        let c = e.children->Some_0;
        let p2 = joined_path(prefix, item.name@);
        let i = choose|i: int|
            0 <= i < item.children@.len() && #[trigger] shown(item.children@[i]) && lists_item(
                item.children@[i],
                p2,
                c@[0],
            );
        assert(decreases_to!(item => item.children));
        assert(decreases_to!(item.children => item.children@));
        assert(decreases_to!(item.children@ => item.children@[i]));
        lemma_listed_has_markdown(item.children@[i], p2, c@[0]);
        assert(!(c@[0]).is_dir || match c@[0].children {
            Some(cc) => markdown_below(cc@),
            None => false,
        });
    }
}

/// One item handled: either nothing is listed and the item is not shown, or
/// one entry that lists it is added.
pub open spec fn step_taken(old_r: Seq<FileEntry>, r: Seq<FileEntry>, x: DirItem, prefix: Seq<char>) -> bool {
    ||| (r == old_r && !shown(x))
    ||| {
        &&& r == old_r.push(r.last())
        &&& r.len() == old_r.len() + 1
        &&& shown(x)
        &&& lists_item(x, prefix, r.last())
        &&& r.last().name@ == x.name@
        &&& r.last().is_dir == x.is_dir
    }
}

/// Whether some entry of `r` bears the name and kind of `item`.
#[verifier::opaque]
pub open spec fn entry_named(r: Seq<FileEntry>, item: DirItem) -> bool {
    exists|k: int| 0 <= k < r.len() && r[k].name@ == item.name@ && r[k].is_dir == item.is_dir
}

/// The invariant of the listing loop after `done` items of `all`.
#[verifier::opaque]
pub open spec fn listed_so_far(all: Seq<DirItem>, done: int, r: Seq<FileEntry>, prefix: Seq<char>) -> bool {
    &&& forall|k: int|
        0 <= k < r.len() ==> exists|j: int|
            0 <= j < done && #[trigger] shown(all[j]) && lists_item(all[j], prefix, #[trigger] r[k])
                && r[k].name@ == all[j].name@ && r[k].is_dir == all[j].is_dir
    &&& forall|j: int| 0 <= j < done && #[trigger] shown(all[j]) ==> entry_named(r, all[j])
    &&& entries_sorted(r)
}

proof fn lemma_listing_start(all: Seq<DirItem>, prefix: Seq<char>)
    ensures
        listed_so_far(all, 0, Seq::empty(), prefix),
{
    reveal(listed_so_far);
}

proof fn lemma_listing_step(
    all: Seq<DirItem>,
    i: int,
    old_r: Seq<FileEntry>,
    r: Seq<FileEntry>,
    x: DirItem,
    prefix: Seq<char>,
)
    requires
        0 <= i < all.len(),
        all[i] == x,
        items_sorted(all),
        listed_so_far(all, i, old_r, prefix),
        step_taken(old_r, r, x, prefix),
    ensures
        listed_so_far(all, i + 1, r, prefix),
{
    reveal(listed_so_far);
    if r == old_r && !shown(x) {
        assert forall|j: int| 0 <= j < i + 1 && #[trigger] shown(all[j]) implies entry_named(r, all[j]) by {
            if j == i {
                assert(all[j] == x);
            }
        }
    } else {
        let n = old_r.len() as int;
        assert forall|k: int| 0 <= k < n implies r[k] == old_r[k] by {
            assert(r == old_r.push(r.last()));
        }
        assert forall|k: int|
            0 <= k < r.len() implies exists|j: int|
                0 <= j < i + 1 && #[trigger] shown(all[j]) && lists_item(all[j], prefix, #[trigger] r[k])
                    && r[k].name@ == all[j].name@ && r[k].is_dir == all[j].is_dir by {
            if k < n {
                assert(r[k] == old_r[k]);
            } else {
                assert(r[k] == r.last());
                assert(all[i] == x);
            }
        }
        assert forall|j: int| 0 <= j < i + 1 && #[trigger] shown(all[j]) implies entry_named(r, all[j]) by {
            reveal(entry_named);
            if j < i {
                let k = choose|k: int|
                    0 <= k < n && old_r[k].name@ == all[j].name@ && old_r[k].is_dir
                        == all[j].is_dir;
                assert(r[k] == old_r[k]);
            } else {
                assert(all[j] == x);
                assert(r[n] == r.last());
            }
        }
        assert forall|a: int, b: int| 0 <= a < b < r.len() implies !entry_before(
            #[trigger] r[b],
            #[trigger] r[a],
        ) by {
            assert(r[a] == old_r[a]);
            if b == n {
                let j = choose|j: int|
                    0 <= j < i && #[trigger] shown(all[j]) && lists_item(all[j], prefix, old_r[a])
                        && old_r[a].name@ == all[j].name@ && old_r[a].is_dir == all[j].is_dir;
                assert(!item_before(all[i], all[j]));
                assert(r[b] == r.last());
            } else {
                assert(r[b] == old_r[b]);
            }
        }
    }
}

/// Whether every item of `a` is an item of `b`.
#[verifier::opaque]
pub open spec fn covered_by(a: Seq<DirItem>, b: Seq<DirItem>) -> bool {
    forall|j: int| 0 <= j < a.len() ==> b.contains(#[trigger] a[j])
}

/// Whether `e` lists a shown item of `items`, found under `prefix`.
pub open spec fn sourced(items: Seq<DirItem>, prefix: Seq<char>, e: FileEntry) -> bool {
    exists|i: int| 0 <= i < items.len() && #[trigger] shown(items[i]) && lists_item(items[i], prefix, e)
}

proof fn lemma_source_of(
    orig: Seq<DirItem>,
    all: Seq<DirItem>,
    r: Seq<FileEntry>,
    prefix: Seq<char>,
    k: int,
)
    requires
        covered_by(all, orig),
        listed_so_far(all, all.len() as int, r, prefix),
        0 <= k < r.len(),
    ensures
        sourced(orig, prefix, r[k]),
{
    assert(exists|j: int|
        0 <= j < all.len() && #[trigger] shown(all[j]) && lists_item(all[j], prefix, r[k])
            && r[k].name@ == all[j].name@ && r[k].is_dir == all[j].is_dir) by {
        reveal(listed_so_far);
    }
    let j = choose|j: int|
        0 <= j < all.len() && #[trigger] shown(all[j]) && lists_item(all[j], prefix, r[k])
            && r[k].name@ == all[j].name@ && r[k].is_dir == all[j].is_dir;
    assert(orig.contains(all[j])) by {
        reveal(covered_by);
    }
    let i = choose|i: int| 0 <= i < orig.len() && orig[i] == all[j];
    assert(shown(orig[i]) && lists_item(orig[i], prefix, r[k]));
}

proof fn lemma_listing_sources(orig: Seq<DirItem>, all: Seq<DirItem>, r: Seq<FileEntry>, prefix: Seq<char>)
    requires
        covered_by(all, orig),
        listed_so_far(all, all.len() as int, r, prefix),
    ensures
        forall|k: int| 0 <= k < r.len() ==> sourced(orig, prefix, #[trigger] r[k]),
{
    assert forall|k: int| 0 <= k < r.len() implies sourced(orig, prefix, #[trigger] r[k]) by {
        lemma_source_of(orig, all, r, prefix, k);
    }
}

proof fn lemma_listing_complete(orig: Seq<DirItem>, all: Seq<DirItem>, r: Seq<FileEntry>, prefix: Seq<char>)
    requires
        covered_by(orig, all),
        listed_so_far(all, all.len() as int, r, prefix),
    ensures
        forall|i: int|
            0 <= i < orig.len() && #[trigger] shown(orig[i]) ==> entry_named(r, orig[i]),
{
    assert forall|i: int| 0 <= i < orig.len() && #[trigger] shown(orig[i]) implies entry_named(r, orig[i]) by {
        assert(all.contains(orig[i])) by {
            reveal(covered_by);
        }
        let j = choose|j: int| 0 <= j < all.len() && all[j] == orig[i];
        assert(shown(all[j]));
        assert(entry_named(r, all[j])) by {
            reveal(listed_so_far);
        }
    }
}

proof fn lemma_listing_done(orig: Seq<DirItem>, all: Seq<DirItem>, r: Seq<FileEntry>, prefix: Seq<char>)
    requires
        covered_by(orig, all),
        covered_by(all, orig),
        listed_so_far(all, all.len() as int, r, prefix),
    ensures
        entries_sorted(r),
        forall|k: int| 0 <= k < r.len() ==> sourced(orig, prefix, #[trigger] r[k]),
        forall|i: int|
            0 <= i < orig.len() && #[trigger] shown(orig[i]) ==> exists|k: int|
                0 <= k < r.len() && r[k].name@ == orig[i].name@ && r[k].is_dir == orig[i].is_dir,
        r.len() > 0 <==> exists|i: int| 0 <= i < orig.len() && #[trigger] shown(orig[i]),
{
    assert(entries_sorted(r)) by {
        reveal(listed_so_far);
    }
    lemma_listing_sources(orig, all, r, prefix);
    lemma_listing_complete(orig, all, r, prefix);
    assert forall|i: int| 0 <= i < orig.len() && #[trigger] shown(orig[i]) implies exists|k: int|
        0 <= k < r.len() && r[k].name@ == orig[i].name@ && r[k].is_dir == orig[i].is_dir by {
        assert(entry_named(r, orig[i]));
        reveal(entry_named);
    }
    if r.len() > 0 {
        let i = choose|i: int|
            0 <= i < orig.len() && #[trigger] shown(orig[i]) && lists_item(orig[i], prefix, r[0]);
    }
}

/// The listing of the entries `items` of a directory found at `prefix`:
/// each listed entry comes from an entry that is shown, each shown entry is
/// listed, and the listing is in order.
pub fn list_files(items: Vec<DirItem>, prefix: &str) -> (r: Vec<FileEntry>)
    ensures
        entries_sorted(r@),
        forall|k: int| 0 <= k < r@.len() ==> sourced(items@, prefix@, #[trigger] r@[k]),
        forall|i: int|
            0 <= i < items@.len() && #[trigger] shown(items@[i]) ==> exists|k: int|
                0 <= k < r@.len() && r@[k].name@ == items@[i].name@ && r@[k].is_dir
                    == items@[i].is_dir,
        r@.len() > 0 <==> exists|i: int| 0 <= i < items@.len() && #[trigger] shown(items@[i]),
    decreases items@,
{
    let ghost orig = items@;
    let sorted = sort_items(items);
    let ghost all = sorted@;
    let mut rest = sorted;
    let mut r: Vec<FileEntry> = Vec::new();
    proof {
        lemma_listing_start(all, prefix@);
        assert(all.skip(0) =~= all);
    }
    while rest.len() > 0
        invariant
            rest@ == all.skip(all.len() - rest@.len()),
            rest@.len() <= all.len(),
            orig == items@,
            items_sorted(all),
            forall|j: int| 0 <= j < orig.len() ==> all.contains(#[trigger] orig[j]),
            forall|k: int| 0 <= k < all.len() ==> orig.contains(#[trigger] all[k]),
            listed_so_far(all, all.len() - rest@.len(), r@, prefix@),
        decreases rest@.len(),
    {
        let ghost i = all.len() - rest@.len();
        let ghost old_r = r@;
        let DirItem { name, is_dir, children } = rest.remove(0);
        let ghost x = DirItem { name, is_dir, children };
        proof {
            assert(all[i] == x);
            let j = choose|j: int| 0 <= j < orig.len() && orig[j] == all[i];
            assert(decreases_to!(orig => orig[j]));
            assert(decreases_to!(orig[j] => orig[j].children));
            assert(decreases_to!(orig[j].children => orig[j].children@));
            assert(orig[j].children == children);
            assert(orig == items@);
            assert(decreases_to!(items@ => children@));
        }
        if !is_hidden(name.as_str()) {
            let path = join_path(prefix, name.as_str());
            if is_dir {
                let listed = list_files(children, path.as_str());
                proof {
                    if listed@.len() > 0 {
                        let w = choose|w: int|
                            0 <= w < x.children@.len() && #[trigger] shown(x.children@[w])
                                && lists_item(x.children@[w], path@, listed@[0]);
                        lemma_listed_has_markdown(x.children@[w], path@, listed@[0]);
                        assert(markdown_below(listed@));
                    }
                }
                if has_markdown_files(&listed) {
                    let e = FileEntry { name, path, is_dir: true, children: Some(listed) };
                    proof {
                        assert(lists_item(x, prefix@, e)) by {
                            reveal(lists_item);
                        }
                        let w = choose|w: int|
                            0 <= w < x.children@.len() && #[trigger] shown(x.children@[w])
                                && lists_item(x.children@[w], path@, listed@[0]);
                        assert(shown(x)) by {
                            reveal(shown);
                            assert(shown(x.children@[w]));
                        }
                    }
                    r.push(e);
                    proof {
                        assert(r@.drop_last() =~= old_r);
                        assert(step_taken(old_r, r@, x, prefix@));
                    }
                } else {
                    proof {
                        assert(!markdown_below(listed@));
                        assert(listed@.len() == 0);
                        assert(x.children@ == children@);
                        assert(!(exists|w: int|
                            0 <= w < x.children@.len() && #[trigger] shown(x.children@[w])));
                        lemma_shown_dir(x);
                        assert(step_taken(old_r, r@, x, prefix@));
                    }
                }
            } else if is_markdown_file(name.as_str()) {
                let e = FileEntry { name, path, is_dir: false, children: None };
                proof {
                    assert(lists_item(x, prefix@, e)) by {
                        reveal(lists_item);
                    }
                    assert(shown(x)) by {
                        reveal(shown);
                    }
                }
                r.push(e);
                proof {
                    assert(r@.drop_last() =~= old_r);
                    assert(step_taken(old_r, r@, x, prefix@));
                }
            } else {
                proof {
                    assert(!shown(x)) by {
                        reveal(shown);
                    }
                    assert(step_taken(old_r, r@, x, prefix@));
                }
            }
        } else {
            proof {
                assert(!shown(x)) by {
                    reveal(shown);
                }
                assert(step_taken(old_r, r@, x, prefix@));
            }
        }
        proof {
            lemma_listing_step(all, i, old_r, r@, x, prefix@);
            assert(rest@ =~= all.skip(all.len() - rest@.len()));
        }
    }
    proof {
        assert(covered_by(orig, all)) by {
            reveal(covered_by);
        }
        assert(covered_by(all, orig)) by {
            reveal(covered_by);
        }
        lemma_listing_done(orig, all, r@, prefix@);
    }
    r
}

} // verus!
