//! String operations with their exact results stated.

use vstd::prelude::*;
use vstd::string::*;

verus! {

/// The characters with the Unicode `White_Space` property, which is what
/// `char::is_whitespace` tests.
pub open spec fn space_char(c: char) -> bool {
    ||| ('\u{9}' <= c && c <= '\u{d}')
    ||| c == ' '
    ||| c == '\u{85}'
    ||| c == '\u{a0}'
    ||| c == '\u{1680}'
    ||| ('\u{2000}' <= c && c <= '\u{200a}')
    ||| c == '\u{2028}'
    ||| c == '\u{2029}'
    ||| c == '\u{202f}'
    ||| c == '\u{205f}'
    ||| c == '\u{3000}'
}

pub fn is_space(c: char) -> (r: bool)
    ensures
        r == space_char(c),
{
    ('\u{9}' <= c && c <= '\u{d}') || c == ' ' || c == '\u{85}' || c == '\u{a0}' || c == '\u{1680}'
        || ('\u{2000}' <= c && c <= '\u{200a}') || c == '\u{2028}' || c == '\u{2029}' || c
        == '\u{202f}' || c == '\u{205f}' || c == '\u{3000}'
}

/// Index of the first character that is not white space (or the length).
pub open spec fn trim_start_index(s: Seq<char>) -> int
    decreases s.len(),
{
    if s.len() == 0 || !space_char(s[0]) {
        0
    } else {
        1 + trim_start_index(s.drop_first())
    }
}

/// Index just past the last character that is not white space (or zero).
pub open spec fn trim_end_index(s: Seq<char>) -> int
    decreases s.len(),
{
    if s.len() == 0 || !space_char(s.last()) {
        s.len() as int
    } else {
        trim_end_index(s.drop_last())
    }
}

/// `s` without its leading and trailing white space.
pub open spec fn trimmed(s: Seq<char>) -> Seq<char> {
    let b = trim_start_index(s);
    let e = trim_end_index(s);
    if b < e {
        s.subrange(b, e)
    } else {
        Seq::empty()
    }
}

proof fn lemma_trim_start_index(s: Seq<char>)
    ensures
        0 <= trim_start_index(s) <= s.len(),
        forall|i: int| 0 <= i < trim_start_index(s) ==> space_char(#[trigger] s[i]),
        trim_start_index(s) < s.len() ==> !space_char(s[trim_start_index(s)]),
    decreases s.len(),
{
    if s.len() > 0 && space_char(s[0]) {
        lemma_trim_start_index(s.drop_first());
        assert forall|i: int| 0 <= i < trim_start_index(s) implies space_char(#[trigger] s[i]) by {
            if i > 0 {
                assert(s[i] == s.drop_first()[i - 1]);
            }
        }
    }
}

proof fn lemma_trim_end_index(s: Seq<char>)
    ensures
        0 <= trim_end_index(s) <= s.len(),
        forall|i: int| trim_end_index(s) <= i < s.len() ==> space_char(#[trigger] s[i]),
        trim_end_index(s) > 0 ==> !space_char(s[trim_end_index(s) - 1]),
    decreases s.len(),
{
    if s.len() > 0 && space_char(s.last()) {
        lemma_trim_end_index(s.drop_last());
        assert forall|i: int| trim_end_index(s) <= i < s.len() implies space_char(#[trigger] s[i]) by {
            if i < s.len() - 1 {
                assert(s[i] == s.drop_last()[i]);
            }
        }
    }
}

/// What `str::trim` returns.
pub fn trim(s: &str) -> (r: String)
    ensures
        r@ == trimmed(s@),
{
    proof {
        lemma_trim_start_index(s@);
        lemma_trim_end_index(s@);
    }
    let n = s.unicode_len();
    let mut b: usize = 0;
    while b < n && is_space(s.get_char(b))
        invariant
            n == s@.len(),
            b <= n,
            b <= trim_start_index(s@),
        decreases n - b,
    {
        proof {
            lemma_trim_start_index(s@);
        }
        b = b + 1;
    }
    let mut e: usize = n;
    while e > 0 && is_space(s.get_char(e - 1))
        invariant
            n == s@.len(),
            e <= n,
            e >= trim_end_index(s@),
        decreases e,
    {
        proof {
            lemma_trim_end_index(s@);
        }
        e = e - 1;
    }
    if b < e {
        s.substring_char(b, e).to_owned()
    } else {
        String::new()
    }
}

/// The pieces of `s` between the occurrences of `sep`, as `str::split` gives
/// them: always at least one, possibly empty.
pub open spec fn split_on(s: Seq<char>, sep: char) -> Seq<Seq<char>>
    decreases s.len(),
{
    if s.len() == 0 {
        seq![Seq::empty()]
    } else {
        let init = split_on(s.drop_last(), sep);
        if s.last() == sep {
            init.push(Seq::empty())
        } else {
            init.update(init.len() - 1, init.last().push(s.last()))
        }
    }
}

proof fn lemma_split_on_nonempty(s: Seq<char>, sep: char)
    ensures
        split_on(s, sep).len() >= 1,
    decreases s.len(),
{
    if s.len() > 0 {
        lemma_split_on_nonempty(s.drop_last(), sep);
    }
}

/// What `str::split` with one character returns.
pub fn split(s: &str, sep: char) -> (r: Vec<String>)
    ensures
        r@.map_values(|p: String| p@) == split_on(s@, sep),
{
    let n = s.unicode_len();
    let mut done: Vec<String> = Vec::new();
    let mut cur = String::new();
    let mut i: usize = 0;
    while i < n
        invariant
            n == s@.len(),
            i <= n,
            done@.map_values(|p: String| p@).push(cur@) == split_on(s@.take(i as int), sep),
        decreases n - i,
    {
        let c = s.get_char(i);
        proof {
            lemma_split_on_nonempty(s@.take(i as int), sep);
            assert(s@.take(i + 1).drop_last() =~= s@.take(i as int));
        }
        if c == sep {
            done.push(cur);
            cur = String::new();
            proof {
                assert(done@.map_values(|p: String| p@).push(cur@) =~= split_on(
                    s@.take(i + 1),
                    sep,
                ));
            }
        } else {
            let ghost before = cur@;
            cur.append(s.substring_char(i, i + 1));
            proof {
                assert(s@.subrange(i as int, i + 1) =~= seq![c]);
                assert(s@.take(i + 1).last() == c);
                assert(cur@ =~= before.push(c));
                assert(done@.map_values(|p: String| p@).push(cur@) =~= split_on(
                    s@.take(i + 1),
                    sep,
                ));
            }
        }
        i = i + 1;
    }
    done.push(cur);
    proof {
        assert(s@.take(n as int) =~= s@);
    }
    done
}

/// `line` without one `'\r'` at its end, if it has one.
pub open spec fn without_cr(line: Seq<char>) -> Seq<char> {
    if line.len() > 0 && line.last() == '\r' {
        line.drop_last()
    } else {
        line
    }
}

/// The lines of `s`, as `str::lines` gives them: split at `'\n'`, each line
/// that a `'\n'` ended loses one `'\r'` before it, and a last line that is
/// empty is no line.
pub open spec fn lines_of(s: Seq<char>) -> Seq<Seq<char>> {
    let pieces = split_on(s, '\n');
    let ended = pieces.drop_last().map_values(|p: Seq<char>| without_cr(p));
    if pieces.last().len() == 0 {
        ended
    } else {
        ended.push(pieces.last())
    }
}

fn drop_cr(line: String) -> (r: String)
    ensures
        r@ == without_cr(line@),
{
    let n = line.as_str().unicode_len();
    if n > 0 && line.as_str().get_char(n - 1) == '\r' {
        line.as_str().substring_char(0, n - 1).to_owned()
    } else {
        line
    }
}

/// What `str::lines` returns.
pub fn lines(s: &str) -> (r: Vec<String>)
    ensures
        r@.map_values(|p: String| p@) == lines_of(s@),
{
    let mut pieces = split(s, '\n');
    proof {
        lemma_split_on_nonempty(s@, '\n');
    }
    let ghost all = pieces@.map_values(|p: String| p@);
    let last = pieces.pop().unwrap();
    let ghost rest = pieces@;
    let mut out: Vec<String> = Vec::new();
    let mut i: usize = 0;
    while i < pieces.len()
        invariant
            pieces@ == rest,
            all == rest.map_values(|p: String| p@).push(last@),
            i <= rest.len(),
            out@.len() == i,
            out@.map_values(|p: String| p@) == rest.take(i as int).map_values(
                |p: String| without_cr(p@),
            ),
        decreases rest.len() - i,
    {
        let line = pieces[i].clone();
        let d = drop_cr(line);
        proof {
            assert(d@ == without_cr(rest[i as int]@));
        }
        let ghost prev = out@;
        out.push(d);
        proof {
            assert forall|j: int| 0 <= j < i + 1 implies (#[trigger] out@[j])@ == out@.map_values(|p: String| p@)[j] && out@.map_values(|p: String| p@)[j]
                == rest.take(i + 1).map_values(|p: String| without_cr(p@))[j] by {
                if j < i {
                    assert(out@[j] == prev[j]);
                    assert(prev.map_values(|p: String| p@)[j] == rest.take(i as int).map_values(
                        |p: String| without_cr(p@),
                    )[j]);
                }
            }
            assert(out@.map_values(|p: String| p@) =~= rest.take(i + 1).map_values(
                |p: String| without_cr(p@),
            ));
        }
        i = i + 1;
    }
    proof {
        assert(all.drop_last() =~= rest.map_values(|p: String| p@));
        assert(rest.take(rest.len() as int) =~= rest);
        assert(all.drop_last().map_values(|p: Seq<char>| without_cr(p)) =~= rest.map_values(
            |p: String| without_cr(p@),
        ));
    }
    if last.as_str().unicode_len() > 0 {
        out.push(last);
        proof {
            assert(out@.map_values(|p: String| p@) =~= lines_of(s@));
        }
    } else {
        proof {
            assert(out@.map_values(|p: String| p@) =~= lines_of(s@));
        }
    }
    out
}

/// Whether `s` begins with `prefix`.
pub open spec fn has_prefix(s: Seq<char>, prefix: Seq<char>) -> bool {
    prefix.len() <= s.len() && s.take(prefix.len() as int) == prefix
}

/// Whether `s` ends with `suffix`.
pub open spec fn has_suffix(s: Seq<char>, suffix: Seq<char>) -> bool {
    suffix.len() <= s.len() && s.skip(s.len() - suffix.len()) == suffix
}

/// What `str::starts_with` returns for a string pattern.
pub fn starts_with(s: &str, prefix: &str) -> (r: bool)
    ensures
        r == has_prefix(s@, prefix@),
{
    let n = s.unicode_len();
    let m = prefix.unicode_len();
    if m > n {
        return false;
    }
    let mut i: usize = 0;
    while i < m
        invariant
            n == s@.len(),
            m == prefix@.len(),
            m <= n,
            i <= m,
            forall|j: int| 0 <= j < i ==> s@[j] == prefix@[j],
        decreases m - i,
    {
        if s.get_char(i) != prefix.get_char(i) {
            proof {
                assert(s@.take(m as int)[i as int] != prefix@[i as int]);
            }
            return false;
        }
        i = i + 1;
    }
    proof {
        assert(s@.take(m as int) =~= prefix@);
    }
    true
}

/// What `str::ends_with` returns for a string pattern.
pub fn ends_with(s: &str, suffix: &str) -> (r: bool)
    ensures
        r == has_suffix(s@, suffix@),
{
    let n = s.unicode_len();
    let m = suffix.unicode_len();
    if m > n {
        return false;
    }
    let d = n - m;
    let mut i: usize = 0;
    while i < m
        invariant
            n == s@.len(),
            m == suffix@.len(),
            d == n - m,
            i <= m,
            forall|j: int| 0 <= j < i ==> s@[d + j] == suffix@[j],
        decreases m - i,
    {
        if s.get_char(d + i) != suffix.get_char(i) {
            proof {
                assert(s@.skip(d as int)[i as int] != suffix@[i as int]);
            }
            return false;
        }
        i = i + 1;
    }
    proof {
        assert(s@.skip(d as int) =~= suffix@);
    }
    true
}

/// What `str::strip_prefix` returns for a string pattern.
pub fn strip_prefix(s: &str, prefix: &str) -> (r: Option<String>)
    ensures
        match r {
            Some(rest) => has_prefix(s@, prefix@) && rest@ == s@.skip(prefix@.len() as int),
            None => !has_prefix(s@, prefix@),
        },
{
    if starts_with(s, prefix) {
        let n = s.unicode_len();
        let m = prefix.unicode_len();
        Some(s.substring_char(m, n).to_owned())
    } else {
        None
    }
}

/// Whether `c` occurs in `s` next to another `c`.
pub open spec fn has_pair(s: Seq<char>, c: char) -> bool {
    exists|i: int| 0 <= i < s.len() - 1 && #[trigger] s[i] == c && s[i + 1] == c
}

/// What `str::contains` returns for a pattern of two equal characters.
pub fn contains_pair(s: &str, c: char) -> (r: bool)
    ensures
        r == has_pair(s@, c),
{
    let n = s.unicode_len();
    if n < 2 {
        return false;
    }
    let mut i: usize = 0;
    while i < n - 1
        invariant
            n == s@.len(),
            n >= 2,
            forall|j: int| 0 <= j < i && j < n - 1 ==> !(#[trigger] s@[j] == c && s@[j + 1] == c),
        decreases n - i,
    {
        if s.get_char(i) == c && s.get_char(i + 1) == c {
            return true;
        }
        i = i + 1;
    }
    false
}

/// Whether two strings hold the same characters.
pub fn same_text(a: &str, b: &str) -> (r: bool)
    ensures
        r == (a@ == b@),
{
    String::from_str(a) == String::from_str(b)
}

} // verus!
