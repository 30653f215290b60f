//! File names and paths under a worktree.

use vstd::prelude::*;
use vstd::string::*;
use crate::text::{contains_pair, ends_with, has_pair, has_suffix};

verus! {

/// A markdown file, or a directory that holds some, under a worktree.
pub struct FileEntry {
    pub name: String,
    /// The path relative to the worktree.
    pub path: String,
    pub is_dir: bool,
    /// A directory's entries; none for a file.
    pub children: Option<Vec<FileEntry>>,
}

/// `name` with each `/` and `\` replaced by `_`.
pub open spec fn sanitized(name: Seq<char>) -> Seq<char> {
    name.map_values(|c: char| if c == '/' || c == '\\' { '_' } else { c })
}

/// A branch name made fit to be one directory name.
pub fn sanitize_branch_name(name: &str) -> (r: String)
    ensures
        r@ == sanitized(name@),
{
    let n = name.unicode_len();
    let mut r = String::new();
    let mut i: usize = 0;
    while i < n
        invariant
            n == name@.len(),
            i <= n,
            r@ == sanitized(name@.take(i as int)),
        decreases n - i,
    {
        let c = name.get_char(i);
        proof {
            reveal_strlit("_");
        }
        if c == '/' || c == '\\' {
            r.append("_");
        } else {
            r.append(name.substring_char(i, i + 1));
        }
        proof {
            assert(name@.subrange(i as int, i + 1) =~= seq![c]);
            assert(r@ =~= sanitized(name@.take(i + 1)));
        }
        i = i + 1;
    }
    proof {
        assert(name@.take(n as int) =~= name@);
    }
    r
}

/// Whether a path names a markdown file.
pub open spec fn markdown_path(path: Seq<char>) -> bool {
    has_suffix(path, ".md"@) || has_suffix(path, ".markdown"@)
}

pub fn is_markdown_file(path: &str) -> (r: bool)
    ensures
        r == markdown_path(path@),
{
    ends_with(path, ".md") || ends_with(path, ".markdown")
}

/// Why a path was refused.
#[derive(Clone, Copy, Debug, PartialEq, Eq, Structural)]
pub enum PathError {
    /// The path holds `..`.
    Traversal,
}

/// `s` without the `/` characters it begins with.
pub open spec fn without_leading_slashes(s: Seq<char>) -> Seq<char>
    decreases s.len(),
{
    if s.len() > 0 && s[0] == '/' {
        without_leading_slashes(s.drop_first())
    } else {
        s
    }
}

/// What `std::path::Path::join` gives for a base and a relative path.
pub uninterp spec fn joined_path(base: Seq<char>, name: Seq<char>) -> Seq<char>;

/// Relies on std::path::Path::join: `name` appended to `base` with one
/// separator; the result depends on the two alone and is text again.
#[verifier::external_body]
pub(crate) fn join_path(base: &str, name: &str) -> (r: String)
    ensures
        r@ == joined_path(base@, name@),
{
    std::path::Path::new(base).join(name).to_string_lossy().into_owned()
}

/// The path of `path` under `base`, taken as relative even where it begins
/// with `/`; refused where it holds `..`.
pub fn safe_join(base: &str, path: &str) -> (r: Result<String, PathError>)
    ensures
        has_pair(without_leading_slashes(path@), '.') ==> r == Err::<String, PathError>(
            PathError::Traversal,
        ),
        !has_pair(without_leading_slashes(path@), '.') ==> (r matches Ok(p) && p@ == joined_path(
            base@,
            without_leading_slashes(path@),
        )),
{
    let n = path.unicode_len();
    let mut i: usize = 0;
    proof {
        assert(path@.skip(0) =~= path@);
    }
    while i < n && path.get_char(i) == '/'
        invariant
            n == path@.len(),
            i <= n,
            without_leading_slashes(path@.skip(i as int)) == without_leading_slashes(path@),
        decreases n - i,
    {
        proof {
            assert(path@.skip(i as int).drop_first() =~= path@.skip(i + 1));
        }
        i = i + 1;
    }
    let rest = path.substring_char(i, n);
    proof {
        assert(rest@ =~= path@.skip(i as int));
    }
    if contains_pair(rest, '.') {
        Err(PathError::Traversal)
    } else {
        Ok(join_path(base, rest))
    }
}

/// Whether some entry is a file, or a directory with such an entry below it.
pub open spec fn markdown_below(entries: Seq<FileEntry>) -> bool
    decreases entries,
{
    exists|i: int|
        0 <= i < entries.len() && (!(#[trigger] entries[i]).is_dir || match entries[i].children {
            Some(c) => markdown_below(c@),
            None => false,
        })
}

/// Whether a listing holds a markdown file, directly or in a directory.
pub fn has_markdown_files(entries: &Vec<FileEntry>) -> (r: bool)
    ensures
        r == markdown_below(entries@),
    decreases entries@,
{
    let mut i: usize = 0;
    while i < entries.len()
        invariant
            i <= entries@.len(),
            forall|j: int|
                0 <= j < i ==> !(!(#[trigger] entries@[j]).is_dir || match entries@[j].children {
                    Some(c) => markdown_below(c@),
                    None => false,
                }),
        decreases entries@.len() - i,
    {
        let e = &entries[i];
        if !e.is_dir {
            return true;
        }
        match &e.children {
            Some(c) => {
                proof {
                    assert(decreases_to!(entries@ => entries@[i as int]));
                }
                if has_markdown_files(c) {
                    return true;
                }
            },
            None => {},
        }
        i = i + 1;
    }
    false
}

} // verus!
