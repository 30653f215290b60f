//! The git commands of the workspace server, and the reading of their output.

use vstd::prelude::*;
use vstd::string::*;
use crate::text::{lines, lines_of, strip_prefix, trim, trimmed, has_prefix};

verus! {

/// Where a git command runs.
#[derive(Clone, Copy, Debug, PartialEq, Eq, Structural)]
pub enum GitDir {
    /// The bare clone of the workspace.
    Repository,
    /// The worktree of the branch.
    Worktree,
}

/// One run of `git`: its arguments and where it runs.
pub struct GitCommand {
    pub args: Vec<String>,
    pub place: GitDir,
}

pub open spec fn arg_views(args: Seq<String>) -> Seq<Seq<char>> {
    args.map_values(|a: String| a@)
}

impl GitCommand {
    /// The arguments as text.
    pub open spec fn words(&self) -> Seq<Seq<char>> {
        arg_views(self.args@)
    }
}

fn owned(s: &str) -> (r: String)
    ensures
        r@ == s@,
{
    String::from_str(s)
}

fn command(args: Vec<String>, place: GitDir) -> (r: GitCommand)
    ensures
        r.args == args,
        r.place == place,
{
    GitCommand { args, place }
}

/// `git fetch --all` in the repository.
pub fn fetch_origin() -> (r: GitCommand)
    ensures
        r.words() == seq!["fetch"@, "--all"@],
        r.place == GitDir::Repository,
{
    let r = command(vec![owned("fetch"), owned("--all")], GitDir::Repository);
    proof {
        assert(r.words() =~= seq!["fetch"@, "--all"@]);
    }
    r
}

/// `git push -u origin HEAD` in the worktree.
pub fn push_branch() -> (r: GitCommand)
    ensures
        r.words() == seq!["push"@, "-u"@, "origin"@, "HEAD"@],
        r.place == GitDir::Worktree,
{
    let r = command(vec![owned("push"), owned("-u"), owned("origin"), owned("HEAD")], GitDir::Worktree);
    proof {
        assert(r.words() =~= seq!["push"@, "-u"@, "origin"@, "HEAD"@]);
    }
    r
}

/// Fetch in the repository, then a fast-forward pull in the worktree.
pub fn pull_branch() -> (r: Vec<GitCommand>)
    ensures
        r@.len() == 2,
        r@[0].words() == seq!["fetch"@, "--all"@],
        r@[0].place == GitDir::Repository,
        r@[1].words() == seq!["pull"@, "--ff-only"@],
        r@[1].place == GitDir::Worktree,
{
    let pull = command(vec![owned("pull"), owned("--ff-only")], GitDir::Worktree);
    proof {
        assert(pull.words() =~= seq!["pull"@, "--ff-only"@]);
    }
    vec![fetch_origin(), pull]
}

/// Fetch the base branch from origin, then rebase the worktree onto it.
pub fn rebase_on_base(base_branch: &str) -> (r: Vec<GitCommand>)
    ensures
        r@.len() == 2,
        r@[0].words() == seq!["fetch"@, "origin"@, base_branch@],
        r@[0].place == GitDir::Worktree,
        r@[1].words() == seq!["rebase"@, "origin/"@ + base_branch@],
        r@[1].place == GitDir::Worktree,
{
    let fetch = command(vec![owned("fetch"), owned("origin"), owned(base_branch)], GitDir::Worktree);
    let mut upstream = owned("origin/");
    upstream.append(base_branch);
    let rebase = command(vec![owned("rebase"), upstream], GitDir::Worktree);
    proof {
        assert(fetch.words() =~= seq!["fetch"@, "origin"@, base_branch@]);
        assert(rebase.words() =~= seq!["rebase"@, "origin/"@ + base_branch@]);
    }
    vec![fetch, rebase]
}

/// `git branch -m <new_name>` in the worktree.
pub fn rename_branch(new_name: &str) -> (r: GitCommand)
    ensures
        r.words() == seq!["branch"@, "-m"@, new_name@],
        r.place == GitDir::Worktree,
{
    let r = command(vec![owned("branch"), owned("-m"), owned(new_name)], GitDir::Worktree);
    proof {
        assert(r.words() =~= seq!["branch"@, "-m"@, new_name@]);
    }
    r
}

/// `git status --short` in the worktree; its output is the status.
pub fn get_status() -> (r: GitCommand)
    ensures
        r.words() == seq!["status"@, "--short"@],
        r.place == GitDir::Worktree,
{
    let r = command(vec![owned("status"), owned("--short")], GitDir::Worktree);
    proof {
        assert(r.words() =~= seq!["status"@, "--short"@]);
    }
    r
}

/// Stage each file in turn, commit with the message, then ask for the hash
/// of the new commit; all in the worktree.
pub fn commit_files(files: &Vec<String>, message: &str) -> (r: Vec<GitCommand>)
    ensures
        r@.len() == files@.len() + 2,
        forall|i: int|
            0 <= i < files@.len() ==> (#[trigger] r@[i]).words() == seq!["add"@, files@[i]@]
                && r@[i].place == GitDir::Worktree,
        r@[files@.len() as int].words() == seq!["commit"@, "-m"@, message@],
        r@[files@.len() as int + 1].words() == seq!["rev-parse"@, "HEAD"@],
        r@[files@.len() as int].place == GitDir::Worktree,
        r@[files@.len() as int + 1].place == GitDir::Worktree,
{
    let mut r: Vec<GitCommand> = Vec::new();
    let mut i: usize = 0;
    while i < files.len()
        invariant
            i <= files@.len(),
            r@.len() == i,
            forall|j: int|
                0 <= j < i ==> (#[trigger] r@[j]).words() == seq!["add"@, files@[j]@]
                    && r@[j].place == GitDir::Worktree,
        decreases files@.len() - i,
    {
        let add = command(vec![owned("add"), files[i].clone()], GitDir::Worktree);
        proof {
            assert(add.words() =~= seq!["add"@, files@[i as int]@]);
        }
        r.push(add);
        i = i + 1;
    }
    let commit = command(vec![owned("commit"), owned("-m"), owned(message)], GitDir::Worktree);
    let head = command(vec![owned("rev-parse"), owned("HEAD")], GitDir::Worktree);
    proof {
        assert(commit.words() =~= seq!["commit"@, "-m"@, message@]);
        assert(head.words() =~= seq!["rev-parse"@, "HEAD"@]);
    }
    r.push(commit);
    r.push(head);
    r
}

/// The hash of a commit, from the output of `git rev-parse HEAD`.
pub fn commit_hash(output: &str) -> (r: String)
    ensures
        r@ == trimmed(output@),
{
    trim(output)
}

/// `git rev-parse --abbrev-ref HEAD` in the worktree.
pub fn current_branch_command() -> (r: GitCommand)
    ensures
        r.words() == seq!["rev-parse"@, "--abbrev-ref"@, "HEAD"@],
        r.place == GitDir::Worktree,
{
    let r = command(vec![owned("rev-parse"), owned("--abbrev-ref"), owned("HEAD")], GitDir::Worktree);
    proof {
        assert(r.words() =~= seq!["rev-parse"@, "--abbrev-ref"@, "HEAD"@]);
    }
    r
}

/// The current branch, from the output of `current_branch_command`.
pub fn get_current_branch(output: &str) -> (r: String)
    ensures
        r@ == trimmed(output@),
{
    trim(output)
}

/// `git status --porcelain` in the worktree.
pub fn porcelain_status_command() -> (r: GitCommand)
    ensures
        r.words() == seq!["status"@, "--porcelain"@],
        r.place == GitDir::Worktree,
{
    let r = command(vec![owned("status"), owned("--porcelain")], GitDir::Worktree);
    proof {
        assert(r.words() =~= seq!["status"@, "--porcelain"@]);
    }
    r
}

/// Whether the output of `porcelain_status_command` reports any change.
pub fn has_uncommitted_changes(output: &str) -> (r: bool)
    ensures
        r == (trimmed(output@).len() > 0),
{
    trim(output).as_str().unicode_len() > 0
}

/// `git branch --format=%(refname:short)` in the repository.
pub fn branches_command() -> (r: GitCommand)
    ensures
        r.words() == seq!["branch"@, "--format=%(refname:short)"@],
        r.place == GitDir::Repository,
{
    let r = command(vec![owned("branch"), owned("--format=%(refname:short)")], GitDir::Repository);
    proof {
        assert(r.words() =~= seq!["branch"@, "--format=%(refname:short)"@]);
    }
    r
}

/// The non-blank lines of `lines`, trimmed, in order.
pub open spec fn trimmed_nonblank(lines: Seq<Seq<char>>) -> Seq<Seq<char>>
    decreases lines.len(),
{
    if lines.len() == 0 {
        Seq::empty()
    } else {
        let rest = trimmed_nonblank(lines.drop_last());
        if trimmed(lines.last()).len() > 0 {
            rest.push(trimmed(lines.last()))
        } else {
            rest
        }
    }
}

/// The branch names in the output of `branches_command`: one per line,
/// trimmed, blank lines left out.
pub fn list_branches(output: &str) -> (r: Vec<String>)
    ensures
        arg_views(r@) == trimmed_nonblank(lines_of(output@)),
{
    let all = lines(output);
    let ghost ls = lines_of(output@);
    let mut r: Vec<String> = Vec::new();
    let mut i: usize = 0;
    while i < all.len()
        invariant
            all@.map_values(|p: String| p@) == ls,
            i <= all@.len(),
            arg_views(r@) == trimmed_nonblank(ls.take(i as int)),
        decreases all@.len() - i,
    {
        let t = trim(all[i].as_str());
        proof {
            assert(ls.take(i + 1).drop_last() =~= ls.take(i as int));
            assert(ls.take(i + 1).last() == all@[i as int]@);
        }
        if t.as_str().unicode_len() > 0 {
            r.push(t);
            proof {
                assert(arg_views(r@) =~= trimmed_nonblank(ls.take(i + 1)));
            }
        }
        i = i + 1;
    }
    proof {
        assert(ls.take(all@.len() as int) =~= ls);
    }
    r
}

/// `git worktree list --porcelain` in the repository.
pub fn worktrees_command() -> (r: GitCommand)
    ensures
        r.words() == seq!["worktree"@, "list"@, "--porcelain"@],
        r.place == GitDir::Repository,
{
    let r = command(vec![owned("worktree"), owned("list"), owned("--porcelain")], GitDir::Repository);
    proof {
        assert(r.words() =~= seq!["worktree"@, "list"@, "--porcelain"@]);
    }
    r
}

/// What `std::path::Path::file_name` gives for a path.
pub uninterp spec fn path_file_name(p: Seq<char>) -> Option<Seq<char>>;

/// Relies on std::path::Path::file_name with OsStr::to_str: the last
/// component of the path, none where it ends in `..` or is a root; it
/// depends on the path alone.
#[verifier::external_body]
fn file_name(p: &str) -> (r: Option<String>)
    ensures
        match r {
            Some(n) => path_file_name(p@) == Some(n@),
            None => path_file_name(p@) is None,
        },
{
    std::path::Path::new(p).file_name().and_then(|n| n.to_str()).map(|n| n.to_string())
}

/// The worktree named on one line of the porcelain list, if the line names one.
pub open spec fn worktree_of(line: Seq<char>) -> Option<Seq<char>> {
    if has_prefix(line, "worktree "@) {
        match path_file_name(line.skip("worktree "@.len() as int)) {
            Some(n) => if n.len() > 0 {
                Some(n)
            } else {
                None
            },
            None => None,
        }
    } else {
        None
    }
}

pub open spec fn worktrees_in(lines: Seq<Seq<char>>) -> Seq<Seq<char>>
    decreases lines.len(),
{
    if lines.len() == 0 {
        Seq::empty()
    } else {
        let rest = worktrees_in(lines.drop_last());
        match worktree_of(lines.last()) {
            Some(n) => rest.push(n),
            None => rest,
        }
    }
}

/// The worktree directory names in the output of `worktrees_command`: the
/// last path component of each `worktree <path>` line.
pub fn list_worktrees(output: &str) -> (r: Vec<String>)
    ensures
        arg_views(r@) == worktrees_in(lines_of(output@)),
{
    let all = lines(output);
    let ghost ls = lines_of(output@);
    let mut r: Vec<String> = Vec::new();
    let mut i: usize = 0;
    while i < all.len()
        invariant
            all@.map_values(|p: String| p@) == ls,
            i <= all@.len(),
            arg_views(r@) == worktrees_in(ls.take(i as int)),
        decreases all@.len() - i,
    {
        proof {
            assert(ls.take(i + 1).drop_last() =~= ls.take(i as int));
            assert(ls.take(i + 1).last() == all@[i as int]@);
        }
        match strip_prefix(all[i].as_str(), "worktree ") {
            Some(path) => match file_name(path.as_str()) {
                Some(n) => if n.as_str().unicode_len() > 0 {
                    r.push(n);
                    proof {
                        assert(arg_views(r@) =~= worktrees_in(ls.take(i + 1)));
                    }
                },
                None => {},
            },
            None => {},
        }
        i = i + 1;
    }
    proof {
        assert(ls.take(all@.len() as int) =~= ls);
    }
    r
}

/// `git branch --list <branch>` in the repository: its output is blank
/// unless the branch exists.
pub fn branch_exists_command(branch: &str) -> (r: GitCommand)
    ensures
        r.words() == seq!["branch"@, "--list"@, branch@],
        r.place == GitDir::Repository,
{
    let r = command(vec![owned("branch"), owned("--list"), owned(branch)], GitDir::Repository);
    proof {
        assert(r.words() =~= seq!["branch"@, "--list"@, branch@]);
    }
    r
}

/// The command that adds the worktree of `branch` at `worktree_path`, in the
/// repository, given the output of `branch_exists_command`: an existing
/// branch is checked out, a new one is created from `from_branch`, else
/// from `HEAD`.
pub fn create_worktree(
    branch_list: &str,
    worktree_path: &str,
    branch: &str,
    from_branch: Option<&str>,
) -> (r: GitCommand)
    ensures
        r.place == GitDir::Repository,
        trimmed(branch_list@).len() > 0 ==> r.words() == seq![
            "worktree"@,
            "add"@,
            worktree_path@,
            branch@,
        ],
        trimmed(branch_list@).len() == 0 ==> r.words() == seq![
            "worktree"@,
            "add"@,
            "-b"@,
            branch@,
            worktree_path@,
            match from_branch {
                Some(b) => b@,
                None => "HEAD"@,
            },
        ],
{
    if trim(branch_list).as_str().unicode_len() > 0 {
        let r = command(
            vec![owned("worktree"), owned("add"), owned(worktree_path), owned(branch)],
            GitDir::Repository,
        );
        proof {
            assert(r.words() =~= seq!["worktree"@, "add"@, worktree_path@, branch@]);
        }
        r
    } else {
        let source = match from_branch {
            Some(b) => owned(b),
            None => owned("HEAD"),
        };
        let ghost src = source@;
        let r = command(
            vec![
                owned("worktree"),
                owned("add"),
                owned("-b"),
                owned(branch),
                owned(worktree_path),
                source,
            ],
            GitDir::Repository,
        );
        proof {
            assert(r.words() =~= seq!["worktree"@, "add"@, "-b"@, branch@, worktree_path@, src]);
        }
        r
    }
}

} // verus!
