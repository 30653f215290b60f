//! The requests and listings of the workspace API.

use vstd::prelude::*;
use crate::files::{join_path, joined_path, sanitize_branch_name, sanitized};

verus! {

/// Create a workspace by cloning a repository.
pub struct CreateWorkspaceRequest {
    pub name: String,
    pub repo_url: String,
    pub base_branch: String,
}

/// Create a worktree for a branch, new or existing.
pub struct CreateBranchRequest {
    pub branch_name: String,
    pub from_branch: Option<String>,
}

/// Stage these files and commit them with the message.
pub struct CommitRequest {
    pub message: String,
    pub files: Vec<String>,
}

/// New content for a file.
pub struct SaveFileRequest {
    pub content: String,
}

/// The file that a request is about, relative to the worktree.
pub struct FileQuery {
    pub path: String,
}

pub struct ChangeBaseBranchRequest {
    pub new_base_branch: String,
}

pub struct RenameBranchRequest {
    pub new_name: String,
}

/// A workspace as listed to clients; `created_at` is an RFC 3339 time.
pub struct WorkspaceInfo {
    pub name: String,
    pub repo_url: String,
    pub base_branch: String,
    pub created_at: String,
}

/// A branch as listed to clients, with its worktree if it has one.
pub struct BranchInfo {
    pub name: String,
    pub is_worktree: bool,
    pub worktree_path: Option<String>,
}

/// The branch that a new worktree starts from: the one asked for, else the
/// workspace's base branch.
pub fn source_branch(requested: Option<String>, base_branch: String) -> (r: String)
    ensures
        r == match requested {
            Some(b) => b,
            None => base_branch,
        },
{
    match requested {
        Some(b) => b,
        None => base_branch,
    }
}

pub open spec fn names(v: Seq<String>) -> Seq<Seq<char>> {
    v.map_values(|s: String| s@)
}

/// How a branch is listed, given the worktree directory names and the
/// directory that holds them.
pub open spec fn listed_as(info: BranchInfo, branch: Seq<char>, worktrees: Seq<Seq<char>>, dir: Seq<char>) -> bool {
    let w = sanitized(branch);
    &&& info.name@ == branch
    &&& info.is_worktree == worktrees.contains(w)
    &&& match info.worktree_path {
        Some(p) => info.is_worktree && p@ == joined_path(dir, w),
        None => !info.is_worktree,
    }
}

fn has_name(v: &Vec<String>, name: &String) -> (r: bool)
    ensures
        r == names(v@).contains(name@),
{
    let mut i: usize = 0;
    while i < v.len()
        invariant
            i <= v@.len(),
            forall|j: int| 0 <= j < i ==> v@[j]@ != name@,
        decreases v@.len() - i,
    {
        if v[i] == *name {
            proof {
                assert(names(v@)[i as int] == name@);
            }
            return true;
        }
        i = i + 1;
    }
    proof {
        assert forall|j: int| 0 <= j < names(v@).len() implies names(v@)[j] != name@ by {
            assert(names(v@)[j] == v@[j]@);
        }
    }
    false
}

/// The branches of a workspace as listed to clients, in the given order: a
/// branch has a worktree where a worktree directory bears its sanitized name.
pub fn branch_infos(branches: Vec<String>, worktrees: &Vec<String>, worktrees_dir: &str) -> (r: Vec<BranchInfo>)
    ensures
        r@.len() == branches@.len(),
        forall|i: int|
            0 <= i < r@.len() ==> listed_as(
                #[trigger] r@[i],
                branches@[i]@,
                names(worktrees@),
                worktrees_dir@,
            ),
{
    let mut r: Vec<BranchInfo> = Vec::new();
    let mut i: usize = 0;
    while i < branches.len()
        invariant
            i <= branches@.len(),
            r@.len() == i,
            forall|j: int|
                0 <= j < i ==> listed_as(
                    #[trigger] r@[j],
                    branches@[j]@,
                    names(worktrees@),
                    worktrees_dir@,
                ),
        decreases branches@.len() - i,
    {
        let name = branches[i].clone();
        let w = sanitize_branch_name(name.as_str());
        let is_worktree = has_name(worktrees, &w);
        let worktree_path = if is_worktree {
            Some(join_path(worktrees_dir, w.as_str()))
        } else {
            None
        };
        r.push(BranchInfo { name, is_worktree, worktree_path });
        i = i + 1;
    }
    r
}

} // verus!
