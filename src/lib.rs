//! A terminal gateway: many shell sessions multiplexed over one connection,
//! with the wire protocol, the session registry and the per-connection
//! dispatcher verified, together with the helpers of the workspace server.

pub mod auth;
pub mod files;
pub mod gateway;
pub mod git;
pub mod protocol;
pub mod listing;
pub mod registry;
pub mod terminal;
pub mod text;
pub mod token;
pub mod workspace;

pub use auth::{bearer_token, check_auth, extract_token, query_token, requires_auth, verify_request, verify_token, AuthError};
pub use files::{has_markdown_files, is_markdown_file, safe_join, sanitize_branch_name, FileEntry, PathError};
pub use gateway::{Action, Gateway};
pub use git::{branch_exists_command, branches_command, commit_files, create_worktree, commit_hash, current_branch_command, fetch_origin, get_current_branch, get_status, has_uncommitted_changes, list_branches, list_worktrees, porcelain_status_command, pull_branch, push_branch, rebase_on_base, rename_branch, worktrees_command, GitCommand, GitDir};
pub use protocol::{ClientMessage, DecodeError, Envelope, Field, FieldName, ServerMessage};
pub use listing::{is_hidden, list_files, DirItem};
pub use registry::SessionTable;
pub use terminal::{after_read, output_frame, ReadOutcome, ReadStep, DEFAULT_COLS, DEFAULT_ROWS, READ_CHUNK};
pub use text::{is_space, trim};
pub use token::{generate_token, token_hex, TOKEN_BYTES};
pub use workspace::{branch_infos, source_branch, BranchInfo, ChangeBaseBranchRequest, CommitRequest, CreateBranchRequest, CreateWorkspaceRequest, FileQuery, RenameBranchRequest, SaveFileRequest, WorkspaceInfo};
