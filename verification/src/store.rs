//! The records of the persistent store, held as plain values, and the small
//! decisions the surrounding endpoints make on them. Timestamps are carried
//! as their formatted text; storage itself is an external collaborator.

use vstd::prelude::*;
use vstd::string::StringExecFns;
use crate::json::str_eq;

verus! {

/// A workspace: a folder with an optional setup script and the branch that
/// diffs compare against.
pub struct Workspace {
    pub id: String,
    pub name: String,
    pub folder: String,
    pub script_path: Option<String>,
    pub origin_branch: String,
    pub created_at: String,
}

/// A session record.
pub struct Session {
    pub id: String,
    pub name: String,
    pub cwd: String,
    pub workspace_id: Option<String>,
    pub worktree_name: Option<String>,
    pub status: String,
    pub base_commit: Option<String>,
    pub created_at: String,
    pub updated_at: String,
}

/// An inbox message from a session to the supervisor.
pub struct InboxMessage {
    pub id: String,
    pub session_id: String,
    pub session_name: String,
    pub message: String,
    pub created_at: String,
    pub read_at: Option<String>,
    pub first_read_at: Option<String>,
}

/// A review comment on a diff, possibly a threaded reply.
pub struct DiffComment {
    pub id: String,
    pub session_id: String,
    pub file_path: String,
    pub line_number: Option<i32>,
    pub line_type: Option<String>,
    pub author: String,
    pub content: String,
    pub status: String,
    pub parent_id: Option<String>,
    pub created_at: String,
    pub updated_at: String,
}

/// A workspace as handed over the process boundary.
pub struct WorkspaceData {
    pub id: String,
    pub name: String,
    pub folder: String,
    pub script_path: Option<String>,
    pub origin_branch: String,
}

/// A session as handed over the process boundary.
pub struct SessionData {
    pub id: String,
    pub name: String,
    pub cwd: String,
    pub workspace_id: Option<String>,
    pub worktree_name: Option<String>,
    pub status: String,
    pub base_commit: Option<String>,
}

/// An inbox message as handed over the process boundary.
pub struct InboxMessageData {
    pub id: String,
    pub session_id: String,
    pub session_name: String,
    pub message: String,
    pub created_at: String,
    pub read_at: Option<String>,
    pub first_read_at: Option<String>,
}

/// A diff comment as handed over the process boundary.
pub struct DiffCommentData {
    pub id: String,
    pub session_id: String,
    pub file_path: String,
    pub line_number: Option<i32>,
    pub line_type: Option<String>,
    pub author: String,
    pub content: String,
    pub status: String,
    pub parent_id: Option<String>,
    pub created_at: String,
    pub updated_at: String,
}

/// Carries a stored comment over the process boundary, field for field.
pub fn comment_to_data(c: DiffComment) -> (r: DiffCommentData)
    ensures
        r.id == c.id,
        r.session_id == c.session_id,
        r.file_path == c.file_path,
        r.line_number == c.line_number,
        r.line_type == c.line_type,
        r.author == c.author,
        r.content == c.content,
        r.status == c.status,
        r.parent_id == c.parent_id,
        r.created_at == c.created_at,
        r.updated_at == c.updated_at,
{
    DiffCommentData {
        id: c.id,
        session_id: c.session_id,
        file_path: c.file_path,
        line_number: c.line_number,
        line_type: c.line_type,
        author: c.author,
        content: c.content,
        status: c.status,
        parent_id: c.parent_id,
        created_at: c.created_at,
        updated_at: c.updated_at,
    }
}

/// Whether a requested session status is one the endpoint accepts.
pub fn validate_status(status: &str) -> (r: bool)
    ensures
        r == (status@ == "ready"@ || status@ == "busy"@),
{
    str_eq(status, "ready") || str_eq(status, "busy")
}

/// The author recorded for a comment reply from a session: the session's
/// display name where the record was found, else the session identifier.
pub fn reply_author(session: &Option<Session>, session_id: &str) -> (r: String)
    ensures
        match session {
            Some(s) => r == s.name,
            None => r@ == session_id@,
        },
{
    match session {
        Some(s) => s.name.clone(),
        None => String::from_str(session_id),
    }
}

/// A session display name where one was found, else the fixed fallback.
pub fn session_name_or_unknown(name: Option<String>) -> (r: String)
    ensures
        match name {
            Some(n) => r == n,
            None => r@ == "Unknown"@,
        },
{
    match name {
        Some(n) => n,
        None => String::from_str("Unknown"),
    }
}

} // verus!
