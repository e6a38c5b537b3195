use vstd::prelude::*;

verus! {

/// Whether a branch lives only in the local store or tracks another store.
#[derive(PartialEq, Eq, Structural, Clone, Copy, Debug)]
pub enum RepoBranchType {
    Local,
    Remote,
}

/// One branch as reported to callers.
#[derive(Debug)]
pub struct RepoBranch {
    pub name: String,
    pub branch_type: RepoBranchType,
    pub is_checked_out: bool,
}

/// One commit of a history as reported to callers.
#[derive(Debug)]
pub struct BranchCommit {
    pub id: String,
    pub message: String,
    pub author: String,
}

/// The typed failures of every repository operation.
#[derive(Debug)]
pub enum RepoError {
    /// The path could not be opened as a repository; carries the cause.
    RepositoryOpen(String),
    /// A query was issued while no repository is open.
    RepositoryNotOpen,
    /// A branch has no name that can be read as text.
    BranchName,
    /// HEAD does not resolve to a commit (for instance, no commit yet).
    HeadResolution(String),
    /// A commit's message cannot be read as text.
    CommitData,
    /// Any other failure of the underlying store; carries the cause.
    RepositoryQuery(String),
}

} // verus!
