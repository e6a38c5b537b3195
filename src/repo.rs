use crate::branches::{branches_from, name_unreadable, reports_branches, RawBranch};
use crate::history::{history_from, reports_history, RawCommit};
use crate::model::{BranchCommit, RepoBranch, RepoError};
use crate::store;
use git2::Repository;
use vstd::prelude::*;

verus! {

/// The handle on the one repository that queries run against.
pub struct GitRepo {
    /// The path that the open repository was opened from; empty when none is.
    pub path: String,
    /// The open repository, if any.
    pub repo: Option<Repository>,
}

impl GitRepo {
    /// A handle with no repository open.
    pub fn empty() -> (r: GitRepo)
        ensures
            r.repo is None,
            r.path@ == Seq::<char>::empty(),
    {
        GitRepo { path: String::new(), repo: None }
    }

    /// Whether a repository is open.
    pub fn is_open(&self) -> (r: bool)
        ensures
            r == self.repo is Some,
    {
        self.repo.is_some()
    }

    /// A handle on the repository at `repo_path`, or `RepositoryOpen` with
    /// the cause when it cannot be opened.
    pub fn new(repo_path: &str) -> (r: Result<GitRepo, RepoError>)
        ensures
            r matches Ok(g) ==> g.repo is Some && g.path@ == repo_path@,
            r matches Err(e) ==> e is RepositoryOpen,
    {
        match store::open_repository(repo_path) {
            Ok(repo) => Ok(GitRepo { path: repo_path.to_owned(), repo: Some(repo) }),
            Err(e) => Err(RepoError::RepositoryOpen(store::error_text(&e))),
        }
    }

    /// Opens the repository at `path` in place of whatever was open. The
    /// previous repository is let go first, so on failure none is open.
    pub fn open(&mut self, path: &str) -> (r: Result<(), RepoError>)
        ensures
            r is Ok ==> final(self).repo is Some && final(self).path@ == path@,
            r matches Err(e) ==> e is RepositoryOpen,
            r is Err ==> final(self).repo is None && final(self).path@ == Seq::<char>::empty(),
    {
        self.repo = None;
        self.path = String::new();
        match GitRepo::new(path) {
            Ok(g) => {
                *self = g;
                Ok(())
            },
            Err(e) => Err(e),
        }
    }

    /// The local branches of the open repository, in the store's order.
    pub fn get_branches(&self) -> (r: Result<Vec<RepoBranch>, RepoError>)
        ensures
            self.repo is None <==> r matches Err(RepoError::RepositoryNotOpen),
            !(r matches Err(RepoError::RepositoryOpen(_))),
            r matches Ok(v) ==> exists|raw: Seq<RawBranch>|
                !name_unreadable(raw) && reports_branches(raw, v@),
    {
        let repo = match &self.repo {
            Some(repo) => repo,
            None => return Err(RepoError::RepositoryNotOpen),
        };
        let found = match store::local_branches(repo) {
            Ok(found) => found,
            Err(e) => return Err(RepoError::RepositoryQuery(store::error_text(&e))),
        };
        let mut raw: Vec<RawBranch> = Vec::new();
        let mut i: usize = 0;
        while i < found.len()
            invariant
                self.repo is Some,
                i <= found@.len(),
            decreases found.len() - i,
        {
            let branch = match &found[i] {
                Ok(branch) => branch,
                Err(e) => return Err(RepoError::RepositoryQuery(store::error_text(e))),
            };
            let name = match store::branch_name(branch) {
                Ok(name) => name,
                Err(e) => return Err(RepoError::RepositoryQuery(store::error_text(&e))),
            };
            raw.push(RawBranch { name: name, is_head: store::branch_is_head(branch) });
            i = i + 1;
        }
        branches_from(raw)
    }

    /// The history reachable from HEAD of the open repository: each commit
    /// once, newest first. Fails with `HeadResolution` when HEAD names no
    /// commit, as in a repository without commits.
    pub fn get_commit_history(&self) -> (r: Result<Vec<BranchCommit>, RepoError>)
        ensures
            self.repo is None <==> r matches Err(RepoError::RepositoryNotOpen),
            r matches Ok(v) ==> exists|raw: Seq<RawCommit>| reports_history(raw, v@),
    {
        let repo = match &self.repo {
            Some(repo) => repo,
            None => return Err(RepoError::RepositoryNotOpen),
        };
        let mut walk = match store::new_walk(repo) {
            Ok(walk) => walk,
            Err(e) => return Err(RepoError::RepositoryQuery(store::error_text(&e))),
        };
        if let Err(e) = store::sort_walk_by_time(&mut walk) {
            return Err(RepoError::RepositoryQuery(store::error_text(&e)));
        }
        if let Err(e) = store::push_head(&mut walk) {
            return Err(RepoError::HeadResolution(store::error_text(&e)));
        }
        let ids = store::walk_ids(walk);
        let mut raw: Vec<RawCommit> = Vec::new();
        let mut i: usize = 0;
        while i < ids.len()
            invariant
                self.repo is Some,
                i <= ids@.len(),
            decreases ids.len() - i,
        {
            let id = match &ids[i] {
                Ok(id) => id,
                Err(e) => return Err(RepoError::RepositoryQuery(store::error_text(e))),
            };
            let commit = match store::find_commit(repo, id) {
                Ok(commit) => commit,
                Err(e) => return Err(RepoError::RepositoryQuery(store::error_text(&e))),
            };
            raw.push(
                RawCommit {
                    id: store::oid_text(id),
                    message: store::commit_message(&commit),
                    author: store::commit_author(&commit),
                    time: store::commit_seconds(&commit),
                },
            );
            i = i + 1;
        }
        history_from(raw)
    }
}

/// Opens the repository at `path` in `handle`, in place of whatever was
/// open, and lists its local branches.
pub fn open_repo(handle: &mut GitRepo, path: &str) -> (r: Result<Vec<RepoBranch>, RepoError>)
    ensures
        r matches Err(RepoError::RepositoryOpen(_)) ==> final(handle).repo is None,
        !(r matches Err(RepoError::RepositoryOpen(_))) ==> final(handle).repo is Some
            && final(handle).path@ == path@,
        !(r matches Err(RepoError::RepositoryNotOpen)),
        r matches Ok(v) ==> exists|raw: Seq<RawBranch>|
            !name_unreadable(raw) && reports_branches(raw, v@),
{
    handle.open(path)?;
    handle.get_branches()
}

} // verus!
