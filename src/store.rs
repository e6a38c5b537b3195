use git2::{Branch, BranchType, Commit, Error, Oid, Repository, Revwalk, Sort};
use vstd::prelude::*;

verus! {

#[verifier::external_type_specification]
#[verifier::external_body]
pub struct ExRepository(Repository);

#[verifier::external_type_specification]
#[verifier::external_body]
pub struct ExError(Error);

#[verifier::external_type_specification]
#[verifier::external_body]
pub struct ExOid(Oid);

#[verifier::external_type_specification]
#[verifier::external_body]
pub struct ExBranch<'repo>(Branch<'repo>);

#[verifier::external_type_specification]
#[verifier::external_body]
pub struct ExRevwalk<'repo>(Revwalk<'repo>);

#[verifier::external_type_specification]
#[verifier::external_body]
pub struct ExCommit<'repo>(Commit<'repo>);

/// Relies on `git2::Repository::open`: opens the repository at `path`.
#[verifier::external_body]
pub(crate) fn open_repository(path: &str) -> (r: Result<Repository, Error>) {
    Repository::open(path)
}

/// Relies on `git2::Error::message`: the text of the underlying failure.
#[verifier::external_body]
pub(crate) fn error_text(e: &Error) -> (r: String) {
    e.message().to_string()
}

/// Relies on `git2::Repository::branches` with the local filter, driven to
/// its end; each item is the branch of the pair that the iterator yields.
#[verifier::external_body]
pub(crate) fn local_branches<'r>(repo: &'r Repository) -> (r: Result<Vec<Result<Branch<'r>, Error>>, Error>) {
    repo.branches(Some(BranchType::Local)).map(|it| it.map(|item| item.map(|pair| pair.0)).collect())
}

/// Relies on `git2::Branch::name`: `Ok(None)` when the name is not UTF-8.
#[verifier::external_body]
pub(crate) fn branch_name(b: &Branch) -> (r: Result<Option<String>, Error>) {
    b.name().map(|n| n.map(|s| s.to_string()))
}

/// Relies on `git2::Branch::is_head`: whether HEAD points at this branch.
#[verifier::external_body]
pub(crate) fn branch_is_head(b: &Branch) -> (r: bool) {
    b.is_head()
}

/// Relies on `git2::Repository::revwalk`: a fresh walk over `repo`.
#[verifier::external_body]
pub(crate) fn new_walk<'r>(repo: &'r Repository) -> (r: Result<Revwalk<'r>, Error>) {
    repo.revwalk()
}

/// Relies on `git2::Revwalk::set_sorting` with `Sort::TIME`.
#[verifier::external_body]
pub(crate) fn sort_walk_by_time(w: &mut Revwalk) -> (r: Result<(), Error>) {
    w.set_sorting(Sort::TIME)
}

/// Relies on `git2::Revwalk::push_head`: starts the walk at HEAD, and fails
/// when HEAD does not resolve to a commit.
#[verifier::external_body]
pub(crate) fn push_head(w: &mut Revwalk) -> (r: Result<(), Error>) {
    w.push_head()
}

/// Relies on the `Iterator` impl of `git2::Revwalk`, driven to its end.
#[verifier::external_body]
pub(crate) fn walk_ids(w: Revwalk) -> (r: Vec<Result<Oid, Error>>) {
    w.collect()
}

/// Relies on `git2::Repository::find_commit`: the commit named by `id`.
#[verifier::external_body]
pub(crate) fn find_commit<'r>(repo: &'r Repository, id: &Oid) -> (r: Result<Commit<'r>, Error>) {
    repo.find_commit(*id)
}

/// Relies on the `Display` impl of `git2::Oid`: the id in hexadecimal.
#[verifier::external_body]
pub(crate) fn oid_text(id: &Oid) -> (r: String) {
    id.to_string()
}

/// Relies on `git2::Commit::message`: `None` when it is not UTF-8.
#[verifier::external_body]
pub(crate) fn commit_message(c: &Commit) -> (r: Option<String>) {
    c.message().map(|s| s.to_string())
}

/// Relies on `git2::Commit::author` and the `Display` impl of
/// `git2::Signature`: "name <email>".
#[verifier::external_body]
pub(crate) fn commit_author(c: &Commit) -> (r: String) {
    c.author().to_string()
}

/// Relies on `git2::Commit::time` and `git2::Time::seconds`: the commit
/// time in seconds since the epoch.
#[verifier::external_body]
pub(crate) fn commit_seconds(c: &Commit) -> (r: i64) {
    c.time().seconds()
}

} // verus!
