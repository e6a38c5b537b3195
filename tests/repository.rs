use git2::{Commit, Oid, Repository, Signature, Time};
use repo_browser::model::{BranchCommit, RepoBranch, RepoError};
use repo_browser::repo::{open_repo, GitRepo};
use std::time::{SystemTime, UNIX_EPOCH};

fn fresh_path(tag: &str) -> String {
    let nanos = SystemTime::now().duration_since(UNIX_EPOCH).unwrap().as_nanos();
    format!("/tmp/repo_browser_{}_{}", tag, nanos)
}

fn init_repo(tag: &str) -> (Repository, String) {
    let path = fresh_path(tag);
    let repo = Repository::init(&path).unwrap();
    (repo, path)
}

fn commit_at(repo: &Repository, refname: &str, message: &str, seconds: i64, parents: &[&Commit]) -> Oid {
    let sig = Signature::new("Ann", "ann@example.com", &Time::new(seconds, 0)).unwrap();
    let tree_id = repo.index().unwrap().write_tree().unwrap();
    let tree = repo.find_tree(tree_id).unwrap();
    repo.commit(Some(refname), &sig, &sig, message, &tree, parents).unwrap()
}

fn history(handle: &GitRepo) -> Vec<BranchCommit> {
    match handle.get_commit_history() {
        Ok(v) => v,
        Err(e) => panic!("unexpected error {:?}", e),
    }
}

fn branches(r: Result<Vec<RepoBranch>, RepoError>) -> Vec<RepoBranch> {
    match r {
        Ok(v) => v,
        Err(e) => panic!("unexpected error {:?}", e),
    }
}

#[test]
fn history_of_repository_with_commits_is_not_empty() {
    let (repo, path) = init_repo("nonempty");
    let id = commit_at(&repo, "HEAD", "only", 1_000, &[]);
    let mut handle = GitRepo::empty();
    branches(open_repo(&mut handle, &path));
    let v = history(&handle);
    assert_eq!(v.len(), 1);
    assert_eq!(v[0].id, id.to_string());
    assert_eq!(v[0].message, "only");
    assert_eq!(v[0].author, "Ann <ann@example.com>");
}

#[test]
fn history_of_repository_without_commits_fails() {
    let (_repo, path) = init_repo("empty");
    let mut handle = GitRepo::empty();
    assert!(handle.open(&path).is_ok());
    assert!(matches!(handle.get_commit_history(), Err(RepoError::HeadResolution(_))));
}

#[test]
fn opening_twice_gives_same_branches() {
    let (repo, path) = init_repo("twice");
    let first = commit_at(&repo, "HEAD", "root", 1_000, &[]);
    let c = repo.find_commit(first).unwrap();
    repo.branch("topic", &c, false).unwrap();
    let mut handle = GitRepo::empty();
    let a = branches(open_repo(&mut handle, &path));
    let b = branches(open_repo(&mut handle, &path));
    assert_eq!(a.len(), 2);
    assert_eq!(a.len(), b.len());
    for (x, y) in a.iter().zip(b.iter()) {
        assert_eq!(x.name, y.name);
        assert_eq!(x.branch_type, y.branch_type);
        assert_eq!(x.is_checked_out, y.is_checked_out);
    }
}

#[test]
fn history_is_newest_first() {
    let (repo, path) = init_repo("order");
    let c1 = commit_at(&repo, "HEAD", "t1", 1_000, &[]);
    let first_c = repo.find_commit(c1).unwrap();
    let c2 = commit_at(&repo, "HEAD", "t2", 2_000, &[&first_c]);
    let second_c = repo.find_commit(c2).unwrap();
    commit_at(&repo, "HEAD", "t3", 3_000, &[&second_c]);
    let handle = GitRepo::new(&path).unwrap();
    let messages: Vec<String> = history(&handle).into_iter().map(|c| c.message).collect();
    assert_eq!(messages, vec!["t3", "t2", "t1"]);
}

#[test]
fn shared_ancestor_of_merge_appears_once() {
    let (repo, path) = init_repo("merge");
    let base = commit_at(&repo, "HEAD", "base", 1_000, &[]);
    let base_c = repo.find_commit(base).unwrap();
    repo.branch("side", &base_c, false).unwrap();
    let ours = commit_at(&repo, "HEAD", "ours", 2_000, &[&base_c]);
    let theirs = commit_at(&repo, "refs/heads/side", "theirs", 3_000, &[&base_c]);
    let ours_c = repo.find_commit(ours).unwrap();
    let theirs_c = repo.find_commit(theirs).unwrap();
    commit_at(&repo, "HEAD", "merge", 4_000, &[&ours_c, &theirs_c]);
    let handle = GitRepo::new(&path).unwrap();
    let v = history(&handle);
    let messages: Vec<String> = v.iter().map(|c| c.message.clone()).collect();
    assert_eq!(messages, vec!["merge", "theirs", "ours", "base"]);
    let base_id = base.to_string();
    assert_eq!(v.iter().filter(|c| c.id == base_id).count(), 1);
}

#[test]
fn only_checked_out_branch_is_marked() {
    let (repo, path) = init_repo("status");
    let root = commit_at(&repo, "refs/heads/main", "root", 1_000, &[]);
    repo.set_head("refs/heads/main").unwrap();
    let root_c = repo.find_commit(root).unwrap();
    repo.branch("feature", &root_c, false).unwrap();
    let mut handle = GitRepo::empty();
    let v = branches(open_repo(&mut handle, &path));
    assert_eq!(v.len(), 2);
    let marked: Vec<&RepoBranch> = v.iter().filter(|b| b.is_checked_out).collect();
    assert_eq!(marked.len(), 1);
    assert_eq!(marked[0].name, "main");
    assert!(v.iter().any(|b| b.name == "feature" && !b.is_checked_out));
}

#[test]
fn history_before_open_fails() {
    let handle = GitRepo::empty();
    assert!(!handle.is_open());
    assert!(matches!(handle.get_commit_history(), Err(RepoError::RepositoryNotOpen)));
    assert!(matches!(handle.get_branches(), Err(RepoError::RepositoryNotOpen)));
}

#[test]
fn opening_non_repository_fails_and_closes_handle() {
    let (repo, path) = init_repo("before");
    commit_at(&repo, "HEAD", "root", 1_000, &[]);
    let mut handle = GitRepo::empty();
    branches(open_repo(&mut handle, &path));
    assert!(handle.is_open());
    let missing = fresh_path("missing");
    assert!(matches!(open_repo(&mut handle, &missing), Err(RepoError::RepositoryOpen(_))));
    assert!(!handle.is_open());
    assert!(matches!(handle.get_commit_history(), Err(RepoError::RepositoryNotOpen)));
    assert!(matches!(GitRepo::new(&missing), Err(RepoError::RepositoryOpen(_))));
}

#[test]
fn reopening_replaces_repository() {
    let (first, first_path) = init_repo("first");
    commit_at(&first, "HEAD", "in first", 1_000, &[]);
    let (second, second_path) = init_repo("second");
    commit_at(&second, "HEAD", "in second", 1_000, &[]);
    let mut handle = GitRepo::empty();
    branches(open_repo(&mut handle, &first_path));
    branches(open_repo(&mut handle, &second_path));
    assert_eq!(handle.path, second_path);
    let v = history(&handle);
    assert_eq!(v.len(), 1);
    assert_eq!(v[0].message, "in second");
}
