use repo_browser::history::{history_from, order_history, CommitEntry, RawCommit};
use repo_browser::model::RepoError;

fn raw(id: &str, message: Option<&str>, time: i64) -> RawCommit {
    RawCommit {
        id: id.to_string(),
        message: message.map(|m| m.to_string()),
        author: format!("author of {}", id),
        time,
    }
}

fn entry(id: &str, time: i64) -> CommitEntry {
    CommitEntry {
        id: id.to_string(),
        message: format!("message {}", id),
        author: "Ann <ann@example.com>".to_string(),
        time,
    }
}

fn ids(entries: &[CommitEntry]) -> Vec<String> {
    entries.iter().map(|e| e.id.clone()).collect()
}

#[test]
fn newest_commit_comes_first() {
    let out = order_history(vec![entry("a", 10), entry("b", 30), entry("c", 20)]);
    assert_eq!(ids(&out), vec!["b", "c", "a"]);
}

#[test]
fn equal_times_keep_walk_order() {
    let out = order_history(vec![entry("x", 5), entry("y", 9), entry("z", 5), entry("w", 9)]);
    assert_eq!(ids(&out), vec!["y", "w", "x", "z"]);
}

#[test]
fn repeated_id_is_reported_once() {
    let out = order_history(vec![entry("a", 3), entry("b", 2), entry("a", 3), entry("c", 1)]);
    assert_eq!(ids(&out), vec!["a", "b", "c"]);
}

#[test]
fn first_occurrence_of_an_id_is_kept() {
    let out = order_history(vec![entry("a", 1), entry("a", 7)]);
    assert_eq!(out.len(), 1);
    assert_eq!(out[0].time, 1);
}

#[test]
fn empty_walk_gives_empty_history() {
    assert!(order_history(Vec::new()).is_empty());
    let r = history_from(Vec::new());
    assert!(matches!(r, Ok(ref v) if v.is_empty()));
}

#[test]
fn history_reports_id_message_and_author() {
    let r = history_from(vec![raw("c1", Some("first\n\nbody"), 100), raw("c2", Some(""), 200)]);
    let v = match r {
        Ok(v) => v,
        Err(e) => panic!("unexpected error {:?}", e),
    };
    assert_eq!(v.len(), 2);
    assert_eq!(v[0].id, "c2");
    assert_eq!(v[0].message, "");
    assert_eq!(v[0].author, "author of c2");
    assert_eq!(v[1].id, "c1");
    assert_eq!(v[1].message, "first\n\nbody");
}

#[test]
fn unreadable_message_fails_whole_history() {
    let r = history_from(vec![raw("c1", Some("ok"), 1), raw("c2", None, 2), raw("c3", Some("ok"), 3)]);
    assert!(matches!(r, Err(RepoError::CommitData)));
}

#[test]
fn same_walk_gives_same_history() {
    let walk = || vec![raw("a", Some("m1"), 4), raw("b", Some("m2"), 4), raw("a", Some("m1"), 4), raw("c", Some("m3"), 9)];
    let first = history_from(walk()).unwrap();
    let second = history_from(walk()).unwrap();
    let key = |v: &Vec<repo_browser::model::BranchCommit>| {
        v.iter().map(|c| (c.id.clone(), c.message.clone(), c.author.clone())).collect::<Vec<_>>()
    };
    assert_eq!(key(&first), key(&second));
    assert_eq!(first.iter().map(|c| c.id.as_str()).collect::<Vec<_>>(), vec!["c", "a", "b"]);
}
