use crate::model::{BranchCommit, RepoError};
use vstd::prelude::*;

verus! {

/// A commit as the walk reported it, before its message has been checked.
pub struct RawCommit {
    pub id: String,
    /// `None` when the store holds a message that cannot be read as text.
    pub message: Option<String>,
    pub author: String,
    /// Commit time, in seconds since the epoch.
    pub time: i64,
}

/// A commit with a readable message, and the time that orders the history.
pub struct CommitEntry {
    pub id: String,
    pub message: String,
    pub author: String,
    pub time: i64,
}

/// Whether the entry at `n` repeats the id of an earlier entry.
pub open spec fn id_seen_before(s: Seq<CommitEntry>, n: int) -> bool {
    exists|j: int| 0 <= j < n && s[j].id@ == s[n].id@
}

/// The entries of `s` whose id has not occurred earlier in `s`, in order.
pub open spec fn first_occurrences(s: Seq<CommitEntry>) -> Seq<CommitEntry>
    decreases s.len(),
{
    if s.len() == 0 {
        s
    } else {
        let rest = first_occurrences(s.drop_last());
        if id_seen_before(s, s.len() - 1) {
            rest
        } else {
            rest.push(s.last())
        }
    }
}

/// The entries of `s` whose time is `t`, in order.
pub open spec fn with_time(s: Seq<CommitEntry>, t: i64) -> Seq<CommitEntry>
    decreases s.len(),
{
    if s.len() == 0 {
        s
    } else {
        let rest = with_time(s.drop_last(), t);
        if s.last().time == t {
            rest.push(s.last())
        } else {
            rest
        }
    }
}

/// Times never increase along `s`.
pub open spec fn newest_first(s: Seq<CommitEntry>) -> bool {
    forall|a: int, b: int| 0 <= a < b < s.len() ==> s[a].time >= s[b].time
}

/// No id occurs twice in `s`.
pub open spec fn ids_distinct(s: Seq<CommitEntry>) -> bool {
    forall|a: int, b: int| 0 <= a < b < s.len() ==> s[a].id@ != s[b].id@
}

/// Whether some entry of `s` has the id `id`.
pub open spec fn has_id(s: Seq<CommitEntry>, id: Seq<char>) -> bool {
    exists|k: int| 0 <= k < s.len() && s[k].id@ == id
}

/// `out` is the history of `walk`: the first occurrence of each id, sorted
/// by time with the newest first, where entries of equal time keep the
/// order of the walk.
pub open spec fn is_history_of(walk: Seq<CommitEntry>, out: Seq<CommitEntry>) -> bool {
    &&& newest_first(out)
    &&& forall|t: i64| with_time(out, t) == with_time(first_occurrences(walk), t)
}

proof fn lemma_with_time_concat(a: Seq<CommitEntry>, b: Seq<CommitEntry>, t: i64)
    ensures
        with_time(a + b, t) == with_time(a, t) + with_time(b, t),
    decreases b.len(),
{
    if b.len() == 0 {
        assert(a + b =~= a);
        assert(with_time(a, t) + with_time(b, t) =~= with_time(a, t));
    } else {
        lemma_with_time_concat(a, b.drop_last(), t);
        assert((a + b).drop_last() =~= a + b.drop_last());
        if b.last().time == t {
            assert(with_time(a, t) + with_time(b.drop_last(), t).push(b.last()) =~= (with_time(a, t)
                + with_time(b.drop_last(), t)).push(b.last()));
        }
    }
}

proof fn lemma_with_time_absent(s: Seq<CommitEntry>, t: i64)
    requires
        forall|k: int| 0 <= k < s.len() ==> s[k].time != t,
    ensures
        with_time(s, t) == Seq::<CommitEntry>::empty(),
    decreases s.len(),
{
    if s.len() > 0 {
        lemma_with_time_absent(s.drop_last(), t);
    }
}

proof fn lemma_with_time_push(s: Seq<CommitEntry>, x: CommitEntry, t: i64)
    ensures
        with_time(s.push(x), t) == if x.time == t {
            with_time(s, t).push(x)
        } else {
            with_time(s, t)
        },
{
    assert(s.push(x).drop_last() =~= s);
}

proof fn lemma_has_id_push(s: Seq<CommitEntry>, x: CommitEntry, id: Seq<char>)
    ensures
        has_id(s.push(x), id) == (has_id(s, id) || x.id@ == id),
{
    if has_id(s, id) {
        let k = choose|k: int| 0 <= k < s.len() && s[k].id@ == id;
        assert(s.push(x)[k] == s[k]);
    }
    if x.id@ == id {
        assert(s.push(x)[s.len() as int] == x);
    }
    if has_id(s.push(x), id) {
        let k = choose|k: int| 0 <= k < s.push(x).len() && s.push(x)[k].id@ == id;
        if k < s.len() {
            assert(s[k] == s.push(x)[k]);
        }
    }
}

/// Whether some entry of `out` has the id `id`.
fn contains_id(out: &Vec<CommitEntry>, id: &String) -> (r: bool)
    ensures
        r == has_id(out@, id@),
{
    let mut k: usize = 0;
    while k < out.len()
        invariant
            k <= out@.len(),
            forall|m: int| 0 <= m < k ==> out@[m].id@ != id@,
        decreases out.len() - k,
    {
        if out[k].id == *id {
            return true;
        }
        k = k + 1;
    }
    false
}

/// Inserts `x` after every entry whose time is not older than its own.
fn insert_by_time(out: &mut Vec<CommitEntry>, x: CommitEntry)
    requires
        newest_first(old(out)@),
        ids_distinct(old(out)@),
        !has_id(old(out)@, x.id@),
    ensures
        newest_first(final(out)@),
        ids_distinct(final(out)@),
        forall|t: i64|
            #![trigger with_time(final(out)@, t)]
            with_time(final(out)@, t) == with_time(old(out)@.push(x), t),
        forall|id: Seq<char>|
            #![trigger has_id(final(out)@, id)]
            has_id(final(out)@, id) == has_id(old(out)@.push(x), id),
{
    let mut p: usize = 0;
    while p < out.len() && out[p].time >= x.time
        invariant
            p <= out@.len(),
            forall|m: int| 0 <= m < p ==> out@[m].time >= x.time,
        decreases out.len() - p,
    {
        p = p + 1;
    }
    let ghost old_out = out@;
    let ghost a = old_out.take(p as int);
    let ghost b = old_out.skip(p as int);
    proof {
        assert forall|m: int| p <= m < old_out.len() implies old_out[m].time < x.time by {
            assert(old_out[p as int].time < x.time);
            assert(old_out[p as int].time >= old_out[m].time);
        }
        assert forall|k: int| 0 <= k < b.len() implies b[k].time != x.time by {
            assert(b[k] == old_out[p + k]);
        }
        lemma_with_time_absent(b, x.time);
        assert(old_out =~= a + b);
    }
    out.insert(p, x);
    proof {
        assert(out@ =~= a + seq![x] + b);
        assert forall|t: i64| with_time(out@, t) == with_time(old_out.push(x), t) by {
            lemma_with_time_concat(a + seq![x], b, t);
            lemma_with_time_concat(a, seq![x], t);
            lemma_with_time_concat(a, b, t);
            lemma_with_time_push(Seq::<CommitEntry>::empty(), x, t);
            assert(Seq::<CommitEntry>::empty().push(x) =~= seq![x]);
            lemma_with_time_push(old_out, x, t);
            if x.time == t {
                assert(with_time(a, t) + with_time(seq![x], t) + with_time(b, t) =~= (with_time(a, t)
                    + with_time(b, t)).push(x));
            } else {
                assert(with_time(a, t) + with_time(seq![x], t) + with_time(b, t) =~= with_time(a, t)
                    + with_time(b, t));
            }
        }
        assert forall|id: Seq<char>| has_id(out@, id) == has_id(old_out.push(x), id) by {
            lemma_has_id_push(old_out, x, id);
            if has_id(old_out, id) {
                let m = choose|m: int| 0 <= m < old_out.len() && old_out[m].id@ == id;
                if m < p {
                    assert(out@[m] == old_out[m]);
                } else {
                    assert(out@[m + 1] == old_out[m]);
                }
            }
            if x.id@ == id {
                assert(out@[p as int] == x);
            }
            if has_id(out@, id) {
                let m = choose|m: int| 0 <= m < out@.len() && out@[m].id@ == id;
                if m < p {
                    assert(out@[m] == old_out[m]);
                } else if m > p {
                    assert(out@[m] == old_out[m - 1]);
                }
            }
        }
        assert forall|m1: int, m2: int| 0 <= m1 < m2 < out@.len() implies out@[m1].id@
            != out@[m2].id@ by {
            if m1 != p && m2 != p {
                let q1 = if m1 < p { m1 } else { m1 - 1 };
                let q2 = if m2 < p { m2 } else { m2 - 1 };
                assert(out@[m1] == old_out[q1]);
                assert(out@[m2] == old_out[q2]);
            } else if m1 == p {
                let q2 = m2 - 1;
                assert(out@[m2] == old_out[q2]);
            } else {
                assert(out@[m1] == old_out[m1]);
            }
        }
    }
}

/// The history of a walk: each id once, at its first occurrence, newest
/// first, with entries of equal time in the order of the walk.
pub fn order_history(walk: Vec<CommitEntry>) -> (out: Vec<CommitEntry>)
    ensures
        is_history_of(walk@, out@),
        ids_distinct(out@),
        forall|id: Seq<char>| #[trigger] has_id(out@, id) == has_id(walk@, id),
{
    let ghost w = walk@;
    let mut rest = walk;
    let mut out: Vec<CommitEntry> = Vec::new();
    let ghost mut i: int = 0;
    proof {
        assert(w.take(0) =~= Seq::<CommitEntry>::empty());
        assert(rest@ =~= w.skip(0));
    }
    while rest.len() > 0
        invariant
            0 <= i <= w.len(),
            rest@ =~= w.skip(i),
            newest_first(out@),
            ids_distinct(out@),
            forall|t: i64| with_time(out@, t) == with_time(first_occurrences(w.take(i)), t),
            forall|id: Seq<char>| #[trigger] has_id(out@, id) == has_id(w.take(i), id),
        decreases rest.len(),
    {
        let x = rest.remove(0);
        let ghost s1 = w.take(i + 1);
        let ghost old_out = out@;
        proof {
            assert(x == w[i]);
            assert(s1 =~= w.take(i).push(x));
            assert(s1.drop_last() =~= w.take(i));
            assert forall|id: Seq<char>| #[trigger] has_id(s1, id) == has_id(old_out.push(x), id) by {
                lemma_has_id_push(w.take(i), x, id);
                lemma_has_id_push(old_out, x, id);
            }
            if has_id(w.take(i), x.id@) {
                let j = choose|j: int| 0 <= j < w.take(i).len() && w.take(i)[j].id@ == x.id@;
                assert(s1[j] == w.take(i)[j]);
                assert(id_seen_before(s1, s1.len() - 1));
            } else {
                assert forall|j: int| 0 <= j < s1.len() - 1 implies #[trigger] s1[j].id@ != s1[s1.len() - 1].id@ by {
                    assert(s1[j] == w.take(i)[j]);
                }
                assert(!id_seen_before(s1, s1.len() - 1));
            }
        }
        if !contains_id(&out, &x.id) {
            insert_by_time(&mut out, x);
            proof {
                assert forall|t: i64| with_time(out@, t) == with_time(first_occurrences(s1), t) by {
                    lemma_with_time_push(old_out, x, t);
                    lemma_with_time_push(first_occurrences(w.take(i)), x, t);
                }
            }
        } else {
            proof {
                assert forall|id: Seq<char>| #[trigger] has_id(s1, id) == has_id(out@, id) by {
                    lemma_has_id_push(old_out, x, id);
                }
            }
        }
        proof {
            i = i + 1;
            assert(rest@ =~= w.skip(i));
        }
    }
    proof {
        assert(w.take(i) =~= w);
    }
    out
}

/// Some commit of `raw` has a message that cannot be read as text.
pub open spec fn message_unreadable(raw: Seq<RawCommit>) -> bool {
    exists|i: int| 0 <= i < raw.len() && (#[trigger] raw[i]).message is None
}

/// The entry of a commit whose message is readable.
pub open spec fn entry_of(r: RawCommit) -> CommitEntry {
    CommitEntry { id: r.id, message: r.message->Some_0, author: r.author, time: r.time }
}

pub open spec fn entries_of(raw: Seq<RawCommit>) -> Seq<CommitEntry> {
    raw.map_values(|r: RawCommit| entry_of(r))
}

/// `c` reports the id, message and author of `e`.
pub open spec fn record_of(c: BranchCommit, e: CommitEntry) -> bool {
    c.id == e.id && c.message == e.message && c.author == e.author
}

/// `v` is what callers are told of the walk `raw`, whose messages are all
/// readable: the records of its history, in the order of the history.
pub open spec fn reports_history(raw: Seq<RawCommit>, v: Seq<BranchCommit>) -> bool {
    &&& !message_unreadable(raw)
    &&& exists|o: Seq<CommitEntry>|
        {
            &&& is_history_of(entries_of(raw), o)
            &&& ids_distinct(o)
            &&& forall|id: Seq<char>| #[trigger] has_id(o, id) == has_id(entries_of(raw), id)
            &&& v.len() == o.len()
            &&& forall|k: int| 0 <= k < o.len() ==> record_of(#[trigger] v[k], o[k])
        }
}

/// Checks every message, in the order of the walk.
fn entries_from(raw: Vec<RawCommit>) -> (r: Result<Vec<CommitEntry>, RepoError>)
    ensures
        r.is_err() == message_unreadable(raw@),
        r matches Err(e) ==> e is CommitData,
        r matches Ok(v) ==> v@ == entries_of(raw@),
{
    let ghost w = raw@;
    let mut rest = raw;
    let mut out: Vec<CommitEntry> = Vec::new();
    proof {
        assert(rest@ =~= w.skip(0));
    }
    while rest.len() > 0
        invariant
            w == raw@,
            out@.len() <= w.len(),
            rest@ =~= w.skip(out@.len() as int),
            forall|k: int| 0 <= k < out@.len() ==> w[k].message is Some,
            out@ =~= entries_of(w.take(out@.len() as int)),
        decreases rest.len(),
    {
        let ghost i = out@.len() as int;
        let c = rest.remove(0);
        proof {
            assert(c == w[i]);
        }
        match c.message {
            Some(m) => {
                out.push(CommitEntry { id: c.id, message: m, author: c.author, time: c.time });
                proof {
                    assert(w.take(i + 1) =~= w.take(i).push(c));
                    assert(entries_of(w.take(i + 1)) =~= entries_of(w.take(i)).push(entry_of(c)));
                    assert(rest@ =~= w.skip(i + 1));
                }
            },
            None => {
                proof {
                    assert(w[i].message is None);
                }
                return Err(RepoError::CommitData);
            },
        }
    }
    proof {
        assert(w.take(out@.len() as int) =~= w);
    }
    Ok(out)
}

/// The records reported to callers, one per entry and in the same order.
fn records_of(entries: Vec<CommitEntry>) -> (r: Vec<BranchCommit>)
    ensures
        r@.len() == entries@.len(),
        forall|k: int| 0 <= k < r@.len() ==> record_of(#[trigger] r@[k], entries@[k]),
{
    let ghost e = entries@;
    let mut rest = entries;
    let mut out: Vec<BranchCommit> = Vec::new();
    proof {
        assert(rest@ =~= e.skip(0));
    }
    while rest.len() > 0
        invariant
            out@.len() <= e.len(),
            rest@ =~= e.skip(out@.len() as int),
            forall|k: int| 0 <= k < out@.len() ==> record_of(#[trigger] out@[k], e[k]),
        decreases rest.len(),
    {
        let ghost i = out@.len() as int;
        let c = rest.remove(0);
        proof {
            assert(c == e[i]);
        }
        out.push(BranchCommit { id: c.id, message: c.message, author: c.author });
        proof {
            assert(rest@ =~= e.skip(i + 1));
        }
    }
    out
}

/// The history reported for a walk: fails with `CommitData` exactly when a
/// message cannot be read; otherwise one record per distinct id, newest
/// first, equal times in the order of the walk.
pub fn history_from(raw: Vec<RawCommit>) -> (r: Result<Vec<BranchCommit>, RepoError>)
    ensures
        r.is_err() == message_unreadable(raw@),
        r matches Err(e) ==> e is CommitData,
        r matches Ok(v) ==> reports_history(raw@, v@),
{
    let entries = entries_from(raw)?;
    let ordered = order_history(entries);
    let records = records_of(ordered);
    Ok(records)
}

/// A reported history is empty exactly when the walk visited no commit.
pub proof fn lemma_history_empty_iff_walk_empty(raw: Seq<RawCommit>, v: Seq<BranchCommit>)
    requires
        reports_history(raw, v),
    ensures
        (v.len() == 0) == (raw.len() == 0),
{
    let o = choose|o: Seq<CommitEntry>|
        {
            &&& is_history_of(entries_of(raw), o)
            &&& ids_distinct(o)
            &&& forall|id: Seq<char>| #[trigger] has_id(o, id) == has_id(entries_of(raw), id)
            &&& v.len() == o.len()
            &&& forall|k: int| 0 <= k < o.len() ==> record_of(#[trigger] v[k], o[k])
        };
    let e = entries_of(raw);
    if raw.len() > 0 {
        assert(has_id(e, e[0].id@));
        assert(has_id(o, e[0].id@));
    }
    if o.len() > 0 {
        assert(has_id(o, o[0].id@));
        assert(has_id(e, o[0].id@));
    }
}

/// No commit is reported twice: ids in a reported history are distinct.
pub proof fn lemma_history_ids_distinct(raw: Seq<RawCommit>, v: Seq<BranchCommit>)
    requires
        reports_history(raw, v),
    ensures
        forall|a: int, b: int| 0 <= a < b < v.len() ==> (#[trigger] v[a]).id@ != (#[trigger] v[b]).id@,
{
    let o = choose|o: Seq<CommitEntry>|
        {
            &&& is_history_of(entries_of(raw), o)
            &&& ids_distinct(o)
            &&& forall|id: Seq<char>| #[trigger] has_id(o, id) == has_id(entries_of(raw), id)
            &&& v.len() == o.len()
            &&& forall|k: int| 0 <= k < o.len() ==> record_of(#[trigger] v[k], o[k])
        };
    assert forall|a: int, b: int| 0 <= a < b < v.len() implies (#[trigger] v[a]).id@ != (
    #[trigger] v[b]).id@ by {
        assert(record_of(v[a], o[a]));
        assert(record_of(v[b], o[b]));
    }
}

/// Every commit that the walk visited is reported, exactly once.
pub proof fn lemma_history_reports_each_commit_once(
    raw: Seq<RawCommit>,
    v: Seq<BranchCommit>,
    j: int,
)
    requires
        reports_history(raw, v),
        0 <= j < raw.len(),
    ensures
        exists|k: int| 0 <= k < v.len() && (#[trigger] v[k]).id@ == raw[j].id@,
        forall|a: int, b: int|
            0 <= a < v.len() && 0 <= b < v.len() && (#[trigger] v[a]).id@ == raw[j].id@ && (
            #[trigger] v[b]).id@ == raw[j].id@ ==> a == b,
{
    let o = choose|o: Seq<CommitEntry>|
        {
            &&& is_history_of(entries_of(raw), o)
            &&& ids_distinct(o)
            &&& forall|id: Seq<char>| #[trigger] has_id(o, id) == has_id(entries_of(raw), id)
            &&& v.len() == o.len()
            &&& forall|k: int| 0 <= k < o.len() ==> record_of(#[trigger] v[k], o[k])
        };
    let e = entries_of(raw);
    assert(e[j].id == raw[j].id);
    assert(has_id(e, raw[j].id@));
    assert(has_id(o, raw[j].id@));
    let k = choose|k: int| 0 <= k < o.len() && o[k].id@ == raw[j].id@;
    assert(record_of(v[k], o[k]));
    lemma_history_ids_distinct(raw, v);
}

proof fn lemma_with_time_witness(s: Seq<CommitEntry>, t: i64)
    requires
        with_time(s, t).len() > 0,
    ensures
        exists|k: int| 0 <= k < s.len() && s[k].time == t,
    decreases s.len(),
{
    if s.last().time != t {
        lemma_with_time_witness(s.drop_last(), t);
        let k = choose|k: int| 0 <= k < s.drop_last().len() && s.drop_last()[k].time == t;
        assert(s[k] == s.drop_last()[k]);
    }
}

/// Sequences sorted newest first with the same entries at each time are
/// equal.
proof fn lemma_history_order_unique(o1: Seq<CommitEntry>, o2: Seq<CommitEntry>)
    requires
        newest_first(o1),
        newest_first(o2),
        forall|t: i64| with_time(o1, t) == with_time(o2, t),
    ensures
        o1 == o2,
    decreases o1.len() + o2.len(),
{
    if o1.len() == 0 && o2.len() == 0 {
        assert(o1 =~= o2);
    } else if o1.len() == 0 {
        assert(with_time(o2, o2.last().time).len() > 0);
        assert(with_time(o1, o2.last().time).len() == 0);
    } else if o2.len() == 0 {
        assert(with_time(o1, o1.last().time).len() > 0);
        assert(with_time(o2, o1.last().time).len() == 0);
    } else {
        let x = o1.last();
        let y = o2.last();
        assert(with_time(o1, x.time).len() > 0);
        lemma_with_time_witness(o2, x.time);
        let k2 = choose|k: int| 0 <= k < o2.len() && o2[k].time == x.time;
        if k2 < o2.len() - 1 {
            assert(o2[k2].time >= o2[o2.len() - 1].time);
        }
        assert(with_time(o2, y.time).len() > 0);
        lemma_with_time_witness(o1, y.time);
        let k1 = choose|k: int| 0 <= k < o1.len() && o1[k].time == y.time;
        if k1 < o1.len() - 1 {
            assert(o1[k1].time >= o1[o1.len() - 1].time);
        }
        assert(x.time == y.time);
        assert(x == with_time(o1, x.time).last());
        assert(y == with_time(o2, x.time).last());
        assert forall|t: i64| with_time(o1.drop_last(), t) == with_time(o2.drop_last(), t) by {
            if t == x.time {
                assert(with_time(o1.drop_last(), t) =~= with_time(o1, t).drop_last());
                assert(with_time(o2.drop_last(), t) =~= with_time(o2, t).drop_last());
            }
        }
        lemma_history_order_unique(o1.drop_last(), o2.drop_last());
        assert(o1 =~= o2.drop_last().push(y));
        assert(o2 =~= o2.drop_last().push(y));
    }
}

/// The reported history depends on the walk alone: two histories reported
/// for the same walk are equal, so an unchanged repository reports the same
/// history each time.
pub proof fn lemma_history_determined(raw: Seq<RawCommit>, v1: Seq<BranchCommit>, v2: Seq<BranchCommit>)
    requires
        reports_history(raw, v1),
        reports_history(raw, v2),
    ensures
        v1 == v2,
{
    let o1 = choose|o: Seq<CommitEntry>|
        {
            &&& is_history_of(entries_of(raw), o)
            &&& ids_distinct(o)
            &&& forall|id: Seq<char>| #[trigger] has_id(o, id) == has_id(entries_of(raw), id)
            &&& v1.len() == o.len()
            &&& forall|k: int| 0 <= k < o.len() ==> record_of(#[trigger] v1[k], o[k])
        };
    let o2 = choose|o: Seq<CommitEntry>|
        {
            &&& is_history_of(entries_of(raw), o)
            &&& ids_distinct(o)
            &&& forall|id: Seq<char>| #[trigger] has_id(o, id) == has_id(entries_of(raw), id)
            &&& v2.len() == o.len()
            &&& forall|k: int| 0 <= k < o.len() ==> record_of(#[trigger] v2[k], o[k])
        };
    assert forall|t: i64| with_time(o1, t) == with_time(o2, t) by {
        assert(with_time(o1, t) == with_time(first_occurrences(entries_of(raw)), t));
        assert(with_time(o2, t) == with_time(first_occurrences(entries_of(raw)), t));
    }
    lemma_history_order_unique(o1, o2);
    assert forall|k: int| 0 <= k < v1.len() implies v1[k] == v2[k] by {
        assert(record_of(v1[k], o1[k]));
        assert(record_of(v2[k], o2[k]));
    }
    assert(v1 =~= v2);
}

} // verus!
