use vstd::prelude::*;

use crate::error::Error;

verus! {

/// What a time entry marks: the opening or the closing of a session.
/// Any other marker read from the store is kept verbatim and ignored by the
/// derived computations.
#[derive(Clone, Debug)]
pub enum EntryType {
    Start,
    End,
    Other(String),
}

/// One timestamped marker of a project's history.
#[derive(Clone, Debug)]
pub struct TimeEntry {
    /// Unix seconds.
    pub timestamp: i64,
    pub entry_type: EntryType,
    pub description: Option<String>,
}

/// The three kinds of marker, without the text of unknown ones.
#[derive(Clone, Copy, Debug, PartialEq, Eq, Structural)]
pub enum MarkKind {
    Start,
    End,
    Other,
}

/// What the derived computations read of an entry.
#[derive(Clone, Copy, Debug)]
pub struct Mark {
    pub timestamp: i64,
    pub kind: MarkKind,
}

pub open spec fn kind_of(t: EntryType) -> MarkKind {
    match t {
        EntryType::Start => MarkKind::Start,
        EntryType::End => MarkKind::End,
        EntryType::Other(_) => MarkKind::Other,
    }
}

pub open spec fn mark_of(e: TimeEntry) -> Mark {
    Mark { timestamp: e.timestamp, kind: kind_of(e.entry_type) }
}

pub open spec fn marks_of(s: Seq<TimeEntry>) -> Seq<Mark> {
    s.map_values(|e: TimeEntry| mark_of(e))
}

/// Timestamps never decrease along `s`.
pub open spec fn ascending(s: Seq<Mark>) -> bool {
    forall|i: int, j: int| 0 <= i < j < s.len() ==> s[i].timestamp <= s[j].timestamp
}

/// `s` with `m` placed after every mark whose timestamp is not later than its
/// own: inserting into an ascending sequence this way keeps equal timestamps
/// in the order in which they arrived.
pub open spec fn insert_by_time(s: Seq<Mark>, m: Mark) -> Seq<Mark>
    decreases s.len(),
{
    if s.len() == 0 {
        seq![m]
    } else if s.last().timestamp <= m.timestamp {
        s.push(m)
    } else {
        insert_by_time(s.drop_last(), m).push(s.last())
    }
}

/// The stable ordering of `s` by ascending timestamp.
pub open spec fn sort_by_time(s: Seq<Mark>) -> Seq<Mark>
    decreases s.len(),
{
    if s.len() == 0 {
        s
    } else {
        insert_by_time(sort_by_time(s.drop_last()), s.last())
    }
}

/// Running total of closed sessions and the pending start, after reading `s`
/// from left to right. A start replaces any pending start; an end closes the
/// pending start, if any; other marks change nothing.
pub open spec fn scan(s: Seq<Mark>) -> (int, Option<i64>)
    decreases s.len(),
{
    if s.len() == 0 {
        (0, None)
    } else {
        let (total, pending) = scan(s.drop_last());
        let m = s.last();
        match m.kind {
            MarkKind::Start => (total, Some(m.timestamp)),
            MarkKind::End => match pending {
                Some(start) => (total + (m.timestamp - start), None),
                None => (total, None),
            },
            MarkKind::Other => (total, pending),
        }
    }
}

/// Seconds covered by the closed sessions of `entries`, taken in time order.
pub open spec fn elapsed(entries: Seq<TimeEntry>) -> int {
    scan(sort_by_time(marks_of(entries))).0
}

/// The latest entry of `entries` (the last one among equal timestamps) is a start.
pub open spec fn running(entries: Seq<TimeEntry>) -> bool {
    entries.len() > 0 && sort_by_time(marks_of(entries)).last().kind == MarkKind::Start
}

/// No two timestamps of `entries` are further apart than an `i64` can hold.
pub open spec fn span_fits(entries: Seq<TimeEntry>) -> bool {
    forall|i: int, j: int|
        0 <= i < entries.len() && 0 <= j < entries.len() ==> #[trigger] entries[i].timestamp
            - #[trigger] entries[j].timestamp <= i64::MAX
}

proof fn lemma_insert_at(s: Seq<Mark>, m: Mark, pos: int)
    requires
        0 <= pos <= s.len(),
        forall|k: int| pos <= k < s.len() ==> s[k].timestamp > m.timestamp,
        pos == 0 || s[pos - 1].timestamp <= m.timestamp,
    ensures
        insert_by_time(s, m) == s.insert(pos, m),
    decreases s.len(),
{
    if s.len() == 0 {
        assert(s.insert(pos, m) =~= seq![m]);
    } else if s.last().timestamp <= m.timestamp {
        assert(s.insert(pos, m) =~= s.push(m));
    } else {
        lemma_insert_at(s.drop_last(), m, pos);
        assert(s.drop_last().insert(pos, m).push(s.last()) =~= s.insert(pos, m));
    }
}

proof fn lemma_insert_facts(s: Seq<Mark>, m: Mark)
    ensures
        insert_by_time(s, m).len() == s.len() + 1,
        ascending(s) ==> ascending(insert_by_time(s, m)),
        forall|x: Mark| #[trigger] insert_by_time(s, m).contains(x) ==> s.contains(x) || x == m,
        insert_by_time(s, m).to_multiset() == s.to_multiset().insert(m),
    decreases s.len(),
{
    broadcast use vstd::seq_lib::group_to_multiset_ensures;
    if s.len() == 0 {
        assert(seq![m] =~= Seq::<Mark>::empty().push(m));
    } else if s.last().timestamp <= m.timestamp {
    } else {
        let r = insert_by_time(s.drop_last(), m);
        lemma_insert_facts(s.drop_last(), m);
        assert(s.drop_last().push(s.last()) =~= s);
        assert forall|x: Mark| #[trigger] r.push(s.last()).contains(x) implies s.contains(x)
            || x == m by {
            if r.contains(x) {
                if s.drop_last().contains(x) {
                    let k = choose|k: int| 0 <= k < s.drop_last().len() && s.drop_last()[k] == x;
                    assert(s[k] == x);
                }
            } else {
                assert(x == s.last());
                assert(s[s.len() - 1] == x);
            }
        }
        if ascending(s) {
            assert forall|i: int, j: int|
                0 <= i < j < r.push(s.last()).len() implies r.push(s.last())[i].timestamp
                <= r.push(s.last())[j].timestamp by {
                if j == r.len() {
                    let x = r[i];
                    assert(r.contains(x));
                    if s.drop_last().contains(x) {
                        let k = choose|k: int| 0 <= k < s.drop_last().len() && s.drop_last()[k] == x;
                        assert(s[k] == x);
                    }
                }
            }
        }
    }
}

proof fn lemma_sort_facts(s: Seq<Mark>)
    ensures
        sort_by_time(s).len() == s.len(),
        ascending(sort_by_time(s)),
        forall|x: Mark| #[trigger] sort_by_time(s).contains(x) ==> s.contains(x),
        sort_by_time(s).to_multiset() == s.to_multiset(),
    decreases s.len(),
{
    broadcast use vstd::seq_lib::group_to_multiset_ensures;
    if s.len() > 0 {
        let t = sort_by_time(s.drop_last());
        lemma_sort_facts(s.drop_last());
        lemma_insert_facts(t, s.last());
        assert(s.drop_last().push(s.last()) =~= s);
        assert forall|x: Mark| #[trigger] sort_by_time(s).contains(x) implies s.contains(x) by {
            if t.contains(x) {
                let k = choose|k: int| 0 <= k < s.drop_last().len() && s.drop_last()[k] == x;
                assert(s[k] == x);
            } else {
                assert(s[s.len() - 1] == x);
            }
        }
    }
}

/// An ascending sequence is its own stable ordering.
proof fn lemma_sort_ascending(s: Seq<Mark>)
    requires
        ascending(s),
    ensures
        sort_by_time(s) == s,
    decreases s.len(),
{
    if s.len() > 0 {
        lemma_sort_ascending(s.drop_last());
        assert(s.drop_last().push(s.last()) =~= s);
    }
}

/// For entries already in time order, the project is running exactly when the
/// last entry is a start; no entries means not running.
pub proof fn lemma_running_in_order(entries: Seq<TimeEntry>)
    requires
        ascending(marks_of(entries)),
    ensures
        running(entries) == (entries.len() > 0 && entries.last().entry_type is Start),
{
    lemma_sort_ascending(marks_of(entries));
    if entries.len() > 0 {
        assert(marks_of(entries).last() == mark_of(entries.last()));
    }
}

/// A start that is not earlier than any other entry is an open session: adding
/// it leaves the total unchanged.
pub proof fn lemma_open_start_ignored(entries: Seq<TimeEntry>, e: TimeEntry)
    requires
        e.entry_type is Start,
        forall|i: int| 0 <= i < entries.len() ==> #[trigger] entries[i].timestamp <= e.timestamp,
    ensures
        elapsed(entries.push(e)) == elapsed(entries),
{
    let m = marks_of(entries);
    let t = sort_by_time(m);
    assert(marks_of(entries.push(e)).drop_last() =~= m);
    lemma_sort_facts(m);
    if t.len() > 0 {
        assert(t.contains(t.last()));
        let k = choose|k: int| 0 <= k < m.len() && m[k] == t.last();
        assert(entries[k].timestamp <= e.timestamp);
    }
    assert(insert_by_time(t, mark_of(e)) == t.push(mark_of(e)));
    assert(t.push(mark_of(e)).drop_last() =~= t);
}

/// No two marks of `s` share a timestamp.
pub open spec fn distinct_times(s: Seq<Mark>) -> bool {
    forall|i: int, j: int|
        0 <= i < s.len() && 0 <= j < s.len() && i != j ==> s[i].timestamp != s[j].timestamp
}

proof fn lemma_insert_distinct(s: Seq<Mark>, m: Mark)
    requires
        distinct_times(s),
        forall|k: int| 0 <= k < s.len() ==> #[trigger] s[k].timestamp != m.timestamp,
    ensures
        distinct_times(insert_by_time(s, m)),
    decreases s.len(),
{
    if s.len() > 0 && s.last().timestamp > m.timestamp {
        let r = insert_by_time(s.drop_last(), m);
        lemma_insert_distinct(s.drop_last(), m);
        lemma_insert_facts(s.drop_last(), m);
        assert forall|i: int| 0 <= i < r.len() implies #[trigger] r[i].timestamp
            != s.last().timestamp by {
            let x = r[i];
            assert(r.contains(x));
            if s.drop_last().contains(x) {
                let k = choose|k: int| 0 <= k < s.drop_last().len() && s.drop_last()[k] == x;
                assert(s[k] == x);
                assert(s[s.len() - 1] == s.last());
            }
        }
    }
}

proof fn lemma_sort_distinct(s: Seq<Mark>)
    requires
        distinct_times(s),
    ensures
        distinct_times(sort_by_time(s)),
    decreases s.len(),
{
    if s.len() > 0 {
        let t = sort_by_time(s.drop_last());
        lemma_sort_distinct(s.drop_last());
        lemma_sort_facts(s.drop_last());
        assert forall|k: int| 0 <= k < t.len() implies #[trigger] t[k].timestamp
            != s.last().timestamp by {
            assert(t.contains(t[k]));
            let j = choose|j: int| 0 <= j < s.drop_last().len() && s.drop_last()[j] == t[k];
            assert(s[j] == t[k]);
        }
        lemma_insert_distinct(t, s.last());
    }
}

/// Two ascending sequences of the same marks, with no shared timestamps, are
/// the same sequence.
proof fn lemma_ordered_unique(a: Seq<Mark>, b: Seq<Mark>)
    requires
        ascending(a),
        ascending(b),
        distinct_times(a),
        distinct_times(b),
        a.to_multiset() == b.to_multiset(),
    ensures
        a == b,
    decreases a.len(),
{
    broadcast use vstd::seq_lib::group_to_multiset_ensures;
    assert(a.len() == a.to_multiset().len());
    assert(b.len() == b.to_multiset().len());
    if a.len() > 0 {
        let x = a.last();
        let y = b.last();
        assert(a.to_multiset().count(x) > 0) by {
            assert(a.contains(x)) by {
                assert(a[a.len() - 1] == x);
            }
        }
        assert(b.to_multiset().count(y) > 0) by {
            assert(b.contains(y)) by {
                assert(b[b.len() - 1] == y);
            }
        }
        assert(b.contains(x));
        assert(a.contains(y));
        let k = choose|k: int| 0 <= k < a.len() && a[k] == y;
        let l = choose|l: int| 0 <= l < b.len() && b[l] == x;
        assert(y.timestamp <= x.timestamp);
        assert(x.timestamp <= y.timestamp);
        assert(k == a.len() - 1);
        assert(x == y);
        let a0 = a.drop_last();
        let b0 = b.drop_last();
        assert(a0.push(x) =~= a);
        assert(b0.push(x) =~= b);
        assert(a0.to_multiset() =~= b0.to_multiset()) by {
            assert forall|v: Mark| #[trigger] a0.to_multiset().count(v) == b0.to_multiset().count(v) by {
                assert(a0.push(x).to_multiset().count(v) == b0.push(x).to_multiset().count(v));
            }
        }
        lemma_ordered_unique(a0, b0);
        assert(a == b);
    } else {
        assert(a =~= b);
    }
}

/// The total does not depend on the order in which the entries come, as long
/// as no two of them share a timestamp: `b` holds the same marks as `a`.
pub proof fn lemma_elapsed_order_free(a: Seq<TimeEntry>, b: Seq<TimeEntry>)
    requires
        marks_of(a).to_multiset() == marks_of(b).to_multiset(),
        distinct_times(marks_of(a)),
        distinct_times(marks_of(b)),
    ensures
        elapsed(a) == elapsed(b),
{
    lemma_sort_facts(marks_of(a));
    lemma_sort_facts(marks_of(b));
    lemma_sort_distinct(marks_of(a));
    lemma_sort_distinct(marks_of(b));
    lemma_ordered_unique(sort_by_time(marks_of(a)), sort_by_time(marks_of(b)));
}

/// `t` is the latest timestamp of a start in `s`.
pub open spec fn is_latest_start(s: Seq<TimeEntry>, t: i64) -> bool {
    (exists|i: int| 0 <= i < s.len() && s[i].entry_type is Start && s[i].timestamp == t)
        && forall|i: int| 0 <= i < s.len() && s[i].entry_type is Start ==> s[i].timestamp <= t
}

/// The timestamp of the latest start, if there is a start at all.
pub fn latest_start(entries: &Vec<TimeEntry>) -> (r: Option<i64>)
    ensures
        match r {
            Some(t) => is_latest_start(entries@, t),
            None => forall|i: int| 0 <= i < entries@.len() ==> !(entries@[i].entry_type is Start),
        },
{
    let mut best: Option<i64> = None;
    let mut i: usize = 0;
    while i < entries.len()
        invariant
            i <= entries.len(),
            match best {
                Some(t) => is_latest_start(entries@.take(i as int), t),
                None => forall|j: int| 0 <= j < i ==> !(entries@[j].entry_type is Start),
            },
        decreases entries.len() - i,
    {
        let e = &entries[i];
        proof {
            assert(entries@.take(i + 1).drop_last() =~= entries@.take(i as int));
        }
        match e.entry_type {
            EntryType::Start => {
                let take = match best {
                    Some(t) => e.timestamp >= t,
                    None => true,
                };
                if take {
                    best = Some(e.timestamp);
                }
                proof {
                    let t2 = best->Some_0;
                    let s2 = entries@.take(i + 1);
                    assert(s2[i as int] == entries@[i as int]);
                    if !take {
                        let j = choose|j: int|
                            0 <= j < i && entries@.take(i as int)[j].entry_type is Start
                                && entries@.take(i as int)[j].timestamp == t2;
                        assert(s2[j] == entries@.take(i as int)[j]);
                    }
                    assert forall|j: int| 0 <= j < s2.len() && s2[j].entry_type is Start implies s2[j].timestamp
                        <= t2 by {
                        if j < i {
                            assert(s2[j] == entries@.take(i as int)[j]);
                        }
                    }
                }
            },
            _ => {
                proof {
                    let s2 = entries@.take(i + 1);
                    if best is Some {
                        let t2 = best->Some_0;
                        let j = choose|j: int|
                            0 <= j < i && entries@.take(i as int)[j].entry_type is Start
                                && entries@.take(i as int)[j].timestamp == t2;
                        assert(s2[j] == entries@.take(i as int)[j]);
                        assert forall|j: int|
                            0 <= j < s2.len() && s2[j].entry_type is Start implies s2[j].timestamp
                            <= t2 by {
                            if j < i {
                                assert(s2[j] == entries@.take(i as int)[j]);
                            }
                        }
                    }
                }
            },
        }
        i = i + 1;
    }
    proof {
        assert(entries@.take(i as int) =~= entries@);
    }
    best
}

/// `order` (positions of `s`) with `k` placed after every position whose entry
/// is not older than entry `k`: newest first, equal timestamps in list order.
pub open spec fn insert_newest(s: Seq<TimeEntry>, order: Seq<usize>, k: usize) -> Seq<usize>
    decreases order.len(),
{
    if order.len() == 0 {
        seq![k]
    } else if s[order.last() as int].timestamp >= s[k as int].timestamp {
        order.push(k)
    } else {
        insert_newest(s, order.drop_last(), k).push(order.last())
    }
}

/// The first `n` positions of `s`, newest entry first, equal timestamps in
/// list order.
pub open spec fn newest_first(s: Seq<TimeEntry>, n: nat) -> Seq<usize>
    decreases n,
{
    if n == 0 {
        Seq::empty()
    } else {
        insert_newest(s, newest_first(s, (n - 1) as nat), (n - 1) as usize)
    }
}

proof fn lemma_insert_newest_at(s: Seq<TimeEntry>, order: Seq<usize>, k: usize, pos: int)
    requires
        0 <= pos <= order.len(),
        forall|j: int| pos <= j < order.len() ==> s[order[j] as int].timestamp < s[k as int].timestamp,
        pos == 0 || s[order[pos - 1] as int].timestamp >= s[k as int].timestamp,
    ensures
        insert_newest(s, order, k) == order.insert(pos, k),
    decreases order.len(),
{
    if order.len() == 0 {
        assert(order.insert(pos, k) =~= seq![k]);
    } else if s[order.last() as int].timestamp >= s[k as int].timestamp {
        assert(order.insert(pos, k) =~= order.push(k));
    } else {
        lemma_insert_newest_at(s, order.drop_last(), k, pos);
        assert(order.drop_last().insert(pos, k).push(order.last()) =~= order.insert(pos, k));
    }
}

proof fn lemma_insert_newest_bounds(s: Seq<TimeEntry>, order: Seq<usize>, k: usize, n: int)
    requires
        k < n,
        forall|j: int| 0 <= j < order.len() ==> order[j] < n,
    ensures
        forall|j: int| 0 <= j < insert_newest(s, order, k).len() ==> insert_newest(s, order, k)[j] < n,
    decreases order.len(),
{
    let r = insert_newest(s, order, k);
    if order.len() == 0 {
        assert(r[0] == k);
    } else if s[order.last() as int].timestamp >= s[k as int].timestamp {
        assert forall|j: int| 0 <= j < r.len() implies r[j] < n by {
            if j < order.len() {
                assert(r[j] == order[j]);
            }
        }
    } else {
        let inner = insert_newest(s, order.drop_last(), k);
        lemma_insert_newest_bounds(s, order.drop_last(), k, n);
        assert(order.last() == order[order.len() - 1]);
        assert forall|j: int| 0 <= j < r.len() implies r[j] < n by {
            if j < inner.len() {
                assert(r[j] == inner[j]);
            }
        }
    }
}

/// Positions of the `count` newest entries, newest first; among equal
/// timestamps the earlier entry comes first.
pub fn recent_positions(entries: &Vec<TimeEntry>, count: usize) -> (r: Vec<usize>)
    ensures
        r@ == newest_first(entries@, entries@.len()).take(
            if count < entries@.len() { count as int } else { entries@.len() as int },
        ),
{
    let mut out: Vec<usize> = Vec::new();
    let mut i: usize = 0;
    while i < entries.len()
        invariant
            i <= entries.len(),
            out@ == newest_first(entries@, i as nat),
            out@.len() == i,
            forall|j: int| 0 <= j < out@.len() ==> out@[j] < i,
        decreases entries.len() - i,
    {
        let t = entries[i].timestamp;
        let mut pos: usize = out.len();
        while pos > 0 && entries[out[pos - 1]].timestamp < t
            invariant
                pos <= out.len(),
                out@.len() == i,
                i < entries@.len(),
                forall|j: int| 0 <= j < out@.len() ==> out@[j] < i,
                forall|j: int| pos <= j < out@.len() ==> entries@[out@[j] as int].timestamp < t,
            decreases pos,
        {
            pos = pos - 1;
        }
        proof {
            lemma_insert_newest_at(entries@, out@, i, pos as int);
            lemma_insert_newest_bounds(entries@, out@, i, i + 1);
        }
        out.insert(pos, i);
        i = i + 1;
    }
    if count < out.len() {
        out.truncate(count);
    }
    assert(out@ =~= newest_first(entries@, entries@.len()).take(
        if count < entries@.len() { count as int } else { entries@.len() as int },
    ));
    out
}

impl EntryType {
    /// The marker that the store writes as `name`.
    pub fn from_name(name: String) -> (r: EntryType)
        ensures
            name@ == "start"@ ==> r is Start,
            name@ == "end"@ ==> r is End,
            name@ != "start"@ && name@ != "end"@ ==> r == EntryType::Other(name),
    {
        proof {
            reveal_strlit("start");
            reveal_strlit("end");
            assert("start"@.len() != "end"@.len());
        }
        if name == String::from_str("start") {
            EntryType::Start
        } else if name == String::from_str("end") {
            EntryType::End
        } else {
            EntryType::Other(name)
        }
    }

    /// The name under which the store keeps the marker.
    pub fn name(&self) -> (r: String)
        ensures
            match self {
                EntryType::Start => r@ == "start"@,
                EntryType::End => r@ == "end"@,
                EntryType::Other(s) => r@ == s@,
            },
    {
        match self {
            EntryType::Start => String::from_str("start"),
            EntryType::End => String::from_str("end"),
            EntryType::Other(s) => s.clone(),
        }
    }
}

impl TimeEntry {
    pub fn mark(&self) -> (r: Mark)
        ensures
            r == mark_of(*self),
    {
        let kind = match self.entry_type {
            EntryType::Start => MarkKind::Start,
            EntryType::End => MarkKind::End,
            EntryType::Other(_) => MarkKind::Other,
        };
        Mark { timestamp: self.timestamp, kind }
    }
}

/// The marks of `entries` in stable ascending order of timestamp.
pub fn sorted_marks(entries: &Vec<TimeEntry>) -> (r: Vec<Mark>)
    ensures
        r@ == sort_by_time(marks_of(entries@)),
{
    let mut out: Vec<Mark> = Vec::new();
    let mut i: usize = 0;
    while i < entries.len()
        invariant
            i <= entries.len(),
            out@ == sort_by_time(marks_of(entries@.take(i as int))),
        decreases entries.len() - i,
    {
        let m = entries[i].mark();
        proof {
            lemma_sort_facts(marks_of(entries@.take(i as int)));
        }
        let mut pos: usize = out.len();
        while pos > 0 && out[pos - 1].timestamp > m.timestamp
            invariant
                pos <= out.len(),
                forall|k: int| pos <= k < out.len() ==> out@[k].timestamp > m.timestamp,
            decreases pos,
        {
            pos = pos - 1;
        }
        proof {
            lemma_insert_at(out@, m, pos as int);
            let next = marks_of(entries@.take(i + 1));
            assert(next.drop_last() =~= marks_of(entries@.take(i as int)));
            assert(next.last() == m);
        }
        out.insert(pos, m);
        i = i + 1;
    }
    assert(entries@.take(i as int) =~= entries@);
    out
}

/// Whether the project is running: the latest entry, the last of equal
/// timestamps, is a start. No entries means not running.
pub fn is_running(entries: &Vec<TimeEntry>) -> (r: bool)
    ensures
        r == running(entries@),
{
    if entries.len() == 0 {
        return false;
    }
    let sorted = sorted_marks(entries);
    proof {
        lemma_sort_facts(marks_of(entries@));
    }
    let last = sorted[sorted.len() - 1];
    match last.kind {
        MarkKind::Start => true,
        _ => false,
    }
}

/// Seconds covered by closed sessions: the entries are taken in time order,
/// each end closes the pending start, a repeated start replaces the pending
/// one, and a start that nothing closes counts for nothing.
pub fn total_elapsed(entries: &Vec<TimeEntry>) -> (r: i64)
    requires
        span_fits(entries@),
    ensures
        r == elapsed(entries@),
{
    let sorted = sorted_marks(entries);
    let ghost marks = marks_of(entries@);
    proof {
        lemma_sort_facts(marks);
    }
    let mut total: i64 = 0;
    let mut pending: Option<i64> = None;
    let mut i: usize = 0;
    while i < sorted.len()
        invariant
            i <= sorted.len(),
            sorted@ == sort_by_time(marks),
            marks == marks_of(entries@),
            marks.len() == entries@.len(),
            ascending(sorted@),
            forall|x: Mark| #[trigger] sorted@.contains(x) ==> marks.contains(x),
            span_fits(entries@),
            scan(sorted@.take(i as int)) == (total as int, pending),
            0 <= total,
            i > 0 ==> total <= sorted@[i - 1].timestamp - sorted@[0].timestamp,
            pending matches Some(st) ==> i > 0 && st <= sorted@[i - 1].timestamp && total <= st
                - sorted@[0].timestamp && st >= sorted@[0].timestamp,
        decreases sorted.len() - i,
    {
        let m = sorted[i];
        proof {
            let s = sorted@.take(i + 1);
            assert(s.drop_last() =~= sorted@.take(i as int));
            assert(s.last() == m);
            assert(sorted@.contains(m));
            assert(sorted@.contains(sorted@[0]));
            let a = choose|k: int| 0 <= k < marks.len() && marks[k] == m;
            let b = choose|k: int| 0 <= k < marks.len() && marks[k] == sorted@[0];
            assert(entries@[a].timestamp - entries@[b].timestamp <= i64::MAX);
            assert(m.timestamp - sorted@[0].timestamp <= i64::MAX);
        }
        match m.kind {
            MarkKind::Start => {
                pending = Some(m.timestamp);
            },
            MarkKind::End => {
                match pending {
                    Some(start) => {
                        total = total + (m.timestamp - start);
                        pending = None;
                    },
                    None => {},
                }
            },
            MarkKind::Other => {},
        }
        i = i + 1;
    }
    assert(sorted@.take(i as int) =~= sorted@);
    total
}

/// Some entry of `s` is stamped `ts`.
pub open spec fn has_time(s: Seq<TimeEntry>, ts: i64) -> bool {
    exists|i: int| 0 <= i < s.len() && s[i].timestamp == ts
}

/// `i` is the first position of `s` stamped `ts`.
pub open spec fn first_at(s: Seq<TimeEntry>, ts: i64, i: int) -> bool {
    0 <= i < s.len() && s[i].timestamp == ts && forall|j: int| 0 <= j < i ==> s[j].timestamp != ts
}

/// `s` without the entries stamped `ts`, the others in their order.
pub open spec fn without_time(s: Seq<TimeEntry>, ts: i64) -> Seq<TimeEntry>
    decreases s.len(),
{
    if s.len() == 0 {
        s
    } else if s.last().timestamp == ts {
        without_time(s.drop_last(), ts)
    } else {
        without_time(s.drop_last(), ts).push(s.last())
    }
}

/// `e` with its description replaced.
pub open spec fn redescribed(e: TimeEntry, description: Option<String>) -> TimeEntry {
    TimeEntry { timestamp: e.timestamp, entry_type: e.entry_type, description }
}

/// The first position of `entries` stamped `timestamp`.
pub fn position_at(entries: &Vec<TimeEntry>, timestamp: i64) -> (r: Option<usize>)
    ensures
        match r {
            Some(i) => first_at(entries@, timestamp, i as int),
            None => !has_time(entries@, timestamp),
        },
{
    let mut i: usize = 0;
    while i < entries.len()
        invariant
            i <= entries.len(),
            forall|j: int| 0 <= j < i ==> entries@[j].timestamp != timestamp,
        decreases entries.len() - i,
    {
        if entries[i].timestamp == timestamp {
            return Some(i);
        }
        i = i + 1;
    }
    None
}

/// Removes every entry stamped `timestamp`; fails with `NotFound` when there is none.
pub fn remove_at_time(entries: Vec<TimeEntry>, timestamp: i64) -> (r: Result<Vec<TimeEntry>, Error>)
    ensures
        has_time(entries@, timestamp) <==> r is Ok,
        match r {
            Ok(v) => v@ == without_time(entries@, timestamp),
            Err(e) => e is NotFound,
        },
{
    let ghost orig = entries@;
    let mut rest = entries;
    let mut kept: Vec<TimeEntry> = Vec::new();
    let mut found = false;
    let mut k: usize = 0;
    let n = rest.len();
    assert(orig.skip(0) =~= orig);
    assert(orig.take(0) =~= Seq::<TimeEntry>::empty());
    while k < n
        invariant
            k <= n,
            n == orig.len(),
            rest@ == orig.skip(k as int),
            kept@ == without_time(orig.take(k as int), timestamp),
            found == has_time(orig.take(k as int), timestamp),
        decreases n - k,
    {
        let e = rest.remove(0);
        proof {
            let t = orig.take(k + 1);
            assert(t.drop_last() =~= orig.take(k as int));
            assert(t.last() == e);
            if has_time(t, timestamp) && !has_time(orig.take(k as int), timestamp) {
                let j = choose|j: int| 0 <= j < t.len() && t[j].timestamp == timestamp;
                assert(j == k);
            }
            if has_time(orig.take(k as int), timestamp) {
                let j = choose|j: int| 0 <= j < k && orig.take(k as int)[j].timestamp == timestamp;
                assert(t[j].timestamp == timestamp);
            }
            assert(rest@ =~= orig.skip(k + 1));
        }
        if e.timestamp == timestamp {
            found = true;
        } else {
            kept.push(e);
        }
        k = k + 1;
    }
    assert(orig.take(k as int) =~= orig);
    if found {
        Ok(kept)
    } else {
        Err(Error::NotFound)
    }
}

/// Replaces the description of the first entry stamped `timestamp`; fails
/// with `NotFound` when there is none.
pub fn redescribe_at_time(
    entries: Vec<TimeEntry>,
    timestamp: i64,
    description: Option<String>,
) -> (r: Result<Vec<TimeEntry>, Error>)
    ensures
        has_time(entries@, timestamp) <==> r is Ok,
        match r {
            Ok(v) => exists|i: int|
                first_at(entries@, timestamp, i) && v@ == entries@.update(
                    i,
                    redescribed(entries@[i], description),
                ),
            Err(e) => e is NotFound,
        },
{
    match position_at(&entries, timestamp) {
        Some(i) => {
            let mut v = entries;
            let old_entry = v.remove(i);
            let updated = TimeEntry {
                timestamp: old_entry.timestamp,
                entry_type: old_entry.entry_type,
                description,
            };
            v.insert(i, updated);
            proof {
                assert(v@ =~= entries@.update(i as int, redescribed(entries@[i as int], description)));
            }
            Ok(v)
        },
        None => Err(Error::NotFound),
    }
}

/// Appends `entry`; the flag says whether the list was empty before, in which
/// case the store must create the key rather than replace its value.
pub fn append_entry(entries: Vec<TimeEntry>, entry: TimeEntry) -> (r: (Vec<TimeEntry>, bool))
    ensures
        r.0@ == entries@.push(entry),
        r.1 == (entries@.len() == 0),
{
    let first = entries.len() == 0;
    let mut v = entries;
    v.push(entry);
    (v, first)
}

} // verus!
