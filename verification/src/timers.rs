//! The timer queue of the event loop: entries ordered by absolute fire time,
//! ties kept apart and ordered by the moment of enrolment.

use vstd::prelude::*;

verus! {

/// A scheduled unit of work.
#[derive(Clone, Copy, Debug, PartialEq, Eq, Structural)]
pub struct Timeout {
    /// Delay in milliseconds between enrolment and firing.
    pub delay: u64,
    /// Key of the completion in the async-handle table that firing delivers.
    pub handle: usize,
}

/// A timeout as the queue holds it.
#[derive(Clone, Copy, Debug, PartialEq, Eq, Structural)]
pub struct TimerEntry {
    /// Absolute fire time in milliseconds.
    pub fire_time: u64,
    /// Enrolment number: counts the enrolments since the queue was last
    /// empty, from 0. Of two pending entries the one enrolled first has the
    /// smaller number.
    pub seq: u64,
    /// The work to signal.
    pub timeout: Timeout,
}

/// The total order of the queue: by fire time, then by enrolment number.
pub open spec fn precedes(a: TimerEntry, b: TimerEntry) -> bool {
    a.fire_time < b.fire_time || (a.fire_time == b.fire_time && a.seq < b.seq)
}

/// Every entry precedes all entries behind it.
pub open spec fn ordered(s: Seq<TimerEntry>) -> bool {
    forall|i: int, j: int| 0 <= i < j < s.len() ==> precedes(#[trigger] s[i], #[trigger] s[j])
}

/// How many entries of `s` fire at `now` or earlier.
pub open spec fn due_count(s: Seq<TimerEntry>, now: u64) -> nat
    decreases s.len(),
{
    if s.len() == 0 {
        0
    } else {
        due_count(s.drop_last(), now) + if s.last().fire_time <= now {
            1nat
        } else {
            0nat
        }
    }
}

/// In an ordered queue the due entries are a prefix: an index that parts the
/// due from the pending is the number of due entries.
pub proof fn lemma_due_prefix(s: Seq<TimerEntry>, now: u64, k: int)
    requires
        0 <= k <= s.len(),
        forall|i: int| 0 <= i < k ==> (#[trigger] s[i]).fire_time <= now,
        forall|i: int| k <= i < s.len() ==> (#[trigger] s[i]).fire_time > now,
    ensures
        due_count(s, now) == k,
    decreases s.len(),
{
    if s.len() > 0 {
        let t = s.drop_last();
        if k == s.len() {
            lemma_due_prefix(t, now, k - 1);
        } else {
            lemma_due_prefix(t, now, k);
        }
    }
}

/// The queue `s` after the enrolment of a timeout that fires at `fire_time`
/// and carries the enrolment number `seq`.
pub open spec fn with_entry(s: Seq<TimerEntry>, fire_time: u64, seq: u64, timeout: Timeout) -> Seq<
    TimerEntry,
> {
    s.insert(due_count(s, fire_time) as int, TimerEntry { fire_time, seq, timeout })
}

/// The time-ordered queue of pending timeouts.
pub struct TimerQueue {
    entries: Vec<TimerEntry>,
    next_seq: u64,
}

impl TimerQueue {
    /// The pending entries, the first to fire first.
    pub closed spec fn view(&self) -> Seq<TimerEntry> {
        self.entries@
    }

    /// The enrolment counter: one more than the number of the entry that was
    /// enrolled last.
    pub closed spec fn enrolled(&self) -> u64 {
        self.next_seq
    }

    /// The enrolment number that the next entry gets: the counter, which
    /// starts again at 0 whenever the queue is empty.
    pub open spec fn next_number(&self) -> u64 {
        if self@.len() == 0 {
            0
        } else {
            self.enrolled()
        }
    }

    /// The queue is ordered and holds only enrolment numbers already handed out.
    pub open spec fn wf(&self) -> bool {
        &&& ordered(self@)
        &&& forall|i: int| 0 <= i < self@.len() ==> (#[trigger] self@[i]).seq < self.enrolled()
    }

    /// An empty queue.
    pub fn new() -> (q: TimerQueue)
        ensures
            q@ == Seq::<TimerEntry>::empty(),
            q.enrolled() == 0,
            q.wf(),
    {
        TimerQueue { entries: Vec::new(), next_seq: 0 }
    }

    /// Number of pending timeouts.
    pub fn len(&self) -> (n: usize)
        ensures
            n == self@.len(),
    {
        self.entries.len()
    }

    /// Whether no timeout is pending.
    pub fn is_empty(&self) -> (b: bool)
        ensures
            b == (self@.len() == 0),
    {
        self.entries.len() == 0
    }

    /// Whether another timeout with this delay can be enrolled at `now`: the
    /// fire time and the enrolment counter must both fit in 64 bits.
    pub fn can_enroll(&self, now: u64, timeout: &Timeout) -> (b: bool)
        ensures
            b == (now + timeout.delay <= u64::MAX && self.next_number() < u64::MAX),
    {
        timeout.delay <= u64::MAX - now && (self.entries.len() == 0 || self.next_seq < u64::MAX)
    }

    /// Index of the first entry that fires later than `t`.
    fn first_after(&self, t: u64) -> (k: usize)
        requires
            self.wf(),
        ensures
            k == due_count(self@, t),
            k <= self@.len(),
            forall|i: int| 0 <= i < k ==> (#[trigger] self@[i]).fire_time <= t,
            forall|i: int| k <= i < self@.len() ==> (#[trigger] self@[i]).fire_time > t,
    {
        let mut k: usize = 0;
        while k < self.entries.len() && self.entries[k].fire_time <= t
            invariant
                k <= self.entries@.len(),
                forall|i: int| 0 <= i < k ==> (#[trigger] self.entries@[i]).fire_time <= t,
            decreases self.entries@.len() - k,
        {
            k += 1;
        }
        proof {
            assert forall|i: int| k <= i < self@.len() implies (#[trigger] self@[i]).fire_time
                > t by {
                if i > k {
                    assert(precedes(self@[k as int], self@[i]));
                }
            }
            lemma_due_prefix(self@, t, k as int);
        }
        k
    }

    /// Enrols `timeout` at time `now`. Its entry fires at `now + delay`, carries
    /// the next enrolment number, and stands behind every entry that fires at
    /// that time or earlier: equal fire times stay apart, in enrolment order.
    pub fn enroll(&mut self, now: u64, timeout: Timeout)
        requires
            old(self).wf(),
            now + timeout.delay <= u64::MAX,
            old(self).next_number() < u64::MAX,
        ensures
            final(self).wf(),
            final(self).enrolled() == old(self).next_number() + 1,
            final(self)@.len() == old(self)@.len() + 1,
            final(self)@ == with_entry(
                old(self)@,
                (now + timeout.delay) as u64,
                old(self).next_number(),
                timeout,
            ),
    {
        if self.entries.len() == 0 {
            self.next_seq = 0;
        }
        let fire_time: u64 = now + timeout.delay;
        let entry = TimerEntry { fire_time, seq: self.next_seq, timeout };
        let k: usize = self.first_after(fire_time);
        let ghost before = self.entries@;
        self.entries.insert(k, entry);
        self.next_seq = self.next_seq + 1;
        proof {
            let after = self.entries@;
            assert forall|i: int, j: int| 0 <= i < j < after.len() implies precedes(
                #[trigger] after[i],
                #[trigger] after[j],
            ) by {
                if j < k {
                    assert(precedes(before[i], before[j]));
                } else if j == k {
                    assert(before[i].fire_time <= fire_time);
                    assert(before[i].seq < entry.seq);
                } else if i < k {
                    assert(precedes(before[i], before[j - 1]));
                } else if i == k {
                    assert(before[j - 1].fire_time > fire_time);
                } else {
                    assert(precedes(before[i - 1], before[j - 1]));
                }
            }
            assert forall|i: int| 0 <= i < after.len() implies (#[trigger] after[i]).seq
                < self.next_seq by {
                if i < k {
                    assert(before[i].seq < entry.seq);
                } else if i > k {
                    assert(before[i - 1].seq < entry.seq);
                }
            }
        }
    }

    /// One turn of the timer queue at time `now`: takes out every entry whose
    /// fire time is `now` or earlier and hands them back in firing order. What
    /// fires later stays, in place.
    pub fn take_due(&mut self, now: u64) -> (due: Vec<TimerEntry>)
        requires
            old(self).wf(),
        ensures
            final(self).wf(),
            final(self).enrolled() == old(self).enrolled(),
            due@ == old(self)@.take(due_count(old(self)@, now) as int),
            final(self)@ == old(self)@.skip(due_count(old(self)@, now) as int),
            ordered(due@),
            forall|i: int| 0 <= i < due@.len() ==> (#[trigger] due@[i]).fire_time <= now,
            forall|i: int|
                0 <= i < final(self)@.len() ==> (#[trigger] final(self)@[i]).fire_time > now,
    {
        let k: usize = self.first_after(now);
        let ghost before = self.entries@;
        let mut rest: Vec<TimerEntry> = self.entries.split_off(k);
        std::mem::swap(&mut self.entries, &mut rest);
        proof {
            assert(rest@ =~= before.take(k as int));
            assert(self.entries@ =~= before.skip(k as int));
            assert forall|i: int, j: int| 0 <= i < j < rest@.len() implies precedes(
                #[trigger] rest@[i],
                #[trigger] rest@[j],
            ) by {
                assert(precedes(before[i], before[j]));
            }
            assert forall|i: int, j: int| 0 <= i < j < self@.len() implies precedes(
                #[trigger] self@[i],
                #[trigger] self@[j],
            ) by {
                assert(precedes(before[i + k], before[j + k]));
            }
            assert forall|i: int| 0 <= i < self@.len() implies (#[trigger] self@[i]).seq
                < self.enrolled() by {
                assert(before[i + k].seq < self.enrolled());
            }
        }
        rest
    }
}

/// In an ordered queue the number of due entries parts the due from the
/// pending: everything before it is due, nothing from it on is.
pub proof fn lemma_due_split(s: Seq<TimerEntry>, now: u64)
    requires
        ordered(s),
    ensures
        due_count(s, now) <= s.len(),
        forall|i: int| 0 <= i < due_count(s, now) ==> (#[trigger] s[i]).fire_time <= now,
        forall|i: int| due_count(s, now) <= i < s.len() ==> (#[trigger] s[i]).fire_time > now,
    decreases s.len(),
{
    if s.len() > 0 {
        let t = s.drop_last();
        assert forall|i: int, j: int| 0 <= i < j < t.len() implies precedes(
            #[trigger] t[i],
            #[trigger] t[j],
        ) by {
            assert(precedes(s[i], s[j]));
        }
        lemma_due_split(t, now);
        if s.last().fire_time <= now {
            assert forall|i: int| 0 <= i < t.len() implies (#[trigger] t[i]).fire_time <= now by {
                assert(precedes(s[i], s[s.len() - 1]));
            }
            lemma_due_prefix(t, now, t.len() as int);
        }
        assert forall|i: int| 0 <= i < due_count(s, now) implies (#[trigger] s[i]).fire_time
            <= now by {
            if i < t.len() {
                assert(s[i] == t[i]);
            }
        }
        assert forall|i: int| due_count(s, now) <= i < s.len() implies (#[trigger] s[i]).fire_time
            > now by {
            if i < t.len() {
                assert(s[i] == t[i]);
            }
        }
    }
}

/// The firing order of two enrolments: of two timeouts enrolled one after the
/// other, the first stands before the second exactly if its fire time is not
/// the later one. With equal fire times the earlier enrolment fires first.
pub proof fn lemma_enrolment_order(
    s: Seq<TimerEntry>,
    n: u64,
    t1: u64,
    a: Timeout,
    t2: u64,
    b: Timeout,
)
    requires
        ordered(s),
        forall|i: int| 0 <= i < s.len() ==> (#[trigger] s[i]).seq < n,
        n < u64::MAX,
    ensures
        ({
            let both = with_entry(with_entry(s, t1, n, a), t2, (n + 1) as u64, b);
            let first = TimerEntry { fire_time: t1, seq: n, timeout: a };
            let second = TimerEntry { fire_time: t2, seq: (n + 1) as u64, timeout: b };
            exists|i: int, j: int|
                0 <= i < both.len() && 0 <= j < both.len() && both[i] == first && both[j] == second
                    && (i < j <==> t1 <= t2)
        }),
{
    let first = TimerEntry { fire_time: t1, seq: n, timeout: a };
    let second = TimerEntry { fire_time: t2, seq: (n + 1) as u64, timeout: b };
    lemma_due_split(s, t1);
    let at_first = due_count(s, t1) as int;
    let one = with_entry(s, t1, n, a);
    assert(one[at_first] == first);
    assert forall|i: int, j: int| 0 <= i < j < one.len() implies precedes(
        #[trigger] one[i],
        #[trigger] one[j],
    ) by {
        if j < at_first {
            assert(precedes(s[i], s[j]));
        } else if j == at_first {
            assert(s[i].fire_time <= t1 && s[i].seq < n);
        } else if i < at_first {
            assert(precedes(s[i], s[j - 1]));
        } else if i == at_first {
            assert(s[j - 1].fire_time > t1);
        } else {
            assert(precedes(s[i - 1], s[j - 1]));
        }
    }
    lemma_due_split(one, t2);
    let at_second = due_count(one, t2) as int;
    let both = with_entry(one, t2, (n + 1) as u64, b);
    assert(both[at_second] == second);
    if t1 <= t2 {
        if at_second <= at_first {
            assert(one[at_first].fire_time > t2);
        }
        assert(both[at_first] == first);
        assert(at_first < at_second);
    } else {
        if at_first < at_second {
            assert(one[at_first].fire_time <= t2);
        }
        assert(both[at_first + 1] == first);
        assert(!(at_first + 1 < at_second));
    }
}

/// Enrolment keeps the queue ordered and neither drops nor merges anything:
/// the queue after it holds the new entry and every entry it held before,
/// and nothing else.
pub proof fn lemma_enrolment_keeps_all(s: Seq<TimerEntry>, fire_time: u64, seq: u64, timeout: Timeout)
    requires
        ordered(s),
        forall|i: int| 0 <= i < s.len() ==> (#[trigger] s[i]).seq < seq,
    ensures
        ordered(with_entry(s, fire_time, seq, timeout)),
        with_entry(s, fire_time, seq, timeout).len() == s.len() + 1,
        with_entry(s, fire_time, seq, timeout).contains(TimerEntry { fire_time, seq, timeout }),
        forall|i: int|
            0 <= i < s.len() ==> with_entry(s, fire_time, seq, timeout).contains(#[trigger] s[i]),
        forall|j: int|
            0 <= j < with_entry(s, fire_time, seq, timeout).len() ==> {
                let e = #[trigger] with_entry(s, fire_time, seq, timeout)[j];
                e == (TimerEntry { fire_time, seq, timeout }) || s.contains(e)
            },
        forall|j: int|
            0 <= j < with_entry(s, fire_time, seq, timeout).len() ==> (#[trigger] with_entry(
                s,
                fire_time,
                seq,
                timeout,
            )[j]).seq <= seq,
{
    let entry = TimerEntry { fire_time, seq, timeout };
    lemma_due_split(s, fire_time);
    let k = due_count(s, fire_time) as int;
    let q = with_entry(s, fire_time, seq, timeout);
    assert(q[k] == entry);
    assert forall|i: int, j: int| 0 <= i < j < q.len() implies precedes(
        #[trigger] q[i],
        #[trigger] q[j],
    ) by {
        if j < k {
            assert(precedes(s[i], s[j]));
        } else if j == k {
            assert(s[i].fire_time <= fire_time && s[i].seq < seq);
        } else if i < k {
            assert(precedes(s[i], s[j - 1]));
        } else if i == k {
            assert(s[j - 1].fire_time > fire_time);
        } else {
            assert(precedes(s[i - 1], s[j - 1]));
        }
    }
    assert forall|i: int| 0 <= i < s.len() implies q.contains(#[trigger] s[i]) by {
        if i < k {
            assert(q[i] == s[i]);
        } else {
            assert(q[i + 1] == s[i]);
        }
    }
    assert forall|j: int| 0 <= j < q.len() implies ({
        let e = #[trigger] q[j];
        (e == entry || s.contains(e)) && e.seq <= seq
    }) by {
        if j < k {
            assert(q[j] == s[j]);
        } else if j > k {
            assert(q[j] == s[j - 1]);
        }
    }
}

/// Three timeouts enrolled one after the other into an empty queue, whatever
/// the order of their fire times: the queue holds exactly the three, ordered
/// by fire time and, where fire times are equal, by enrolment. A turn at or
/// after the latest fire time takes all three out in that order and leaves
/// the queue empty.
pub proof fn lemma_three_timers_fire_in_order(
    first: TimerEntry,
    second: TimerEntry,
    third: TimerEntry,
    now: u64,
)
    requires
        first.seq < second.seq < third.seq,
        first.fire_time <= now,
        second.fire_time <= now,
        third.fire_time <= now,
    ensures
        ({
            let q = with_entry(
                with_entry(
                    with_entry(
                        Seq::<TimerEntry>::empty(),
                        first.fire_time,
                        first.seq,
                        first.timeout,
                    ),
                    second.fire_time,
                    second.seq,
                    second.timeout,
                ),
                third.fire_time,
                third.seq,
                third.timeout,
            );
            &&& q.len() == 3
            &&& ordered(q)
            &&& q.contains(first) && q.contains(second) && q.contains(third)
            &&& forall|j: int| 0 <= j < 3 ==> #[trigger] q[j] == first || q[j] == second || q[j] == third
            &&& due_count(q, now) == 3
            &&& q.take(due_count(q, now) as int) == q
            &&& q.skip(due_count(q, now) as int).len() == 0
        }),
{
    let none = Seq::<TimerEntry>::empty();
    let one = with_entry(none, first.fire_time, first.seq, first.timeout);
    let two = with_entry(one, second.fire_time, second.seq, second.timeout);
    let q = with_entry(two, third.fire_time, third.seq, third.timeout);
    lemma_enrolment_keeps_all(none, first.fire_time, first.seq, first.timeout);
    lemma_enrolment_keeps_all(one, second.fire_time, second.seq, second.timeout);
    lemma_enrolment_keeps_all(two, third.fire_time, third.seq, third.timeout);
    assert(one[0] == first);
    assert(two.contains(one[0]));
    assert(two.contains(first));
    let i1 = choose|i: int| 0 <= i < two.len() && two[i] == first;
    assert(q.contains(two[i1]));
    let i2 = choose|i: int| 0 <= i < two.len() && two[i] == second;
    assert(q.contains(two[i2]));
    assert forall|j: int| 0 <= j < 3 implies #[trigger] q[j] == first || q[j] == second || q[j]
        == third by {
        let e = q[j];
        if e != third {
            assert(two.contains(e));
            let a = choose|a: int| 0 <= a < two.len() && two[a] == e;
            if two[a] != second {
                assert(one.contains(two[a]));
            }
        }
    }
    assert forall|j: int| 0 <= j < 3 implies (#[trigger] q[j]).fire_time <= now by {
        assert(q[j] == first || q[j] == second || q[j] == third);
    }
    lemma_due_prefix(q, now, 3);
    assert(q.take(3) =~= q);
}

} // verus!
