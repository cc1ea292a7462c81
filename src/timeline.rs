//! Snapshots and the timeline they form.
//!
//! A snapshot holds every ball's state at the start of a half-open interval
//! of simulated time, and the ignore-lists that keep a contact that was just
//! resolved from firing again. A timeline is a contiguous chain of snapshots
//! from time zero to a terminal snapshot that lasts forever.
//!
//! The ball state `B` is opaque here: advancing balls and resolving
//! collisions is left to the caller, which hands the results in.

use vstd::prelude::*;
use crate::events::{Candidate, Step, earliest, selection_matches, select_step};

verus! {

/// The end time of a snapshot that lasts forever.
pub const FOREVER: u64 = 0xffff_ffff_ffff_ffff;

/// Snapshots beyond this many are never produced by stepping: the chain is
/// cut off instead of running on through endless low-speed contacts.
pub const MAX_SNAPSHOTS: usize = 1000;

/// Every ball's state at `start_time`, valid until `end_time` (nanoseconds).
#[derive(Debug, Clone)]
pub struct Snapshot<B> {
    pub start_time: u64,
    pub end_time: u64,
    pub balls: Vec<B>,
    pub ignore_collisions: Vec<(usize, usize)>,
    pub ignore_wall_collisions: Vec<(usize, usize)>,
    pub index: usize,
}

/// `s` is a snapshot of `balls` that starts at `start` with the given index
/// and ignore-lists, and lasts forever.
pub open spec fn is_fresh<B>(
    s: Snapshot<B>,
    balls: Vec<B>,
    start: u64,
    index: usize,
    ib: Seq<(usize, usize)>,
    iw: Seq<(usize, usize)>,
) -> bool {
    &&& s.start_time == start
    &&& s.end_time == FOREVER
    &&& s.balls == balls
    &&& s.ignore_collisions@ == ib
    &&& s.ignore_wall_collisions@ == iw
    &&& s.index == index
}

/// `n` has at least `count` snapshots, and its first `count` are those of
/// `o`, unchanged.
pub open spec fn keeps<B>(o: Seq<Snapshot<B>>, n: Seq<Snapshot<B>>, count: int) -> bool {
    &&& 0 <= count <= o.len()
    &&& count <= n.len()
    &&& forall|k: int| 0 <= k < count ==> n[k] == o[k]
}

/// `n` is `o` after a step of `step.time`: the last snapshot now ends then,
/// and a snapshot of `balls` follows it, carrying the step's ignore-lists.
pub open spec fn stepped<B>(o: Seq<Snapshot<B>>, n: Seq<Snapshot<B>>, step: Step, balls: Vec<B>) -> bool {
    let end = (o.last().start_time + step.time) as u64;
    &&& n.len() == o.len() + 1
    &&& keeps(o, n, o.len() - 1)
    &&& n[o.len() - 1] == (Snapshot { end_time: end, ..o.last() })
    &&& is_fresh(
        n.last(),
        balls,
        end,
        o.len() as usize,
        step.ignore_collisions@,
        step.ignore_wall_collisions@,
    )
}

/// `n` is `o` spliced at `t` with `balls`: snapshot `r`, the one whose
/// half-open interval holds `t`, now ends at `t`; the snapshots before it
/// stay; a snapshot of `balls` starting at `t` with snapshot `r`'s
/// ignore-lists follows, and nothing after.
pub open spec fn spliced<B>(o: Seq<Snapshot<B>>, n: Seq<Snapshot<B>>, t: u64, balls: Vec<B>, r: usize) -> bool {
    &&& r < o.len()
    &&& o[r as int].start_time <= t < o[r as int].end_time
    &&& forall|k: int| 0 <= k < r ==> #[trigger] o[k].end_time <= t
    &&& n.len() == r + 2
    &&& forall|k: int| 0 <= k < r ==> n[k] == o[k]
    &&& n[r as int] == (Snapshot { end_time: t, ..o[r as int] })
    &&& is_fresh(
        n[r + 1],
        balls,
        t,
        (r + 1) as usize,
        o[r as int].ignore_collisions@,
        o[r as int].ignore_wall_collisions@,
    )
}

/// Two snapshots agree: the same interval, balls and index, and the same
/// ignore-lists.
pub open spec fn same_snapshot<B>(a: Snapshot<B>, b: Snapshot<B>) -> bool {
    &&& a.start_time == b.start_time
    &&& a.end_time == b.end_time
    &&& a.balls == b.balls
    &&& a.ignore_collisions@ == b.ignore_collisions@
    &&& a.ignore_wall_collisions@ == b.ignore_wall_collisions@
    &&& a.index == b.index
}

/// Two timelines agree snapshot by snapshot.
pub open spec fn same_timeline<B>(a: Seq<Snapshot<B>>, b: Seq<Snapshot<B>>) -> bool {
    &&& a.len() == b.len()
    &&& forall|k: int| 0 <= k < a.len() ==> same_snapshot(#[trigger] a[k], b[k])
}

/// What stepping a snapshot yields: nothing once the snapshot cap is
/// reached, when no candidate is left, or when the step would end past the
/// last representable time; else the selected step.
pub open spec fn step_matches<B>(s: Snapshot<B>, cs: Seq<Candidate>, r: Option<Step>) -> bool {
    let ib = s.ignore_collisions@;
    let iw = s.ignore_wall_collisions@;
    if s.index >= MAX_SNAPSHOTS - 1 {
        r.is_none()
    } else {
        match earliest(cs, ib, iw) {
            None => r.is_none(),
            Some(m) => if s.start_time as int + m as int > FOREVER as int {
                r.is_none()
            } else {
                selection_matches(r, cs, ib, iw)
            },
        }
    }
}

impl<B> Snapshot<B> {
    /// The first snapshot of a world: starts at time zero, lasts forever,
    /// ignores nothing.
    pub fn new(balls: Vec<B>) -> (r: Snapshot<B>)
        ensures
            r.start_time == 0,
            r.end_time == FOREVER,
            r.balls == balls,
            r.ignore_collisions@.len() == 0,
            r.ignore_wall_collisions@.len() == 0,
            r.index == 0,
    {
        Snapshot {
            start_time: 0,
            end_time: FOREVER,
            balls,
            ignore_collisions: Vec::new(),
            ignore_wall_collisions: Vec::new(),
            index: 0,
        }
    }

    /// The step that ends this snapshot, given the candidate events of its
    /// interval (see `step_matches`). Times are nanoseconds in a `u64`, so a
    /// step that would end more than about 584 years in is refused, like the
    /// step past the snapshot cap.
    pub fn next_step(&self, cs: &Vec<Candidate>) -> (r: Option<Step>)
        ensures
            step_matches(*self, cs@, r),
    {
        if self.index >= MAX_SNAPSHOTS - 1 {
            return None;
        }
        match select_step(cs, &self.ignore_collisions, &self.ignore_wall_collisions) {
            None => None,
            Some(step) => if step.time > FOREVER - self.start_time {
                None
            } else {
                Some(step)
            },
        }
    }
}

/// A contiguous chain of snapshots.
#[derive(Debug, Clone)]
pub struct Timeline<B> {
    snapshots: Vec<Snapshot<B>>,
}

impl<B> Timeline<B> {
    /// The snapshots, in order.
    pub closed spec fn view(&self) -> Seq<Snapshot<B>> {
        self.snapshots@
    }

    /// The chain starts at time zero, each snapshot ends where the next one
    /// starts, the last lasts forever, no interval runs backwards, and each
    /// snapshot's index is its position.
    pub open spec fn wf(&self) -> bool {
        let s = self@;
        &&& s.len() >= 1
        &&& s[0].start_time == 0
        &&& s.last().end_time == FOREVER
        &&& forall|i: int| 0 <= i < s.len() - 1 ==> #[trigger] s[i].end_time == s[i + 1].start_time
        &&& forall|i: int| 0 <= i < s.len() ==> #[trigger] s[i].start_time <= s[i].end_time
        &&& forall|i: int| 0 <= i < s.len() ==> #[trigger] s[i].index == i
    }

    /// A timeline of the one snapshot `Snapshot::new(balls)`.
    pub fn new(balls: Vec<B>) -> (r: Timeline<B>)
        ensures
            r.wf(),
            r@.len() == 1,
            is_fresh(r@[0], balls, 0, 0, Seq::empty(), Seq::empty()),
    {
        let first = Snapshot::new(balls);
        assert(first.ignore_collisions@ =~= Seq::empty());
        assert(first.ignore_wall_collisions@ =~= Seq::empty());
        let mut snapshots: Vec<Snapshot<B>> = Vec::new();
        snapshots.push(first);
        Timeline { snapshots }
    }

    /// The number of snapshots.
    pub fn len(&self) -> (r: usize)
        ensures
            r == self@.len(),
    {
        self.snapshots.len()
    }

    /// The snapshot at position `i`.
    pub fn snapshot(&self, i: usize) -> (r: &Snapshot<B>)
        requires
            i < self@.len(),
        ensures
            *r == self@[i as int],
    {
        &self.snapshots[i]
    }

    /// The snapshot that the timeline ends with.
    pub fn last(&self) -> (r: &Snapshot<B>)
        requires
            self.wf(),
        ensures
            *r == self@.last(),
    {
        &self.snapshots[self.snapshots.len() - 1]
    }

    /// The step that ends the last snapshot (see `Snapshot::next_step`).
    pub fn next_step(&self, cs: &Vec<Candidate>) -> (r: Option<Step>)
        requires
            self.wf(),
        ensures
            step_matches(self@.last(), cs@, r),
    {
        self.last().next_step(cs)
    }

    /// Ends the last snapshot after `step.time` and appends the snapshot of
    /// `balls` that follows it, carrying the step's ignore-lists.
    pub fn push_step(&mut self, step: Step, balls: Vec<B>)
        requires
            old(self).wf(),
            old(self)@.len() < usize::MAX,
            old(self)@.last().start_time + step.time <= FOREVER,
        ensures
            final(self).wf(),
            stepped(old(self)@, final(self)@, step, balls),
    {
        let ghost o = self@;
        let mut prev = self.snapshots.pop().unwrap();
        let end = prev.start_time + step.time;
        prev.end_time = end;
        let index = prev.index + 1;
        self.snapshots.push(prev);
        self.snapshots.push(
            Snapshot {
                start_time: end,
                end_time: FOREVER,
                balls,
                ignore_collisions: step.ignore_collisions,
                ignore_wall_collisions: step.ignore_wall_collisions,
                index,
            },
        );
        proof {
            let n = self@;
            assert forall|i: int| 0 <= i < n.len() - 1 implies #[trigger] n[i].end_time == n[i
                + 1].start_time by {
                if i < o.len() - 1 {
                    assert(o[i].end_time == o[i + 1].start_time);
                }
            }
            assert forall|i: int| 0 <= i < n.len() implies #[trigger] n[i].start_time
                <= n[i].end_time by {
                if i < o.len() - 1 {
                    assert(o[i].start_time <= o[i].end_time);
                }
            }
            assert forall|i: int| 0 <= i < n.len() implies #[trigger] n[i].index == i by {
                if i < o.len() {
                    assert(o[i].index == i);
                }
            }
        }
    }

    /// The position of the first snapshot that has not ended before `t`:
    /// the one whose interval covers `t`.
    pub fn covering(&self, t: u64) -> (r: usize)
        requires
            self.wf(),
        ensures
            r < self@.len(),
            self@[r as int].start_time <= t <= self@[r as int].end_time,
            forall|k: int| 0 <= k < r ==> #[trigger] self@[k].end_time < t,
    {
        let mut i: usize = 0;
        while self.snapshots[i].end_time < t
            invariant
                self.wf(),
                i < self@.len(),
                self@[i as int].start_time <= t,
                forall|k: int| 0 <= k < i ==> #[trigger] self@[k].end_time < t,
            decreases self@.len() - i,
        {
            assert(i + 1 < self.snapshots.len());
            assert(self@[i as int].end_time == self@[i + 1].start_time);
            i = i + 1;
        }
        i
    }

    /// Where the balls are at time `t`: the covering snapshot's position,
    /// and how long after its start `t` lies.
    pub fn locate(&self, t: u64) -> (r: (usize, u64))
        requires
            self.wf(),
        ensures
            r.0 < self@.len(),
            self@[r.0 as int].start_time <= t <= self@[r.0 as int].end_time,
            forall|k: int| 0 <= k < r.0 ==> #[trigger] self@[k].end_time < t,
            r.1 == t - self@[r.0 as int].start_time,
    {
        let i = self.covering(t);
        (i, t - self.snapshots[i].start_time)
    }

    /// The position of the first snapshot that ends after `t`: the one whose
    /// half-open interval holds `t`.
    pub fn split_point(&self, t: u64) -> (r: usize)
        requires
            self.wf(),
            t < FOREVER,
        ensures
            r < self@.len(),
            self@[r as int].start_time <= t < self@[r as int].end_time,
            forall|k: int| 0 <= k < r ==> #[trigger] self@[k].end_time <= t,
    {
        let mut i: usize = 0;
        while self.snapshots[i].end_time <= t
            invariant
                self.wf(),
                t < FOREVER,
                i < self@.len(),
                self@[i as int].start_time <= t,
                forall|k: int| 0 <= k < i ==> #[trigger] self@[k].end_time <= t,
            decreases self@.len() - i,
        {
            assert(i + 1 < self.snapshots.len());
            assert(self@[i as int].end_time == self@[i + 1].start_time);
            i = i + 1;
        }
        i
    }

    /// Injects a change at time `t`: the snapshot whose interval holds `t`
    /// now ends at `t`, every later snapshot is dropped, and a snapshot of
    /// `balls` (the state at `t` after the change) starts at `t` with that
    /// snapshot's ignore-lists. Every snapshot that had ended by `t` is kept
    /// as it was.
    pub fn splice(&mut self, t: u64, balls: Vec<B>) -> (r: usize)
        requires
            old(self).wf(),
            t < FOREVER,
        ensures
            final(self).wf(),
            spliced(old(self)@, final(self)@, t, balls, r),
            forall|k: int|
                0 <= k < old(self)@.len() && old(self)@[k].end_time <= t ==> k < r && final(self)@[k]
                    == old(self)@[k],
    {
        let ghost o = self@;
        let i = self.split_point(t);
        assert(i < self.snapshots.len());
        self.snapshots.truncate(i + 1);
        let mut cut = self.snapshots.pop().unwrap();
        cut.end_time = t;
        let ib = copy_pairs(&cut.ignore_collisions);
        let iw = copy_pairs(&cut.ignore_wall_collisions);
        self.snapshots.push(cut);
        self.snapshots.push(
            Snapshot {
                start_time: t,
                end_time: FOREVER,
                balls,
                ignore_collisions: ib,
                ignore_wall_collisions: iw,
                index: i + 1,
            },
        );
        proof {
            let n = self@;
            assert forall|k: int| 0 <= k < n.len() - 1 implies #[trigger] n[k].end_time == n[k
                + 1].start_time by {
                if k < i {
                    assert(o[k].end_time == o[k + 1].start_time);
                }
            }
            assert forall|k: int| 0 <= k < n.len() implies #[trigger] n[k].start_time
                <= n[k].end_time by {
                if k < i {
                    assert(o[k].start_time <= o[k].end_time);
                }
            }
            assert forall|k: int| 0 <= k < n.len() implies #[trigger] n[k].index == k by {
                if k <= i {
                    assert(o[k].index == k);
                }
            }
            assert forall|k: int| 0 <= k < o.len() && o[k].end_time <= t implies k < i && n[k]
                == o[k] by {
                if k >= i {
                    if k > i {
                        lemma_ends_increase(o, i as int, k);
                    }
                    assert(o[i as int].end_time <= o[k].end_time);
                }
            }
        }
        i
    }
}

/// A copy of a list of pairs.
pub fn copy_pairs(s: &Vec<(usize, usize)>) -> (r: Vec<(usize, usize)>)
    ensures
        r@ == s@,
{
    let mut out: Vec<(usize, usize)> = Vec::new();
    let mut i: usize = 0;
    while i < s.len()
        invariant
            i <= s.len(),
            out@ == s@.subrange(0, i as int),
        decreases s.len() - i,
    {
        out.push(s[i]);
        i = i + 1;
        assert(out@ =~= s@.subrange(0, i as int));
    }
    out
}

/// In a chain whose intervals meet and do not run backwards, a snapshot ends
/// no later than any later snapshot starts, or ends.
proof fn lemma_ends_increase<B>(s: Seq<Snapshot<B>>, i: int, k: int)
    requires
        0 <= i < k < s.len(),
        forall|j: int| 0 <= j < s.len() - 1 ==> #[trigger] s[j].end_time == s[j + 1].start_time,
        forall|j: int| 0 <= j < s.len() ==> #[trigger] s[j].start_time <= s[j].end_time,
    ensures
        s[i].end_time <= s[k].start_time,
        s[i].end_time <= s[k].end_time,
    decreases k - i,
{
    assert(s[k - 1].end_time == s[k].start_time);
    assert(s[k].start_time <= s[k].end_time);
    if k - 1 > i {
        lemma_ends_increase(s, i, k - 1);
    }
    assert(s[k - 1].start_time <= s[k - 1].end_time);
}

/// Adjacent snapshots of a well-formed timeline meet: each one ends exactly
/// where the next one starts. Every operation on a timeline keeps it
/// well-formed, so this holds of every timeline that is built or spliced.
pub proof fn lemma_timeline_contiguous<B>(t: Timeline<B>, i: int)
    requires
        t.wf(),
        0 <= i < t@.len() - 1,
    ensures
        t@[i].end_time == t@[i + 1].start_time,
{
}

/// Stepping is deterministic: two steps taken from agreeing snapshots with
/// equal candidate events agree on whether there is a next snapshot, on the
/// time at which it starts, on the events resolved, and on the ignore-lists
/// it carries.
pub proof fn lemma_step_deterministic<B>(
    s1: Snapshot<B>,
    s2: Snapshot<B>,
    cs: Seq<Candidate>,
    r1: Option<Step>,
    r2: Option<Step>,
)
    requires
        same_snapshot(s1, s2),
        step_matches(s1, cs, r1),
        step_matches(s2, cs, r2),
    ensures
        r1.is_some() == r2.is_some(),
        r1.is_some() ==> {
            let a = r1.unwrap();
            let b = r2.unwrap();
            &&& a.time == b.time
            &&& a.events@ == b.events@
            &&& a.ignore_collisions@ == b.ignore_collisions@
            &&& a.ignore_wall_collisions@ == b.ignore_wall_collisions@
        },
{
}

/// Keeping composes: if `b` keeps the first `i` snapshots of `a`, and `c`
/// keeps the first `j` of `b` with `i <= j`, then `c` keeps the first `i`
/// of `a`. So a run of `push_step` calls keeps everything before the
/// snapshot it started from.
pub proof fn lemma_keeps_compose<B>(
    a: Seq<Snapshot<B>>,
    b: Seq<Snapshot<B>>,
    c: Seq<Snapshot<B>>,
    i: int,
    j: int,
)
    requires
        keeps(a, b, i),
        keeps(b, c, j),
        i <= j,
    ensures
        keeps(a, c, i),
{
    assert forall|k: int| 0 <= k < i implies c[k] == a[k] by {
        assert(c[k] == b[k]);
    }
}

/// Splicing at `t` and then growing the timeline again (any number of
/// steps from the spliced snapshot on) leaves every snapshot that had ended
/// by `t` exactly as it was: only the suffix after `t` changes.
pub proof fn lemma_splice_keeps_past<B>(
    before: Seq<Snapshot<B>>,
    spliced: Seq<Snapshot<B>>,
    after: Seq<Snapshot<B>>,
    t: u64,
)
    requires
        forall|k: int|
            0 <= k < before.len() && before[k].end_time <= t ==> k < spliced.len() - 1 && spliced[k]
                == before[k],
        keeps(spliced, after, spliced.len() - 1),
    ensures
        forall|k: int|
            0 <= k < before.len() && before[k].end_time <= t ==> k < after.len() && after[k] == before[k],
{
    assert forall|k: int| 0 <= k < before.len() && before[k].end_time <= t implies k < after.len()
        && after[k] == before[k] by {
        assert(spliced[k] == before[k]);
        assert(after[k] == spliced[k]);
    }
}

/// Splicing is deterministic: splicing agreeing timelines at the same time
/// with the same balls picks the same split point and gives agreeing
/// timelines.
pub proof fn lemma_splice_deterministic<B>(
    o1: Seq<Snapshot<B>>,
    o2: Seq<Snapshot<B>>,
    n1: Seq<Snapshot<B>>,
    n2: Seq<Snapshot<B>>,
    t: u64,
    balls: Vec<B>,
    r1: usize,
    r2: usize,
)
    requires
        same_timeline(o1, o2),
        spliced(o1, n1, t, balls, r1),
        spliced(o2, n2, t, balls, r2),
    ensures
        r1 == r2,
        same_timeline(n1, n2),
{
    if r1 < r2 {
        assert(o2[r1 as int].end_time <= t);
        assert(same_snapshot(o1[r1 as int], o2[r1 as int]));
    }
    if r2 < r1 {
        assert(o1[r2 as int].end_time <= t);
        assert(same_snapshot(o1[r2 as int], o2[r2 as int]));
    }
    assert forall|k: int| 0 <= k < n1.len() implies same_snapshot(#[trigger] n1[k], n2[k]) by {
        if k <= r1 {
            assert(same_snapshot(o1[k], o2[k]));
        }
    }
}

/// Pushing a step is deterministic: the same step and balls on agreeing
/// timelines give agreeing timelines.
pub proof fn lemma_push_step_deterministic<B>(
    o1: Seq<Snapshot<B>>,
    o2: Seq<Snapshot<B>>,
    n1: Seq<Snapshot<B>>,
    n2: Seq<Snapshot<B>>,
    step: Step,
    balls: Vec<B>,
)
    requires
        o1.len() >= 1,
        same_timeline(o1, o2),
        stepped(o1, n1, step, balls),
        stepped(o2, n2, step, balls),
    ensures
        same_timeline(n1, n2),
{
    assert(same_snapshot(o1.last(), o2.last()));
    assert forall|k: int| 0 <= k < n1.len() implies same_snapshot(#[trigger] n1[k], n2[k]) by {
        if k < o1.len() {
            assert(same_snapshot(o1[k], o2[k]));
        }
    }
}

} // verus!
