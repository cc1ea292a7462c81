//! Event selection: out of the candidate events of one snapshot interval
//! (stops, ball-wall and ball-ball impacts, each with its time of impact),
//! pick the earliest batch of co-occurring events and work out the
//! ignore-lists that the next snapshot carries.
//!
//! Times are whole nanoseconds measured from the start of the interval.

use vstd::prelude::*;

verus! {

/// Nanoseconds in one second.
pub const NANOS_PER_SEC: u64 = 1_000_000_000;

/// Events whose times differ by at most this much (one millisecond) are
/// resolved together.
pub const EVENT_MARGIN: u64 = 1_000_000;

/// What can happen to the balls at the end of a snapshot interval.
#[derive(Debug, Clone, Copy, PartialEq, Eq, Structural)]
pub enum Event {
    /// Balls `.0` and `.1` touch.
    BallCollision(usize, usize),
    /// Ball `.0` comes to rest.
    BallStopped(usize),
    /// Ball `.0` hits wall `.1`.
    BallStaticCollision(usize, usize),
}

/// An event together with the time, from the start of the interval, at
/// which it would happen.
#[derive(Debug, Clone, Copy, PartialEq, Eq, Structural)]
pub struct Candidate {
    pub event: Event,
    pub toi: u64,
}

/// The outcome of event selection: how long the interval lasts, the events
/// that end it, and the ignore-lists of the snapshot that follows.
#[derive(Debug, Clone)]
pub struct Step {
    pub time: u64,
    pub events: Vec<Event>,
    pub ignore_collisions: Vec<(usize, usize)>,
    pub ignore_wall_collisions: Vec<(usize, usize)>,
}

/// An event is ignored when its pair is on the matching ignore-list (a ball
/// pair in either order). Stops are never ignored.
pub open spec fn is_ignored(e: Event, balls: Seq<(usize, usize)>, walls: Seq<(usize, usize)>) -> bool {
    match e {
        Event::BallCollision(i, j) => balls.contains((i, j)) || balls.contains((j, i)),
        Event::BallStopped(_) => false,
        Event::BallStaticCollision(i, w) => walls.contains((i, w)),
    }
}

/// The earliest time of impact among the candidates that are not ignored.
pub open spec fn earliest(
    cs: Seq<Candidate>,
    balls: Seq<(usize, usize)>,
    walls: Seq<(usize, usize)>,
) -> Option<u64>
    decreases cs.len(),
{
    if cs.len() == 0 {
        None
    } else {
        let rest = earliest(cs.drop_last(), balls, walls);
        let c = cs.last();
        if is_ignored(c.event, balls, walls) {
            rest
        } else {
            match rest {
                None => Some(c.toi),
                Some(m) => Some(if c.toi < m { c.toi } else { m }),
            }
        }
    }
}

/// A time no later than the margin after `m`.
pub open spec fn within(toi: u64, m: u64) -> bool {
    toi as int <= m as int + EVENT_MARGIN as int
}

/// The events, in candidate order, that are not ignored and fall within the
/// margin of `m`.
pub open spec fn batch(
    cs: Seq<Candidate>,
    m: u64,
    balls: Seq<(usize, usize)>,
    walls: Seq<(usize, usize)>,
) -> Seq<Event>
    decreases cs.len(),
{
    if cs.len() == 0 {
        Seq::empty()
    } else {
        let rest = batch(cs.drop_last(), m, balls, walls);
        let c = cs.last();
        if !is_ignored(c.event, balls, walls) && within(c.toi, m) {
            rest.push(c.event)
        } else {
            rest
        }
    }
}

/// The ball pairs that are ignored and still within the margin of `m`.
pub open spec fn kept_pairs(
    cs: Seq<Candidate>,
    m: u64,
    balls: Seq<(usize, usize)>,
    walls: Seq<(usize, usize)>,
) -> Seq<(usize, usize)>
    decreases cs.len(),
{
    if cs.len() == 0 {
        Seq::empty()
    } else {
        let rest = kept_pairs(cs.drop_last(), m, balls, walls);
        let c = cs.last();
        match c.event {
            Event::BallCollision(i, j) => if is_ignored(c.event, balls, walls) && within(c.toi, m) {
                rest.push((i, j))
            } else {
                rest
            },
            _ => rest,
        }
    }
}

/// The ball-wall pairs that are ignored and still within the margin of `m`.
pub open spec fn kept_walls(
    cs: Seq<Candidate>,
    m: u64,
    balls: Seq<(usize, usize)>,
    walls: Seq<(usize, usize)>,
) -> Seq<(usize, usize)>
    decreases cs.len(),
{
    if cs.len() == 0 {
        Seq::empty()
    } else {
        let rest = kept_walls(cs.drop_last(), m, balls, walls);
        let c = cs.last();
        match c.event {
            Event::BallStaticCollision(i, w) => if is_ignored(c.event, balls, walls) && within(
                c.toi,
                m,
            ) {
                rest.push((i, w))
            } else {
                rest
            },
            _ => rest,
        }
    }
}

/// Whether a ball pair involves ball `a` or ball `b`.
pub open spec fn touches(p: (usize, usize), a: usize, b: usize) -> bool {
    p.0 == a || p.1 == a || p.0 == b || p.1 == b
}

/// Event `e` is a ball-ball collision that involves a ball of pair `p`.
pub open spec fn collision_touches(e: Event, p: (usize, usize)) -> bool {
    match e {
        Event::BallCollision(x, y) => touches(p, x, y),
        _ => false,
    }
}

/// Ball pair `p` involves a ball of some collision among `events`.
pub open spec fn hit_by(p: (usize, usize), events: Seq<Event>) -> bool {
    exists|i: int| 0 <= i < events.len() && #[trigger] collision_touches(events[i], p)
}

/// The pairs of `s`, in order, that involve no ball of any collision among
/// `events`.
pub open spec fn untouched(s: Seq<(usize, usize)>, events: Seq<Event>) -> Seq<(usize, usize)>
    decreases s.len(),
{
    if s.len() == 0 {
        Seq::empty()
    } else {
        let rest = untouched(s.drop_last(), events);
        if hit_by(s.last(), events) {
            rest
        } else {
            rest.push(s.last())
        }
    }
}

/// The ball pairs of the collisions among `events`, in order.
pub open spec fn collision_pairs(events: Seq<Event>) -> Seq<(usize, usize)>
    decreases events.len(),
{
    if events.len() == 0 {
        Seq::empty()
    } else {
        let rest = collision_pairs(events.drop_last());
        match events.last() {
            Event::BallCollision(x, y) => rest.push((x, y)),
            _ => rest,
        }
    }
}

/// The ball-wall pairs of the wall hits among `events`, in order.
pub open spec fn wall_pairs(events: Seq<Event>) -> Seq<(usize, usize)>
    decreases events.len(),
{
    if events.len() == 0 {
        Seq::empty()
    } else {
        let rest = wall_pairs(events.drop_last());
        match events.last() {
            Event::BallStaticCollision(x, k) => rest.push((x, k)),
            _ => rest,
        }
    }
}

/// The ignore-lists after resolving the batch `events`, from the ignored
/// pairs carried forward. A carried ball pair that involves a ball of any
/// resolved collision is dropped: that ball has moved off, so the contact
/// it stood for is gone. Then every pair that just resolved is ignored:
/// each collision's ball pair, and each wall hit's ball-wall pair.
pub open spec fn settle(
    events: Seq<Event>,
    balls: Seq<(usize, usize)>,
    walls: Seq<(usize, usize)>,
) -> (Seq<(usize, usize)>, Seq<(usize, usize)>) {
    (untouched(balls, events) + collision_pairs(events), walls + wall_pairs(events))
}

/// Resolved event `e` is on the matching ignore-list (stops need none).
pub open spec fn recorded(e: Event, balls: Seq<(usize, usize)>, walls: Seq<(usize, usize)>) -> bool {
    match e {
        Event::BallCollision(x, y) => balls.contains((x, y)),
        Event::BallStopped(_) => true,
        Event::BallStaticCollision(x, k) => walls.contains((x, k)),
    }
}

/// What selection yields for the candidates of one interval: nothing when
/// every candidate is ignored (or there is none); else the earliest time,
/// the batch within the margin of it, and the settled ignore-lists.
pub open spec fn selection_matches(
    r: Option<Step>,
    cs: Seq<Candidate>,
    balls: Seq<(usize, usize)>,
    walls: Seq<(usize, usize)>,
) -> bool {
    match earliest(cs, balls, walls) {
        None => r.is_none(),
        Some(m) => match r {
            None => false,
            Some(s) => {
                let ev = batch(cs, m, balls, walls);
                let kept = settle(ev, kept_pairs(cs, m, balls, walls), kept_walls(cs, m, balls, walls));
                &&& s.time == m
                &&& s.events@ == ev
                &&& s.ignore_collisions@ == kept.0
                &&& s.ignore_wall_collisions@ == kept.1
                &&& forall|i: int|
                    0 <= i < ev.len() ==> recorded(
                        #[trigger] ev[i],
                        s.ignore_collisions@,
                        s.ignore_wall_collisions@,
                    )
            },
        },
    }
}

/// Whether `p` is on `list`.
pub fn listed(list: &Vec<(usize, usize)>, p: (usize, usize)) -> (r: bool)
    ensures
        r == list@.contains(p),
{
    let mut i: usize = 0;
    while i < list.len()
        invariant
            i <= list.len(),
            forall|k: int| 0 <= k < i ==> list@[k] != p,
        decreases list.len() - i,
    {
        let q = list[i];
        if q.0 == p.0 && q.1 == p.1 {
            assert(list@[i as int] == p);
            return true;
        }
        i = i + 1;
    }
    false
}

/// Whether `e` is ignored under the given ignore-lists.
pub fn ignored(e: Event, balls: &Vec<(usize, usize)>, walls: &Vec<(usize, usize)>) -> (r: bool)
    ensures
        r == is_ignored(e, balls@, walls@),
{
    match e {
        Event::BallCollision(i, j) => listed(balls, (i, j)) || listed(balls, (j, i)),
        Event::BallStopped(_) => false,
        Event::BallStaticCollision(i, w) => listed(walls, (i, w)),
    }
}

/// The earliest time of impact among the candidates that are not ignored.
pub fn earliest_time(
    cs: &Vec<Candidate>,
    balls: &Vec<(usize, usize)>,
    walls: &Vec<(usize, usize)>,
) -> (r: Option<u64>)
    ensures
        r == earliest(cs@, balls@, walls@),
{
    let mut m: Option<u64> = None;
    let mut i: usize = 0;
    while i < cs.len()
        invariant
            i <= cs.len(),
            m == earliest(cs@.subrange(0, i as int), balls@, walls@),
        decreases cs.len() - i,
    {
        let c = cs[i];
        assert(cs@.subrange(0, i + 1).drop_last() =~= cs@.subrange(0, i as int));
        if !ignored(c.event, balls, walls) {
            m = match m {
                None => Some(c.toi),
                Some(t) => Some(if c.toi < t { c.toi } else { t }),
            };
        }
        i = i + 1;
    }
    assert(cs@.subrange(0, cs.len() as int) =~= cs@);
    m
}

/// The batch within the margin of `m`, and the ignored ball pairs and
/// ball-wall pairs that are still within that margin.
pub fn gather(
    cs: &Vec<Candidate>,
    m: u64,
    balls: &Vec<(usize, usize)>,
    walls: &Vec<(usize, usize)>,
) -> (r: (Vec<Event>, Vec<(usize, usize)>, Vec<(usize, usize)>))
    ensures
        r.0@ == batch(cs@, m, balls@, walls@),
        r.1@ == kept_pairs(cs@, m, balls@, walls@),
        r.2@ == kept_walls(cs@, m, balls@, walls@),
{
    let mut events: Vec<Event> = Vec::new();
    let mut kb: Vec<(usize, usize)> = Vec::new();
    let mut kw: Vec<(usize, usize)> = Vec::new();
    let mut i: usize = 0;
    while i < cs.len()
        invariant
            i <= cs.len(),
            events@ == batch(cs@.subrange(0, i as int), m, balls@, walls@),
            kb@ == kept_pairs(cs@.subrange(0, i as int), m, balls@, walls@),
            kw@ == kept_walls(cs@.subrange(0, i as int), m, balls@, walls@),
        decreases cs.len() - i,
    {
        let c = cs[i];
        assert(cs@.subrange(0, i + 1).drop_last() =~= cs@.subrange(0, i as int));
        let near = c.toi <= m || c.toi - m <= EVENT_MARGIN;
        let ign = ignored(c.event, balls, walls);
        if !ign {
            if near {
                events.push(c.event);
            }
        } else if near {
            match c.event {
                Event::BallCollision(a, b) => kb.push((a, b)),
                Event::BallStaticCollision(a, w) => kw.push((a, w)),
                Event::BallStopped(_) => {},
            }
        }
        i = i + 1;
    }
    assert(cs@.subrange(0, cs.len() as int) =~= cs@);
    (events, kb, kw)
}

/// Whether ball pair `p` involves a ball of some collision among `events`.
pub fn is_hit(p: (usize, usize), events: &Vec<Event>) -> (r: bool)
    ensures
        r == hit_by(p, events@),
{
    let mut i: usize = 0;
    while i < events.len()
        invariant
            i <= events.len(),
            forall|k: int| 0 <= k < i ==> !#[trigger] collision_touches(events@[k], p),
        decreases events.len() - i,
    {
        match events[i] {
            Event::BallCollision(x, y) => {
                if p.0 == x || p.1 == x || p.0 == y || p.1 == y {
                    assert(collision_touches(events@[i as int], p));
                    return true;
                }
            },
            _ => {},
        }
        i = i + 1;
    }
    false
}

/// The pairs of `s`, in order, that involve no ball of any collision among
/// `events`.
pub fn drop_hit(s: &Vec<(usize, usize)>, events: &Vec<Event>) -> (r: Vec<(usize, usize)>)
    ensures
        r@ == untouched(s@, events@),
{
    let mut out: Vec<(usize, usize)> = Vec::new();
    let mut i: usize = 0;
    while i < s.len()
        invariant
            i <= s.len(),
            out@ == untouched(s@.subrange(0, i as int), events@),
        decreases s.len() - i,
    {
        let p = s[i];
        assert(s@.subrange(0, i + 1).drop_last() =~= s@.subrange(0, i as int));
        if !is_hit(p, events) {
            out.push(p);
        }
        i = i + 1;
    }
    assert(s@.subrange(0, s.len() as int) =~= s@);
    out
}

/// The ball pairs of the collisions and the ball-wall pairs of the wall hits
/// among `events`, in order.
pub fn resolved_pairs(events: &Vec<Event>) -> (r: (Vec<(usize, usize)>, Vec<(usize, usize)>))
    ensures
        r.0@ == collision_pairs(events@),
        r.1@ == wall_pairs(events@),
{
    let mut cp: Vec<(usize, usize)> = Vec::new();
    let mut wp: Vec<(usize, usize)> = Vec::new();
    let mut i: usize = 0;
    while i < events.len()
        invariant
            i <= events.len(),
            cp@ == collision_pairs(events@.subrange(0, i as int)),
            wp@ == wall_pairs(events@.subrange(0, i as int)),
        decreases events.len() - i,
    {
        assert(events@.subrange(0, i + 1).drop_last() =~= events@.subrange(0, i as int));
        match events[i] {
            Event::BallCollision(x, y) => cp.push((x, y)),
            Event::BallStopped(_) => {},
            Event::BallStaticCollision(x, k) => wp.push((x, k)),
        }
        i = i + 1;
    }
    assert(events@.subrange(0, events.len() as int) =~= events@);
    (cp, wp)
}

/// The ignore-lists after resolving the batch `events` (see `settle`).
pub fn settle_lists(
    events: &Vec<Event>,
    balls: Vec<(usize, usize)>,
    walls: Vec<(usize, usize)>,
) -> (r: (Vec<(usize, usize)>, Vec<(usize, usize)>))
    ensures
        (r.0@, r.1@) == settle(events@, balls@, walls@),
{
    let (mut cp, mut wp) = resolved_pairs(events);
    let mut b = drop_hit(&balls, events);
    b.append(&mut cp);
    let mut w = walls;
    w.append(&mut wp);
    (b, w)
}

/// Event selection over the candidates of one interval.
///
/// Ignored candidates take no part in setting the earliest time. When none
/// is left, there is no further event. Otherwise the step lasts until the
/// earliest time; every other candidate within `EVENT_MARGIN` of it is
/// resolved with it, and the ignored pairs within that margin stay ignored.
pub fn select_step(
    cs: &Vec<Candidate>,
    balls: &Vec<(usize, usize)>,
    walls: &Vec<(usize, usize)>,
) -> (r: Option<Step>)
    ensures
        selection_matches(r, cs@, balls@, walls@),
{
    match earliest_time(cs, balls, walls) {
        None => None,
        Some(m) => {
            let (events, kb, kw) = gather(cs, m, balls, walls);
            let (ib, iw) = settle_lists(&events, kb, kw);
            proof {
                lemma_settle_records_resolved(events@, kb@, kw@);
            }
            Some(Step { time: m, events, ignore_collisions: ib, ignore_wall_collisions: iw })
        },
    }
}

/// The earliest time is a lower bound on the times of the candidates that
/// are not ignored, and one of them has it; it is missing only when every
/// candidate is ignored.
pub proof fn lemma_earliest_is_min(cs: Seq<Candidate>, balls: Seq<(usize, usize)>, walls: Seq<(usize, usize)>)
    ensures
        earliest(cs, balls, walls) is None <==> forall|k: int|
            0 <= k < cs.len() ==> is_ignored(#[trigger] cs[k].event, balls, walls),
        earliest(cs, balls, walls) is Some ==> {
            let m = earliest(cs, balls, walls).unwrap();
            &&& forall|k: int|
                0 <= k < cs.len() && !is_ignored(#[trigger] cs[k].event, balls, walls) ==> m <= cs[k].toi
            &&& exists|k: int|
                0 <= k < cs.len() && !is_ignored(#[trigger] cs[k].event, balls, walls) && cs[k].toi == m
        },
    decreases cs.len(),
{
    if cs.len() > 0 {
        let d = cs.drop_last();
        lemma_earliest_is_min(d, balls, walls);
        let last = cs.len() - 1;
        let ign = is_ignored(cs[last].event, balls, walls);
        assert forall|k: int| 0 <= k < last implies #[trigger] cs[k] == d[k] by {}
        if earliest(cs, balls, walls) is Some {
            let m = earliest(cs, balls, walls).unwrap();
            assert forall|k: int|
                0 <= k < cs.len() && !is_ignored(#[trigger] cs[k].event, balls, walls) implies m
                <= cs[k].toi by {
                if k < last {
                    assert(cs[k] == d[k]);
                    assert(!is_ignored(d[k].event, balls, walls));
                }
            }
            if earliest(d, balls, walls) is Some && (ign || m != cs[last].toi) {
                let k0 = choose|k: int|
                    0 <= k < d.len() && !is_ignored(#[trigger] d[k].event, balls, walls) && d[k].toi
                        == earliest(d, balls, walls).unwrap();
                assert(cs[k0] == d[k0]);
                assert(!is_ignored(cs[k0].event, balls, walls) && cs[k0].toi == m);
            } else {
                assert(!is_ignored(cs[last].event, balls, walls) && cs[last].toi == m);
            }
        } else {
            assert forall|k: int| 0 <= k < cs.len() implies is_ignored(#[trigger] cs[k].event, balls, walls) by {
                if k < last {
                    assert(cs[k] == d[k]);
                }
            }
        }
    }
}

/// Every event of the batch is a candidate that is not ignored and whose
/// time lies within the margin after `m`. So a ball that offers no candidate
/// (one at rest, say) takes part in no resolved event.
pub proof fn lemma_batch_from_candidates(
    cs: Seq<Candidate>,
    m: u64,
    balls: Seq<(usize, usize)>,
    walls: Seq<(usize, usize)>,
)
    ensures
        forall|i: int|
            0 <= i < batch(cs, m, balls, walls).len() ==> exists|k: int|
                0 <= k < cs.len() && #[trigger] cs[k].event == #[trigger] batch(cs, m, balls, walls)[i]
                    && !is_ignored(cs[k].event, balls, walls) && within(cs[k].toi, m),
    decreases cs.len(),
{
    if cs.len() > 0 {
        let d = cs.drop_last();
        lemma_batch_from_candidates(d, m, balls, walls);
        let b = batch(cs, m, balls, walls);
        let bd = batch(d, m, balls, walls);
        assert forall|i: int| 0 <= i < b.len() implies exists|k: int|
            0 <= k < cs.len() && #[trigger] cs[k].event == #[trigger] b[i] && !is_ignored(
                cs[k].event,
                balls,
                walls,
            ) && within(cs[k].toi, m) by {
            if i < bd.len() {
                assert(b[i] == bd[i]);
                let k = choose|k: int|
                    0 <= k < d.len() && #[trigger] d[k].event == #[trigger] bd[i] && !is_ignored(
                        d[k].event,
                        balls,
                        walls,
                    ) && within(d[k].toi, m);
                assert(cs[k] == d[k]);
            } else {
                assert(cs[cs.len() - 1].event == b[i]);
            }
        }
    }
}

/// Every pair that a batch resolves is on the settled ignore-lists: each
/// collision's ball pair, and each wall hit's ball-wall pair.
pub proof fn lemma_settle_records_resolved(
    events: Seq<Event>,
    balls: Seq<(usize, usize)>,
    walls: Seq<(usize, usize)>,
)
    ensures
        forall|i: int|
            0 <= i < events.len() ==> recorded(
                #[trigger] events[i],
                settle(events, balls, walls).0,
                settle(events, balls, walls).1,
            ),
    decreases events.len(),
{
    if events.len() > 0 {
        let d = events.drop_last();
        lemma_settle_records_resolved(d, balls, walls);
        let (b, w) = settle(events, balls, walls);
        let u = untouched(balls, events);
        let cp = collision_pairs(events);
        let cpd = collision_pairs(d);
        let wp = wall_pairs(events);
        let wpd = wall_pairs(d);
        assert forall|i: int| 0 <= i < events.len() implies recorded(#[trigger] events[i], b, w) by {
            if i < d.len() {
                assert(events[i] == d[i]);
                match d[i] {
                    Event::BallCollision(x, y) => {
                        lemma_pair_in_pairs(d, i, x, y);
                        let k = choose|k: int| 0 <= k < cpd.len() && cpd[k] == (x, y);
                        assert(cp[k] == cpd[k]);
                        assert(b[u.len() + k] == (x, y));
                    },
                    Event::BallStopped(_) => {},
                    Event::BallStaticCollision(x, k0) => {
                        lemma_wall_in_pairs(d, i, x, k0);
                        let k = choose|k: int| 0 <= k < wpd.len() && wpd[k] == (x, k0);
                        assert(wp[k] == wpd[k]);
                        assert(w[walls.len() + k] == (x, k0));
                    },
                }
            } else {
                match events[i] {
                    Event::BallCollision(x, y) => {
                        assert(b[(u.len() + cpd.len()) as int] == (x, y));
                    },
                    Event::BallStopped(_) => {},
                    Event::BallStaticCollision(x, k0) => {
                        assert(w[(walls.len() + wpd.len()) as int] == (x, k0));
                    },
                }
            }
        }
    }
}

/// A collision at position `i` of `events` has its pair in
/// `collision_pairs(events)`.
proof fn lemma_pair_in_pairs(events: Seq<Event>, i: int, x: usize, y: usize)
    requires
        0 <= i < events.len(),
        events[i] == Event::BallCollision(x, y),
    ensures
        exists|k: int| 0 <= k < collision_pairs(events).len() && collision_pairs(events)[k] == (x, y),
    decreases events.len(),
{
    let d = events.drop_last();
    if i < d.len() {
        assert(d[i] == events[i]);
        lemma_pair_in_pairs(d, i, x, y);
        let k = choose|k: int| 0 <= k < collision_pairs(d).len() && collision_pairs(d)[k] == (x, y);
        assert(collision_pairs(events)[k] == (x, y));
    } else {
        assert(collision_pairs(events)[collision_pairs(d).len() as int] == (x, y));
    }
}

/// A wall hit at position `i` of `events` has its pair in
/// `wall_pairs(events)`.
proof fn lemma_wall_in_pairs(events: Seq<Event>, i: int, x: usize, w: usize)
    requires
        0 <= i < events.len(),
        events[i] == Event::BallStaticCollision(x, w),
    ensures
        exists|k: int| 0 <= k < wall_pairs(events).len() && wall_pairs(events)[k] == (x, w),
    decreases events.len(),
{
    let d = events.drop_last();
    if i < d.len() {
        assert(d[i] == events[i]);
        lemma_wall_in_pairs(d, i, x, w);
        let k = choose|k: int| 0 <= k < wall_pairs(d).len() && wall_pairs(d)[k] == (x, w);
        assert(wall_pairs(events)[k] == (x, w));
    } else {
        assert(wall_pairs(events)[wall_pairs(d).len() as int] == (x, w));
    }
}

} // verus!
