//! The game-flow decisions around the timeline: the looping play clock, the
//! putt cooldown, the network poll tick, the multiplayer game state, and the
//! order in which received putts are replayed.
//!
//! Durations are whole nanoseconds.

use vstd::prelude::*;
use vstd::set_lib::{lemma_int_range, lemma_len_subset, lemma_subset_equality, set_int_range};
use crate::events::NANOS_PER_SEC;

verus! {

/// The play clock starts over after this long (30 s).
pub const CLOCK_LOOP: u64 = 30 * NANOS_PER_SEC;

/// A player may putt at most once per this long (1 s).
pub const PUTT_COOLDOWN: u64 = NANOS_PER_SEC;

/// The server is polled once per this long (1 s).
pub const POLL_INTERVAL: u64 = NANOS_PER_SEC;

/// How long the game-over screen stays before a new game (25 s).
pub const GAME_OVER_DELAY: u64 = 25 * NANOS_PER_SEC;

/// The clock after `delta` has passed: back to zero once it reaches the loop
/// length.
pub fn advance_clock(now: u64, delta: u64) -> (r: u64)
    ensures
        now + delta >= CLOCK_LOOP ==> r == 0,
        now + delta < CLOCK_LOOP ==> r == now + delta,
{
    if delta >= CLOCK_LOOP || now >= CLOCK_LOOP - delta {
        0
    } else {
        now + delta
    }
}

/// A timer that fires once it has run for `period`: the time accumulated
/// after `delta` has passed (zero when it fires), and whether it fired.
pub fn tick(timer: u64, delta: u64, period: u64) -> (r: (u64, bool))
    ensures
        r.1 == (timer + delta >= period),
        r.1 ==> r.0 == 0,
        !r.1 ==> r.0 == timer + delta,
{
    if delta >= period || timer >= period - delta {
        (0, true)
    } else {
        (timer + delta, false)
    }
}

/// The cooldown before a putt: time since the last putt after `delta`, and
/// whether a putt may be made now. It is reset by the putt itself.
pub fn cooldown(since: u64, delta: u64) -> (r: (u64, bool))
    ensures
        r.0 == if since + delta > u64::MAX { u64::MAX as int } else { since + delta },
        r.1 == (since + delta >= PUTT_COOLDOWN),
{
    let t = if delta > u64::MAX - since {
        u64::MAX
    } else {
        since + delta
    };
    (t, t >= PUTT_COOLDOWN)
}

/// The poll timer after `delta`: reset to zero, and a poll due, once a full
/// poll interval has accumulated.
pub fn poll_tick(timer: u64, delta: u64) -> (r: (u64, bool))
    ensures
        r.1 == (timer + delta >= POLL_INTERVAL),
        r.1 ==> r.0 == 0,
        !r.1 ==> r.0 == timer + delta,
{
    tick(timer, delta, POLL_INTERVAL)
}

/// A system run at a fixed interval: the time buffered after `delta` has
/// passed, and whether the system runs this frame. It runs at most once per
/// frame, and each run takes one interval out of the buffer.
pub fn fixed_interval(buffer: u64, delta: u64, interval: u64) -> (r: (u64, bool))
    requires
        buffer + delta <= u64::MAX,
    ensures
        r.1 == (buffer + delta >= interval),
        r.1 ==> r.0 == buffer + delta - interval,
        !r.1 ==> r.0 == buffer + delta,
{
    let total = buffer + delta;
    if total >= interval {
        (total - interval, true)
    } else {
        (total, false)
    }
}

/// Where a multiplayer game stands.
#[derive(Debug, Clone, Copy, PartialEq, Eq, Structural)]
pub enum GameState {
    Waiting,
    Warmup,
    Play,
    /// The game ended; the time is how long ago, as the server reports it.
    GameOver(u64),
}

/// The kind of state that a poll of the server reported, with what the
/// client acts on: the number of putts in play, or the game-over time.
#[derive(Debug, Clone, Copy, PartialEq, Eq, Structural)]
pub enum Reply {
    WaitingForPlayers,
    Warmup,
    Play(usize),
    GameOver(u64),
}

/// The game state after a reply, and whether the timeline must be rebuilt
/// from the putts (their number changed since the last rebuild).
pub open spec fn reply_outcome(reply: Reply, last_put_count: usize) -> (GameState, bool) {
    match reply {
        Reply::WaitingForPlayers => (GameState::Waiting, false),
        Reply::Warmup => (GameState::Warmup, false),
        Reply::Play(n) => (GameState::Play, n != last_put_count),
        Reply::GameOver(t) => (GameState::GameOver(t), false),
    }
}

/// The game state that a reply leads to, and whether the putts must be
/// replayed.
pub fn on_reply(reply: Reply, last_put_count: usize) -> (r: (GameState, bool))
    ensures
        r == reply_outcome(reply, last_put_count),
{
    match reply {
        Reply::WaitingForPlayers => (GameState::Waiting, false),
        Reply::Warmup => (GameState::Warmup, false),
        Reply::Play(n) => (GameState::Play, n != last_put_count),
        Reply::GameOver(t) => (GameState::GameOver(t), false),
    }
}

/// Whether a finished game has been shown long enough to start a new one.
pub fn restart_due(state: GameState) -> (r: bool)
    ensures
        r == match state {
            GameState::GameOver(t) => t >= GAME_OVER_DELAY,
            _ => false,
        },
{
    match state {
        GameState::GameOver(t) => t >= GAME_OVER_DELAY,
        _ => false,
    }
}

/// Putt `a` comes before putt `b` in replay: earlier time first, and by
/// position where the times are equal.
pub open spec fn replays_before(times: Seq<u64>, a: usize, b: usize) -> bool {
    times[a as int] < times[b as int] || (times[a as int] == times[b as int] && a < b)
}

/// `r` lists positions of `times`, as many as there are putts, in strict
/// replay order (so none twice; `lemma_replay_order_complete` shows that
/// every position is there).
pub open spec fn is_replay_order(times: Seq<u64>, r: Seq<usize>) -> bool {
    &&& r.len() == times.len()
    &&& forall|i: int| 0 <= i < r.len() ==> #[trigger] r[i] < times.len()
    &&& forall|i: int, j: int|
        0 <= i < j < r.len() ==> replays_before(times, #[trigger] r[i], #[trigger] r[j])
}

/// The order in which putts with the given times are replayed: by time,
/// keeping the received order among equal times.
pub fn replay_order(times: &Vec<u64>) -> (r: Vec<usize>)
    ensures
        is_replay_order(times@, r@),
{
    let mut r: Vec<usize> = Vec::new();
    let mut k: usize = 0;
    while k < times.len()
        invariant
            k <= times.len(),
            r@.len() == k,
            forall|i: int| 0 <= i < r@.len() ==> #[trigger] r@[i] < k,
            forall|i: int, j: int|
                0 <= i < j < r@.len() ==> replays_before(times@, #[trigger] r@[i], #[trigger] r@[j]),
        decreases times.len() - k,
    {
        let t = times[k];
        let mut p: usize = 0;
        while p < r.len() && times[r[p]] <= t
            invariant
                k < times.len(),
                t == times@[k as int],
                p <= r@.len(),
                r@.len() == k,
                forall|i: int| 0 <= i < r@.len() ==> #[trigger] r@[i] < k,
                forall|i: int| 0 <= i < p ==> times@[#[trigger] r@[i] as int] <= t,
            decreases r@.len() - p,
        {
            p = p + 1;
        }
        proof {
            assert forall|i: int| p <= i < r@.len() implies times@[#[trigger] r@[i] as int] > t by {
                if i > p {
                    assert(replays_before(times@, r@[p as int], r@[i]));
                }
            }
        }
        let ghost before = r@;
        r.insert(p, k);
        proof {
            assert forall|i: int| 0 <= i < r@.len() implies #[trigger] r@[i] < k + 1 by {
                if i < p {
                    assert(r@[i] == before[i]);
                } else if i > p {
                    assert(r@[i] == before[i - 1]);
                }
            }
            assert forall|i: int, j: int| 0 <= i < j < r@.len() implies replays_before(
                times@,
                #[trigger] r@[i],
                #[trigger] r@[j],
            ) by {
                if j < p {
                    assert(replays_before(times@, before[i], before[j]));
                } else if j == p {
                    assert(r@[i] == before[i]);
                    assert(times@[before[i] as int] <= t);
                } else if i < p {
                    assert(replays_before(times@, before[i], before[j - 1]));
                } else if i == p {
                    assert(r@[j] == before[j - 1]);
                    assert(times@[before[j - 1] as int] > t);
                } else {
                    assert(replays_before(times@, before[i - 1], before[j - 1]));
                }
            }
        }
        k = k + 1;
    }
    r
}

/// A replay order holds every putt's position.
pub proof fn lemma_replay_order_complete(times: Seq<u64>, r: Seq<usize>, p: usize)
    requires
        is_replay_order(times, r),
        p < times.len(),
    ensures
        exists|i: int| 0 <= i < r.len() && r[i] == p,
{
    let s = r.map_values(|x: usize| x as int);
    let n = times.len() as int;
    assert(s.no_duplicates()) by {
        assert forall|i: int, j: int| 0 <= i < s.len() && 0 <= j < s.len() && i != j implies s[i]
            != s[j] by {
            if i < j {
                assert(replays_before(times, r[i], r[j]));
            } else {
                assert(replays_before(times, r[j], r[i]));
            }
        }
    }
    s.unique_seq_to_set();
    lemma_int_range(0, n);
    assert(s.to_set().subset_of(set_int_range(0, n))) by {
        assert forall|x: int| s.to_set().contains(x) implies set_int_range(0, n).contains(x) by {
            let i = choose|i: int| 0 <= i < s.len() && s[i] == x;
            assert(r[i] < times.len());
        }
    }
    lemma_len_subset(s.to_set(), set_int_range(0, n));
    lemma_subset_equality(s.to_set(), set_int_range(0, n));
    assert(set_int_range(0, n).contains(p as int));
    let i = choose|i: int| 0 <= i < s.len() && s[i] == p as int;
    assert(r[i] == p);
}

/// Replay order is unique: every client that receives the same putt times
/// replays them in the same order.
pub proof fn lemma_replay_order_unique(times: Seq<u64>, r1: Seq<usize>, r2: Seq<usize>)
    requires
        is_replay_order(times, r1),
        is_replay_order(times, r2),
    ensures
        r1 == r2,
{
    if r1.len() > 0 {
        lemma_replay_orders_agree(times, r1, r2, r1.len() - 1);
    }
    assert(r1 =~= r2);
}

/// Two replay orders agree up to position `i`.
proof fn lemma_replay_orders_agree(times: Seq<u64>, r1: Seq<usize>, r2: Seq<usize>, i: int)
    requires
        is_replay_order(times, r1),
        is_replay_order(times, r2),
        0 <= i < r1.len(),
    ensures
        forall|j: int| 0 <= j <= i ==> r1[j] == r2[j],
    decreases i,
{
    if i > 0 {
        lemma_replay_orders_agree(times, r1, r2, i - 1);
    }
    let a = r1[i];
    let b = r2[i];
    if a != b {
        lemma_replay_order_complete(times, r2, a);
        lemma_replay_order_complete(times, r1, b);
        let j = choose|j: int| 0 <= j < r2.len() && r2[j] == a;
        let k = choose|k: int| 0 <= k < r1.len() && r1[k] == b;
        if j < i {
            assert(r1[j] == r2[j]);
            assert(replays_before(times, r1[j], r1[i]));
        }
        if k < i {
            assert(r1[k] == r2[k]);
            assert(replays_before(times, r2[k], r2[i]));
        }
        assert(replays_before(times, r2[i], r2[j]));
        assert(replays_before(times, r1[i], r1[k]));
    }
}

} // verus!
