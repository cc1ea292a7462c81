use minigolf::events::{select_step, Candidate, Event, EVENT_MARGIN, NANOS_PER_SEC};
use minigolf::timeline::{Snapshot, Timeline, FOREVER, MAX_SNAPSHOTS};

fn cand(event: Event, toi: u64) -> Candidate {
    Candidate { event, toi }
}

fn secs(s: f64) -> u64 {
    (s * NANOS_PER_SEC as f64).round() as u64
}

#[test]
fn it_works() {
    assert_eq!(2 + 2, 4);
}

#[test]
fn no_candidates_means_no_event() {
    assert!(select_step(&vec![], &vec![], &vec![]).is_none());
}

#[test]
fn ball_at_rest_yields_no_event() {
    // A resting ball offers no stop, wall or ball candidate at all.
    let t: Timeline<(f64, f64)> = Timeline::new(vec![(0.0, 0.0)]);
    assert!(t.next_step(&vec![]).is_none());
}

#[test]
fn head_on_pair_collides_first() {
    // Two balls of radius 21.335 at x = 300 and x = 600 closing at 100 each.
    let v = 100.0;
    let toi = secs((300.0 - 2.0 * 21.335) / (2.0 * v));
    assert_eq!(toi, 1_286_650_000);
    let cs = vec![
        cand(Event::BallStopped(0), secs(20.0)),
        cand(Event::BallStopped(1), secs(20.0)),
        cand(Event::BallCollision(0, 1), toi),
    ];
    let s = select_step(&cs, &vec![], &vec![]).unwrap();
    assert_eq!(s.time, toi);
    assert_eq!(s.events, vec![Event::BallCollision(0, 1)]);
    assert_eq!(s.ignore_collisions, vec![(0, 1)]);
    assert!(s.ignore_wall_collisions.is_empty());
}

#[test]
fn wall_hit_is_selected_and_ignored_next() {
    let cs = vec![
        cand(Event::BallStopped(0), secs(10.19)),
        cand(Event::BallStaticCollision(0, 0), secs(2.0)),
        cand(Event::BallStaticCollision(0, 1), secs(7.0)),
    ];
    let s = select_step(&cs, &vec![], &vec![]).unwrap();
    assert_eq!(s.time, secs(2.0));
    assert_eq!(s.events, vec![Event::BallStaticCollision(0, 0)]);
    assert_eq!(s.ignore_wall_collisions, vec![(0, 0)]);
}

#[test]
fn slow_ball_stops() {
    let cs = vec![cand(Event::BallStopped(0), 203_873)];
    let s = select_step(&cs, &vec![], &vec![]).unwrap();
    assert_eq!(s.time, 203_873);
    assert_eq!(s.events, vec![Event::BallStopped(0)]);
    assert!(s.ignore_collisions.is_empty());
}

#[test]
fn events_within_margin_resolve_together() {
    let cs = vec![
        cand(Event::BallStopped(2), 5_000_000 + EVENT_MARGIN),
        cand(Event::BallStopped(1), 5_000_000 + EVENT_MARGIN + 1),
        cand(Event::BallCollision(0, 1), 5_000_000),
    ];
    let s = select_step(&cs, &vec![], &vec![]).unwrap();
    assert_eq!(s.time, 5_000_000);
    assert_eq!(s.events, vec![Event::BallStopped(2), Event::BallCollision(0, 1)]);
}

#[test]
fn ignored_pair_does_not_set_the_time_but_stays_ignored() {
    let cs = vec![
        cand(Event::BallCollision(1, 0), 0),
        cand(Event::BallStaticCollision(2, 3), 10),
        cand(Event::BallStopped(0), 400_000),
        cand(Event::BallCollision(2, 4), 9 * NANOS_PER_SEC),
    ];
    let ib = vec![(0, 1), (2, 4)];
    let iw = vec![(2, 3)];
    let s = select_step(&cs, &ib, &iw).unwrap();
    assert_eq!(s.time, 400_000);
    assert_eq!(s.events, vec![Event::BallStopped(0)]);
    // (1, 0) and the wall pair are still within the margin; (2, 4) is not.
    assert_eq!(s.ignore_collisions, vec![(1, 0)]);
    assert_eq!(s.ignore_wall_collisions, vec![(2, 3)]);
}

#[test]
fn everything_ignored_means_no_event() {
    let cs = vec![cand(Event::BallCollision(0, 1), 0)];
    assert!(select_step(&cs, &vec![(0, 1)], &vec![]).is_none());
}

#[test]
fn collision_drops_ignored_pairs_of_its_balls() {
    let cs = vec![
        cand(Event::BallCollision(0, 2), 0),
        cand(Event::BallCollision(3, 4), 0),
        cand(Event::BallCollision(0, 1), 100),
    ];
    let s = select_step(&cs, &vec![(0, 2), (3, 4)], &vec![]).unwrap();
    assert_eq!(s.events, vec![Event::BallCollision(0, 1)]);
    assert_eq!(s.ignore_collisions, vec![(3, 4), (0, 1)]);
}

#[test]
fn every_pair_resolved_together_is_ignored() {
    let cs = vec![
        cand(Event::BallCollision(0, 1), 50),
        cand(Event::BallCollision(1, 2), 50),
        cand(Event::BallStaticCollision(2, 7), 60),
    ];
    let s = select_step(&cs, &vec![], &vec![]).unwrap();
    assert_eq!(s.events.len(), 3);
    assert_eq!(s.ignore_collisions, vec![(0, 1), (1, 2)]);
    assert_eq!(s.ignore_wall_collisions, vec![(2, 7)]);
}

#[test]
fn step_cap_ends_the_chain() {
    let mut t: Timeline<u8> = Timeline::new(vec![1]);
    let cs = vec![cand(Event::BallStopped(0), 1)];
    let mut n = 0;
    while let Some(step) = t.next_step(&cs) {
        t.push_step(step, vec![1]);
        n += 1;
    }
    assert_eq!(n, MAX_SNAPSHOTS - 1);
    assert_eq!(t.len(), MAX_SNAPSHOTS);
    assert_eq!(t.last().end_time, FOREVER);
}

#[test]
fn step_past_the_end_of_time_is_refused() {
    let mut t: Timeline<u8> = Timeline::new(vec![1]);
    let step = select_step(&vec![cand(Event::BallStopped(0), FOREVER - 5)], &vec![], &vec![]).unwrap();
    t.push_step(step, vec![2]);
    let cs = vec![cand(Event::BallStopped(0), 6)];
    assert!(t.next_step(&cs).is_none());
}

fn build(times: &[u64]) -> Timeline<u32> {
    let mut t = Timeline::new(vec![0]);
    for (i, &dt) in times.iter().enumerate() {
        let step = t.next_step(&vec![cand(Event::BallStopped(0), dt)]).unwrap();
        t.push_step(step, vec![i as u32 + 1]);
    }
    t
}

#[test]
fn timeline_is_contiguous() {
    let t = build(&[5, 0, 7, 3]);
    assert_eq!(t.len(), 5);
    assert_eq!(t.snapshot(0).start_time, 0);
    for i in 0..t.len() - 1 {
        assert_eq!(t.snapshot(i).end_time, t.snapshot(i + 1).start_time);
        assert_eq!(t.snapshot(i).index, i);
    }
    assert_eq!(t.snapshot(3).start_time, 12);
    assert_eq!(t.last().start_time, 15);
    assert_eq!(t.last().end_time, FOREVER);
}

#[test]
fn building_twice_gives_the_same_timeline() {
    let a = build(&[5, 0, 7, 3]);
    let b = build(&[5, 0, 7, 3]);
    assert_eq!(a.len(), b.len());
    for i in 0..a.len() {
        let (x, y) = (a.snapshot(i), b.snapshot(i));
        assert_eq!((x.start_time, x.end_time, &x.balls), (y.start_time, y.end_time, &y.balls));
        assert_eq!(x.ignore_collisions, y.ignore_collisions);
    }
}

#[test]
fn sampling_finds_the_covering_snapshot() {
    let t = build(&[5, 0, 7, 3]);
    assert_eq!(t.locate(0), (0, 0));
    assert_eq!(t.locate(4), (0, 4));
    assert_eq!(t.locate(5), (0, 5));
    assert_eq!(t.locate(6), (2, 1));
    assert_eq!(t.locate(100), (4, 85));
    assert_eq!(t.covering(FOREVER), 4);
}

#[test]
fn splice_keeps_what_ended_before() {
    let mut t = build(&[5, 0, 7, 3]);
    let before: Vec<Snapshot<u32>> = (0..t.len()).map(|i| t.snapshot(i).clone()).collect();
    assert_eq!(t.split_point(5), 2);
    let at = t.splice(5, vec![99]);
    assert_eq!(at, 2);
    assert_eq!(t.len(), 4);
    for k in 0..2 {
        assert_eq!(t.snapshot(k).end_time, before[k].end_time);
        assert_eq!(t.snapshot(k).balls, before[k].balls);
    }
    assert_eq!(t.snapshot(2).start_time, 5);
    assert_eq!(t.snapshot(2).end_time, 5);
    assert_eq!(t.last().start_time, 5);
    assert_eq!(t.last().end_time, FOREVER);
    assert_eq!(t.last().balls, vec![99]);
    assert_eq!(t.last().index, 3);
}

#[test]
fn splice_inside_an_interval_carries_its_ignore_lists() {
    let mut t = Timeline::new(vec![0u32]);
    let cs = vec![cand(Event::BallCollision(0, 1), 10), cand(Event::BallStaticCollision(1, 2), 10)];
    let step = t.next_step(&cs).unwrap();
    t.push_step(step, vec![1]);
    let step = t.next_step(&vec![cand(Event::BallStopped(0), 20)]).unwrap();
    t.push_step(step, vec![2]);
    let at = t.splice(15, vec![7]);
    assert_eq!(at, 1);
    assert_eq!(t.len(), 3);
    assert_eq!(t.snapshot(1).end_time, 15);
    assert_eq!(t.last().ignore_collisions, vec![(0, 1)]);
    assert_eq!(t.last().ignore_wall_collisions, vec![(1, 2)]);
    assert_eq!(t.last().start_time, 15);
}

#[test]
fn new_snapshot_starts_at_zero() {
    let s = Snapshot::new(vec![1u8, 2]);
    assert_eq!((s.start_time, s.end_time, s.index), (0, FOREVER, 0));
    assert!(s.ignore_collisions.is_empty() && s.ignore_wall_collisions.is_empty());
}
