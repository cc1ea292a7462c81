use minigolf::components::{BallComponent, CollisionResolver, MoveSystem, PlayerController};
use minigolf::scene::MyWorld;
use minigolf::ecs::{Entity, VecStorage, VecWriter, ReadAccess, WriteAccess};
use minigolf::gfx::TextureId;
use minigolf::session::{
    advance_clock, cooldown, fixed_interval, on_reply, poll_tick, replay_order, restart_due, GameState, Reply,
    CLOCK_LOOP, GAME_OVER_DELAY, POLL_INTERVAL, PUTT_COOLDOWN,
};
use minigolf::tiledata;
use minigolf::tilemap::{Object, ObjectGroup};
use minigolf::world::World;

#[test]
fn clock_loops_after_thirty_seconds() {
    assert_eq!(CLOCK_LOOP, 30_000_000_000);
    assert_eq!(advance_clock(0, 16_000_000), 16_000_000);
    assert_eq!(advance_clock(CLOCK_LOOP - 1, 1), 0);
    assert_eq!(advance_clock(CLOCK_LOOP - 2, 1), CLOCK_LOOP - 1);
    assert_eq!(advance_clock(u64::MAX, u64::MAX), 0);
}

#[test]
fn putt_cooldown() {
    assert_eq!(cooldown(0, 500_000_000), (500_000_000, false));
    assert_eq!(cooldown(500_000_000, 500_000_000), (PUTT_COOLDOWN, true));
    assert_eq!(cooldown(u64::MAX, 1), (u64::MAX, true));
}

#[test]
fn poll_fires_once_a_second() {
    assert_eq!(poll_tick(0, 999_999_999), (999_999_999, false));
    assert_eq!(poll_tick(999_999_999, 1), (0, true));
    assert_eq!(poll_tick(0, POLL_INTERVAL * 3), (0, true));
}

#[test]
fn replies_set_the_game_state() {
    assert_eq!(on_reply(Reply::WaitingForPlayers, 0), (GameState::Waiting, false));
    assert_eq!(on_reply(Reply::Warmup, 3), (GameState::Warmup, false));
    assert_eq!(on_reply(Reply::Play(2), 2), (GameState::Play, false));
    assert_eq!(on_reply(Reply::Play(3), 2), (GameState::Play, true));
    assert_eq!(on_reply(Reply::GameOver(7), 2), (GameState::GameOver(7), false));
}

#[test]
fn new_game_after_game_over_delay() {
    assert!(!restart_due(GameState::Play));
    assert!(!restart_due(GameState::GameOver(GAME_OVER_DELAY - 1)));
    assert!(restart_due(GameState::GameOver(GAME_OVER_DELAY)));
}

#[test]
fn putts_replay_by_time_stably() {
    assert_eq!(replay_order(&vec![]), Vec::<usize>::new());
    assert_eq!(replay_order(&vec![30, 10, 20, 10, 0]), vec![4, 1, 3, 2, 0]);
    assert_eq!(replay_order(&vec![5, 5, 5]), vec![0, 1, 2]);
}

#[test]
fn storage_set_fetch_unset_clear() {
    let mut s: VecStorage<u32> = VecStorage::new();
    {
        let mut w = s.write();
        w.set(Entity(0), 10);
        w.set(Entity(3), 13);
        w.set(Entity(0), 11);
    }
    {
        let r = s.read();
        assert_eq!(r.fetch(Entity(0)), Some(&11));
        assert_eq!(r.fetch(Entity(1)), None);
        assert_eq!(r.fetch(Entity(2)), None);
        assert_eq!(r.fetch(Entity(3)), Some(&13));
        assert_eq!(r.fetch(Entity(4)), None);
        assert_eq!(r.entities(), vec![Entity(0), Entity(3)]);
    }
    {
        let mut w = s.write();
        w.unset(Entity(0));
        w.unset(Entity(9));
    }
    assert_eq!(s.read().entities(), vec![Entity(3)]);
    s.write().clear();
    assert_eq!(s.read().entities(), vec![]);
}

#[test]
fn writer_through_the_traits() {
    let mut data: Vec<Option<u8>> = Vec::new();
    {
        let mut w = VecWriter::new(&mut data);
        WriteAccess::set(&mut w, Entity(1), 5);
    }
    assert_eq!(data, vec![None, Some(5)]);
    let s: VecStorage<u8> = VecStorage::default();
    assert_eq!(ReadAccess::fetch(&s.read(), Entity(0)), None);
}

#[test]
fn entity_builder_adds_components() {
    let world = MyWorld::new();
    let b = world.add_entity();
    assert_eq!(b.new_entity(), Entity(0));
    let world = b
        .with_component(BallComponent { index: 0, hidden: false })
        .with_component(PlayerController {})
        .add_entity()
        .with_component(BallComponent { index: 1, hidden: true })
        .build();
    assert_eq!(world.entities(), &[Entity(0), Entity(1)]);
    assert_eq!(world.balls().read().fetch(Entity(1)), Some(&BallComponent { index: 1, hidden: true }));
    assert_eq!(world.balls().read().entities(), vec![Entity(0), Entity(1)]);
    assert_eq!(world.controllers().read().entities(), vec![Entity(0)]);
    assert!(world.walls().read().entities().is_empty());
    assert!(world.indicators().read().entities().is_empty());
}

#[test]
fn removed_entities_leave_the_list() {
    let mut world = MyWorld::new().add_entity().add_entity().add_entity().build();
    world.remove_entity(Entity(1));
    assert_eq!(world.entities(), &[Entity(0), Entity(2)]);
    let b = world.add_entity();
    assert_eq!(b.new_entity(), Entity(3));
}

#[test]
fn small_types() {
    assert_eq!(TextureId::from(4), TextureId(4));
    assert_eq!(usize::from(TextureId(9)), 9);
    assert_eq!(Entity(7).id(), 7);
    assert_eq!(MoveSystem::new(), MoveSystem {});
    assert_eq!(CollisionResolver::new(), CollisionResolver {});
    let data = tiledata::Object { id: 1, x: 2, y: 3, width: 4, height: 5 };
    assert_eq!(Object::from_data(data), Object {});
    let group = tiledata::ObjectGroup { draworder: tiledata::DrawOrder::Index, id: 1, object: vec![data] };
    assert_eq!(ObjectGroup::from_data(&group), ObjectGroup {});
}

#[test]
fn fixed_interval_runs_at_most_once_a_frame() {
    assert_eq!(fixed_interval(0, 10, 16), (10, false));
    assert_eq!(fixed_interval(10, 10, 16), (4, true));
    assert_eq!(fixed_interval(0, 50, 16), (34, true));
    assert_eq!(fixed_interval(0, 0, 0), (0, true));
}
