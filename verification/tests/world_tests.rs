use rusty_crabs::world::{shift, HEIGHT, MARGIN, STEP, WIDTH};
use rusty_crabs::{Actions, Me, Player, PlayerId, Position, SessionId, Spawn, WorldState};

#[test]
fn the_field_has_its_documented_size() {
    assert_eq!(WIDTH, 800);
    assert_eq!(HEIGHT, 600);
    assert_eq!(MARGIN, 53);
    assert_eq!(STEP, 10);
}

#[test]
fn a_player_is_spawned_once() {
    let mut world = WorldState::new();
    assert_eq!(world.len(), 0);
    assert!(world.spawn(PlayerId(1), 10, 20, Some(SessionId(7))));
    assert!(!world.spawn(PlayerId(1), 99, 99, Some(SessionId(8))));
    assert_eq!(world.len(), 1);
    assert_eq!(
        world.get(PlayerId(1)),
        Some(Player { id: PlayerId(1), x: 10, y: 20, session: Some(SessionId(7)) })
    );
    assert_eq!(world.get(PlayerId(2)), None);
}

#[test]
fn only_the_named_player_moves() {
    let mut world = WorldState::new();
    world.spawn(PlayerId(1), 0, 0, None);
    world.spawn(PlayerId(2), 5, 5, None);
    assert!(world.update_position(PlayerId(2), 30, -40));
    assert!(!world.update_position(PlayerId(3), 1, 1));
    assert_eq!(
        world.snapshot(),
        vec![
            Position { id: PlayerId(1), x: 0, y: 0 },
            Position { id: PlayerId(2), x: 35, y: -35 },
        ]
    );
}

#[test]
fn movement_is_not_held_inside_the_field() {
    let mut world = WorldState::new();
    world.spawn(PlayerId(1), 346, 246, None);
    for _ in 0..1000 {
        world.update_position(PlayerId(1), 10, 10);
    }
    assert_eq!(world.snapshot(), vec![Position { id: PlayerId(1), x: 10346, y: 10246 }]);
}

#[test]
fn coordinates_stop_at_the_ends_of_their_range() {
    assert_eq!(shift(i32::MAX - 3, 10), i32::MAX);
    assert_eq!(shift(i32::MIN + 3, -10), i32::MIN);
    assert_eq!(shift(i32::MAX, i32::MIN), -1);
    assert_eq!(shift(-5, 15), 10);
    let mut world = WorldState::new();
    world.spawn(PlayerId(1), i32::MAX - 5, i32::MIN + 5, None);
    world.update_position(PlayerId(1), 10, -10);
    assert_eq!(
        world.snapshot(),
        vec![Position { id: PlayerId(1), x: i32::MAX, y: i32::MIN }]
    );
}

#[test]
fn the_movement_of_the_counters_is_right_minus_left_and_up_minus_down() {
    assert_eq!(Actions { w: 2, a: 0, s: 0, d: 5 }.delta(), (50, 20));
    assert_eq!(Actions { w: 1, a: 4, s: 3, d: 1 }.delta(), (-30, -20));
    assert_eq!(Actions { w: 0, a: 0, s: 0, d: 0 }.delta(), (0, 0));
    assert_eq!(
        Actions { w: i16::MAX, a: i16::MAX, s: i16::MIN, d: i16::MIN }.delta(),
        (-655350, 655350)
    );
}

#[test]
fn a_despawned_player_is_gone_and_the_others_stay() {
    let mut world = WorldState::new();
    world.spawn(PlayerId(1), 1, 1, None);
    world.spawn(PlayerId(2), 2, 2, None);
    world.spawn(PlayerId(3), 3, 3, None);
    assert!(world.despawn(PlayerId(2)));
    assert!(!world.despawn(PlayerId(2)));
    assert_eq!(
        world.snapshot(),
        vec![Position { id: PlayerId(1), x: 1, y: 1 }, Position { id: PlayerId(3), x: 3, y: 3 }]
    );
    assert!(world.spawn(PlayerId(2), 9, 9, None));
    assert_eq!(world.len(), 3);
}

#[test]
fn an_empty_world_has_an_empty_snapshot() {
    assert_eq!(WorldState::new().snapshot(), vec![]);
}

#[test]
fn the_mirror_follows_spawns_and_positions() {
    let mut mirror = WorldState::new();
    assert!(!mirror.apply_position(&Position { id: PlayerId(4), x: 1, y: 1 }));
    assert!(mirror.apply_spawn(&Spawn { id: PlayerId(4), x: -3, y: 8 }));
    assert!(!mirror.apply_spawn(&Spawn { id: PlayerId(4), x: 0, y: 0 }));
    assert_eq!(
        mirror.get(PlayerId(4)),
        Some(Player { id: PlayerId(4), x: -3, y: 8, session: None })
    );
    assert!(mirror.apply_position(&Position { id: PlayerId(4), x: 100, y: -100 }));
    assert_eq!(mirror.snapshot(), vec![Position { id: PlayerId(4), x: 100, y: -100 }]);
}

#[test]
fn marking_self_twice_is_marking_once() {
    let mut mirror = WorldState::new();
    assert_eq!(mirror.local_player(), None);
    assert!(!mirror.is_self(PlayerId(1)));
    mirror.apply_spawn(&Spawn { id: PlayerId(1), x: 0, y: 0 });
    mirror.apply_spawn(&Spawn { id: PlayerId(2), x: 0, y: 0 });
    mirror.mark_self(PlayerId(1));
    let once = (mirror.local_player(), mirror.snapshot());
    mirror.mark_self(PlayerId(1));
    assert_eq!((mirror.local_player(), mirror.snapshot()), once);
    assert_eq!(mirror.local_player(), Some(Me(PlayerId(1))));
    assert!(mirror.is_self(PlayerId(1)));
    assert!(!mirror.is_self(PlayerId(2)));
    mirror.mark_self(PlayerId(2));
    assert!(!mirror.is_self(PlayerId(1)));
    assert!(mirror.is_self(PlayerId(2)));
}
