use flowstate::sim::{clamp_dir, World, StepInput};
use flowstate::fp::canonicalize_f64;

fn b(x: f64) -> u64 {
    x.to_bits()
}

fn f(bits: u64) -> f64 {
    f64::from_bits(bits)
}

#[test]
fn test_t0_04_wasd_deterministic_movement() {
    const TICK_RATE_HZ: u32 = 60;
    const SEED: u64 = 0;
    const NUM_TICKS: u64 = 10;

    let mut world = World::new(SEED, TICK_RATE_HZ);
    let player_id: u8 = 0;
    world.spawn_character(player_id);

    let input = StepInput { player_id, move_dir: [b(1.0), b(0.0)] };

    for tick in 0..NUM_TICKS {
        let _ = world.advance(tick, &vec![input]);
    }

    let dt = 1.0 / f64::from(TICK_RATE_HZ);
    let expected_x = f64::from(NUM_TICKS as u32) * 5.0 * dt;
    let expected_y = 0.0;

    let snapshot = world.baseline();
    assert_eq!(snapshot.entities.len(), 1);
    let entity = &snapshot.entities[0];

    assert_eq!(
        f(entity.position[0]),
        expected_x,
        "Position X mismatch: got {}, expected {}",
        f(entity.position[0]),
        expected_x
    );
    assert_eq!(
        f(entity.position[1]),
        expected_y,
        "Position Y mismatch: got {}, expected {}",
        f(entity.position[1]),
        expected_y
    );
}

#[test]
fn test_t0_04_determinism_multiple_runs() {
    const TICK_RATE_HZ: u32 = 60;
    const SEED: u64 = 42;
    const NUM_TICKS: u64 = 100;

    fn run_simulation() -> (Vec<flowstate::sim::EntitySnapshot>, u64) {
        let mut world = World::new(SEED, TICK_RATE_HZ);
        world.spawn_character(0);
        world.spawn_character(1);

        let inputs = vec![
            StepInput { player_id: 0, move_dir: [b(1.0), b(0.0)] },
            StepInput { player_id: 1, move_dir: [b(0.0), b(1.0)] },
        ];

        for tick in 0..NUM_TICKS {
            let _ = world.advance(tick, &inputs);
        }

        let baseline = world.baseline();
        (baseline.entities, baseline.digest)
    }

    let (entities1, digest1) = run_simulation();
    let (entities2, digest2) = run_simulation();

    assert_eq!(entities1, entities2, "Entity snapshots differ between runs");
    assert_eq!(digest1, digest2, "State digests differ between runs");
}

#[test]
fn test_t0_17_playerid_non_assumption() {
    const TICK_RATE_HZ: u32 = 60;
    const SEED: u64 = 0;

    let mut world = World::new(SEED, TICK_RATE_HZ);

    let player_a: u8 = 17;
    let player_b: u8 = 99;

    let entity_a = world.spawn_character(player_a);
    let entity_b = world.spawn_character(player_b);

    assert!(entity_a > 0);
    assert!(entity_b > 0);
    assert_ne!(entity_a, entity_b);

    let inputs = vec![
        StepInput { player_id: player_a, move_dir: [b(1.0), b(0.0)] },
        StepInput { player_id: player_b, move_dir: [b(0.0), b(1.0)] },
    ];

    let snapshot = world.advance(0, &inputs);
    assert_eq!(snapshot.tick, 1);
    assert_eq!(snapshot.entities.len(), 2);

    let dt = 1.0 / f64::from(TICK_RATE_HZ);
    let expected_movement = 5.0 * dt;

    let entity_a_snapshot = snapshot.entities.iter().find(|e| e.entity_id == entity_a).unwrap();
    assert_eq!(f(entity_a_snapshot.position[0]), expected_movement);
    assert_eq!(f(entity_a_snapshot.position[1]), 0.0);

    let entity_b_snapshot = snapshot.entities.iter().find(|e| e.entity_id == entity_b).unwrap();
    assert_eq!(f(entity_b_snapshot.position[0]), 0.0);
    assert_eq!(f(entity_b_snapshot.position[1]), expected_movement);
}

#[test]
fn test_state_digest_deterministic() {
    let mut world1 = World::new(0, 60);
    let mut world2 = World::new(0, 60);

    world1.spawn_character(0);
    world2.spawn_character(0);

    assert_eq!(world1.state_digest(), world2.state_digest());

    let input = StepInput { player_id: 0, move_dir: [b(1.0), b(0.0)] };

    world1.advance(0, &vec![input]);
    world2.advance(0, &vec![input]);

    assert_eq!(world1.state_digest(), world2.state_digest());
}

#[test]
fn test_state_digest_changes_with_state() {
    let mut world = World::new(0, 60);
    world.spawn_character(0);

    let digest_before = world.state_digest();

    let input = StepInput { player_id: 0, move_dir: [b(1.0), b(0.0)] };
    world.advance(0, &vec![input]);

    let digest_after = world.state_digest();

    assert_ne!(digest_before, digest_after, "Digest should change after state change");
}

#[test]
fn test_f64_canonicalization() {
    assert_eq!(canonicalize_f64(b(-0.0)), canonicalize_f64(b(0.0)));
    assert_eq!(canonicalize_f64(b(-0.0)), 0u64);

    let nan1 = f64::NAN.to_bits();
    let nan2 = 0x7ff0000000000001u64;
    assert_eq!(canonicalize_f64(nan1), canonicalize_f64(nan2));
    assert_eq!(canonicalize_f64(nan1), 0x7ff8000000000000);

    assert_eq!(canonicalize_f64(b(1.0)), 1.0f64.to_bits());
    assert_eq!(canonicalize_f64(b(-1.0)), (-1.0f64).to_bits());
}

#[test]
fn test_world_new_starts_at_tick_zero() {
    let world = World::new(0, 60);
    assert_eq!(world.tick(), 0, "World should start at tick 0");
}

#[test]
fn test_world_tick_rate() {
    let world = World::new(0, 60);
    assert_eq!(world.tick_rate_hz(), 60);

    let world2 = World::new(0, 30);
    assert_eq!(world2.tick_rate_hz(), 30);
}

#[test]
fn test_spawn_character_returns_unique_ids() {
    let mut world = World::new(0, 60);

    let id1 = world.spawn_character(0);
    let id2 = world.spawn_character(1);
    let id3 = world.spawn_character(2);

    assert_ne!(id1, id2);
    assert_ne!(id2, id3);
    assert_ne!(id1, id3);
}

#[test]
fn test_spawn_ids_count_from_one() {
    let mut world = World::new(0, 60);

    let id1 = world.spawn_character(99);
    let id2 = world.spawn_character(3);
    let id3 = world.spawn_character(42);

    assert_eq!(id1, 1);
    assert_eq!(id2, 2);
    assert_eq!(id3, 3);
}

#[test]
fn test_baseline_matches_tick() {
    let world = World::new(0, 60);
    let baseline = world.baseline();
    assert_eq!(baseline.tick, world.tick());
}

#[test]
fn test_advance_increments_tick() {
    let mut world = World::new(0, 60);
    world.spawn_character(0);

    assert_eq!(world.tick(), 0);

    let snapshot = world.advance(0, &vec![]);
    assert_eq!(world.tick(), 1);
    assert_eq!(snapshot.tick, 1);

    let snapshot2 = world.advance(1, &vec![]);
    assert_eq!(world.tick(), 2);
    assert_eq!(snapshot2.tick, 2);
}

#[test]
fn test_entities_sorted_by_entity_id() {
    let mut world = World::new(0, 60);

    world.spawn_character(99);
    world.spawn_character(50);
    world.spawn_character(1);

    let baseline = world.baseline();

    for i in 1..baseline.entities.len() {
        assert!(
            baseline.entities[i - 1].entity_id < baseline.entities[i].entity_id,
            "Entities not sorted by entity_id"
        );
    }
}

#[test]
fn test_movement_clamp_magnitude() {
    let v = clamp_dir([b(2.0), b(0.0)]);
    assert!((f(v[0]) - 1.0).abs() < 1e-10);
    assert!((f(v[1]) - 0.0).abs() < 1e-10);

    let v2 = clamp_dir([b(0.5), b(0.5)]);
    assert_eq!(v2, [b(0.5), b(0.5)]);

    let v3 = clamp_dir([b(0.0), b(0.0)]);
    assert_eq!(v3, [b(0.0), b(0.0)]);
}

#[test]
fn test_t0_05_advance_takes_explicit_tick() {
    let mut world = World::new(0, 60);
    world.spawn_character(0);

    let snapshot = world.advance(0, &vec![]);
    assert_eq!(snapshot.tick, 1);
}

#[test]
fn test_t0_12_empty_inputs_deterministic() {
    fn run_with_gaps() -> u64 {
        let mut world = World::new(0, 60);
        world.spawn_character(0);

        for tick in 0..10 {
            world.advance(tick, &vec![]);
        }

        world.state_digest()
    }

    let digest1 = run_with_gaps();
    let digest2 = run_with_gaps();

    assert_eq!(digest1, digest2);
}

#[test]
fn test_state_digest_formula_empty_world() {
    // FNV-1a 64 over the 8 little-endian bytes of tick 0.
    let world = World::new(0, 60);
    let mut state: u64 = 0xcbf29ce484222325;
    for _ in 0..8 {
        state ^= 0u64;
        state = state.wrapping_mul(0x100000001b3);
    }
    assert_eq!(world.state_digest(), state);
}
