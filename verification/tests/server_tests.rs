use flowstate::server::{
    EndReason, Server, ServerConfig, CONNECT_TIMEOUT_MS, INPUT_LEAD_TICKS, TICK_RATE_HZ,
};
use flowstate::wire::{InputCmdProto, SnapshotProto};

fn b(x: f64) -> u64 {
    x.to_bits()
}

#[test]
fn test_t0_01_two_client_handshake() {
    let mut server = Server::new(ServerConfig::default());

    let (session1, player1, entity1) = server.accept_session();
    assert_eq!(player1, 0);
    assert!(entity1 > 0);
    assert_eq!(server.session_count(), 1);

    let (_session2, player2, entity2) = server.accept_session();
    assert_eq!(player2, 1);
    assert!(entity2 > 0);
    assert_ne!(entity1, entity2);
    assert_eq!(server.session_count(), 2);

    let (baseline, welcomes) = server.start_match();
    assert_eq!(baseline.tick, 0);
    assert_eq!(welcomes.len(), 2);

    for (sid, welcome) in &welcomes {
        assert_eq!(welcome.target_tick_floor, INPUT_LEAD_TICKS);
        assert_eq!(welcome.tick_rate_hz, TICK_RATE_HZ);
        if *sid == session1 {
            assert_eq!(welcome.player_id, 0);
            assert_eq!(welcome.controlled_entity_id, entity1);
        } else {
            assert_eq!(welcome.player_id, 1);
            assert_eq!(welcome.controlled_entity_id, entity2);
        }
    }
}

#[test]
fn test_t0_02_join_baseline() {
    let mut server = Server::new(ServerConfig::default());
    server.accept_session();
    server.accept_session();

    let (baseline, _) = server.start_match();

    assert_eq!(baseline.tick, 0);
    assert_eq!(baseline.entities.len(), 2);
    assert!(baseline.digest != 0);
    assert_eq!(baseline.entities[0].entity_id, 1);
    assert_eq!(baseline.entities[1].entity_id, 2);
    assert_eq!(baseline.entities[0].position, [0u64, 0u64]);
    assert_eq!(baseline.entities[1].position, [0u64, 0u64]);
}

#[test]
fn test_t0_05a_tick_floor_relationship() {
    let mut server = Server::new(ServerConfig::default());
    server.accept_session();
    server.accept_session();
    server.start_match();

    let (snapshot, floor, _) = server.step();

    assert_eq!(snapshot.tick, 1);
    assert_eq!(floor, 1 + INPUT_LEAD_TICKS);

    let (snapshot2, floor2, _) = server.step();
    assert_eq!(snapshot2.tick, 2);
    assert_eq!(floor2, 2 + INPUT_LEAD_TICKS);
}

#[test]
fn test_t0_14_disconnect_handling() {
    let mut server = Server::new(ServerConfig::default());
    let (session1, _, _) = server.accept_session();
    server.accept_session();
    server.start_match();

    server.disconnect_session(session1);

    assert!(server.has_disconnect());
    assert_eq!(server.session_count(), 1);
}

#[test]
fn test_t0_15_match_termination() {
    let config = ServerConfig { match_duration_ticks: 10, ..ServerConfig::default() };
    let mut server = Server::new(config);
    server.accept_session();
    server.accept_session();
    server.start_match();

    for _ in 0..10 {
        assert!(server.should_end_match().is_none());
        server.step();
    }

    assert_eq!(server.should_end_match(), Some(EndReason::Complete));
}

#[test]
fn test_t0_17_playerid_test_mode() {
    let config = ServerConfig {
        test_mode: true,
        test_player_ids: Some((17, 99)),
        match_duration_ticks: 10,
        ..ServerConfig::default()
    };
    let mut server = Server::new(config);

    let (_, player1, _) = server.accept_session();
    let (_, player2, _) = server.accept_session();

    assert_eq!(player1, 17);
    assert_eq!(player2, 99);

    server.start_match();

    for _ in 0..5 {
        server.step();
    }

    let artifact = server.finalize(EndReason::Complete);
    assert!(artifact.test_mode);
    assert_eq!(artifact.test_player_ids, vec![17, 99]);
    assert_eq!(artifact.entity_spawn_order, vec![17, 99]);
}

#[test]
fn test_t0_18_floor_coherency_broadcast() {
    let mut server = Server::new(ServerConfig::default());
    server.accept_session();
    server.accept_session();
    server.start_match();

    let (_, floor1, bytes1) = server.step();

    let decoded: SnapshotProto = SnapshotProto::decode(bytes1.as_slice()).unwrap();
    assert_eq!(decoded.target_tick_floor, floor1);

    let (_, floor2, bytes2) = server.step();
    let decoded2: SnapshotProto = SnapshotProto::decode(bytes2.as_slice()).unwrap();
    assert_eq!(decoded2.target_tick_floor, floor2);
    assert!(floor2 > floor1, "Floor should be monotonic increasing");
}

#[test]
fn test_t0_12_lki_fallback() {
    let config = ServerConfig { match_duration_ticks: 10, ..ServerConfig::default() };
    let mut server = Server::new(config);
    server.accept_session();
    server.accept_session();
    server.start_match();

    let (snapshot1, _, _) = server.step();

    for entity in &snapshot1.entities {
        assert_eq!(entity.position, [0u64, 0u64]);
    }

    let artifact = server.finalize(EndReason::Complete);

    assert!(artifact.inputs.iter().all(|i| i.is_fallback));
}

#[test]
fn test_replay_artifact_generation() {
    let config = ServerConfig { match_duration_ticks: 5, ..ServerConfig::default() };
    let mut server = Server::new(config);
    server.accept_session();
    server.accept_session();
    server.start_match();

    while server.should_end_match().is_none() {
        server.step();
    }

    let artifact = server.finalize(EndReason::Complete);

    assert_eq!(artifact.replay_format_version, 1);
    assert!(artifact.initial_baseline.is_some());
    assert_eq!(artifact.tick_rate_hz, 60);
    assert_eq!(artifact.checkpoint_tick, 5);
    assert_eq!(artifact.end_reason, "complete");
    assert_eq!(artifact.inputs.len(), 10);
}

#[test]
fn test_t0_13a_floor_enforcement_recovery() {
    let config = ServerConfig { match_duration_ticks: 20, ..ServerConfig::default() };
    let mut server = Server::new(config);
    let (session1, _, _) = server.accept_session();
    server.accept_session();
    let (_, welcomes) = server.start_match();

    let initial_floor = welcomes[0].1.target_tick_floor;
    assert_eq!(initial_floor, INPUT_LEAD_TICKS);

    for _ in 0..5 {
        server.step();
    }

    let current_tick = 5;
    let current_floor = current_tick + INPUT_LEAD_TICKS;

    let stale_input = InputCmdProto { tick: 2, input_seq: 1, move_dir: vec![b(1.0), b(0.0)] };
    let result = server.receive_input(session1, &stale_input);
    assert!(
        matches!(result, flowstate::validation::ValidationResult::DroppedBelowFloor { .. }),
        "Input below floor should be dropped: {:?}",
        result
    );

    let valid_input = InputCmdProto {
        tick: current_floor,
        input_seq: 2,
        move_dir: vec![b(1.0), b(0.0)],
    };
    let result = server.receive_input(session1, &valid_input);
    assert!(result.is_accepted(), "Input at floor should be accepted: {:?}", result);
}

#[test]
fn test_t0_16_connection_timeout() {
    assert_eq!(CONNECT_TIMEOUT_MS, 30000);

    let mut server = Server::new(ServerConfig::default());
    assert_eq!(server.session_count(), 0);
    assert!(!server.is_ready_to_start());

    server.accept_session();
    assert_eq!(server.session_count(), 1);
    assert!(!server.is_ready_to_start());

    server.accept_session();
    assert_eq!(server.session_count(), 2);
    assert!(server.is_ready_to_start());
}

#[test]
fn test_pre_welcome_and_unknown_session_drops() {
    let mut server = Server::new(ServerConfig::default());
    server.accept_session();
    server.accept_session();

    let input = InputCmdProto { tick: 1, input_seq: 1, move_dir: vec![b(1.0), b(0.0)] };
    let result = server.receive_input(1, &input);
    assert_eq!(result, flowstate::validation::ValidationResult::DroppedPreWelcome);

    server.start_match();
    let result = server.receive_input(999, &input);
    assert_eq!(result, flowstate::validation::ValidationResult::DroppedUnknownSession);
}

#[test]
fn test_tied_seq_falls_back_to_lki() {
    let mut server = Server::new(ServerConfig::default());
    let (session1, _, _) = server.accept_session();
    server.accept_session();
    server.start_match();

    // Two inputs for tick 1 with the same sequence number: tied.
    let input_a = InputCmdProto { tick: 1, input_seq: 7, move_dir: vec![b(1.0), b(0.0)] };
    let input_b = InputCmdProto { tick: 1, input_seq: 7, move_dir: vec![b(0.0), b(1.0)] };
    assert!(server.receive_input(session1, &input_a).is_accepted());
    assert!(server.receive_input(session1, &input_b).is_accepted());

    server.step();
    let (snapshot, _, _) = server.step();

    // The tied slot yields nothing, so the step used last known intent
    // (zero), every applied input is a fallback, and nothing moved.
    for entity in &snapshot.entities {
        assert_eq!(entity.position, [0u64, 0u64]);
    }
    let artifact = server.finalize(EndReason::Complete);
    assert!(artifact.inputs.iter().all(|i| i.is_fallback));
}
