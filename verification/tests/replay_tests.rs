use flowstate::replay::{
    fingerprint_from_parts, get_target_triple, verify_replay, AppliedInput, BuildFingerprintData,
    ReplayConfig, ReplayRecorder, VerifyError, VerifyOptions,
};
use flowstate::server::{EndReason, Server, ServerConfig};
use flowstate::sim::{StepInput, World};
use flowstate::wire::{AppliedInputProto, InputCmdProto, ReplayArtifact};

fn b(x: f64) -> u64 {
    x.to_bits()
}

fn test_replay_config() -> ReplayConfig {
    ReplayConfig {
        seed: 42,
        tick_rate_hz: 60,
        rng_algorithm: "none".to_string(),
        test_mode: false,
        test_player_ids: Vec::new(),
    }
}

fn create_test_artifact() -> ReplayArtifact {
    let mut recorder = ReplayRecorder::new(test_replay_config());

    let mut world = World::new(42, 60);
    let entity1 = world.spawn_character(0);
    let entity2 = world.spawn_character(1);
    recorder.record_spawn(0, entity1);
    recorder.record_spawn(1, entity2);

    recorder.record_baseline(world.baseline());

    for tick in 0..10 {
        recorder.record_input(AppliedInput {
            tick,
            player_id: 0,
            move_dir: [b(1.0), b(0.0)],
            is_fallback: false,
        });
        recorder.record_input(AppliedInput {
            tick,
            player_id: 1,
            move_dir: [b(0.0), b(1.0)],
            is_fallback: false,
        });

        let inputs = vec![
            StepInput { player_id: 0, move_dir: [b(1.0), b(0.0)] },
            StepInput { player_id: 1, move_dir: [b(0.0), b(1.0)] },
        ];
        world.advance(tick, &inputs);
    }

    recorder.finalize(world.state_digest(), world.tick(), "complete")
}

#[test]
fn test_t0_08_replay_artifact_has_required_fields() {
    let artifact = create_test_artifact();

    assert_eq!(artifact.replay_format_version, 1);
    assert!(artifact.initial_baseline.is_some());
    assert_eq!(artifact.seed, 42);
    assert!(!artifact.rng_algorithm.is_empty());
    assert_eq!(artifact.tick_rate_hz, 60);
    assert_eq!(
        artifact.state_digest_algo_id,
        "statedigest-v0-fnv1a64-le-f64canon-eidasc-posvel"
    );
    assert_eq!(artifact.entity_spawn_order.len(), 2);
    assert_eq!(artifact.player_entity_mapping.len(), 2);
    assert!(!artifact.tuning_parameters.is_empty());
    assert_eq!(artifact.inputs.len(), 20);
    assert_eq!(artifact.checkpoint_tick, 10);
    assert_eq!(artifact.end_reason, "complete");
}

#[test]
fn test_t0_09_replay_verification_passes() {
    let artifact = create_test_artifact();
    let options = VerifyOptions { strict_build_check: false, current_build: None };

    let result = verify_replay(&artifact, &options);
    assert!(result.is_ok(), "Replay verification failed: {result:?}");
}

#[test]
fn test_t0_10_initialization_anchor_failure() {
    let mut artifact = create_test_artifact();

    if let Some(ref mut baseline) = artifact.initial_baseline {
        baseline.digest ^= 0xDEADBEEF;
    }

    let options = VerifyOptions { strict_build_check: false, current_build: None };

    let result = verify_replay(&artifact, &options);
    assert!(matches!(result, Err(VerifyError::InitializationAnchorMismatch { .. })));
}

#[test]
fn test_t0_12_lki_determinism() {
    let mut recorder = ReplayRecorder::new(ReplayConfig::default());

    let mut world = World::new(0, 60);
    let entity1 = world.spawn_character(0);
    recorder.record_spawn(0, entity1);
    recorder.record_baseline(world.baseline());

    for tick in 0..10 {
        let is_fallback = tick % 3 == 0;
        let dir = if is_fallback { [b(0.0), b(0.0)] } else { [b(1.0), b(0.0)] };
        recorder.record_input(AppliedInput { tick, player_id: 0, move_dir: dir, is_fallback });

        let inputs = vec![StepInput { player_id: 0, move_dir: dir }];
        world.advance(tick, &inputs);
    }

    let artifact = recorder.finalize(world.state_digest(), world.tick(), "complete");

    let options = VerifyOptions { strict_build_check: false, current_build: None };
    let result = verify_replay(&artifact, &options);
    assert!(result.is_ok(), "Replay with LKI inputs failed: {result:?}");
}

#[test]
fn test_t0_12a_noncanonical_input_order() {
    let mut recorder = ReplayRecorder::new(ReplayConfig::default());

    let mut world = World::new(0, 60);
    let entity1 = world.spawn_character(0);
    let entity2 = world.spawn_character(1);
    recorder.record_spawn(0, entity1);
    recorder.record_spawn(1, entity2);
    recorder.record_baseline(world.baseline());

    for tick in 0..5 {
        recorder.record_input(AppliedInput {
            tick,
            player_id: 1,
            move_dir: [b(0.0), b(1.0)],
            is_fallback: false,
        });
        recorder.record_input(AppliedInput {
            tick,
            player_id: 0,
            move_dir: [b(1.0), b(0.0)],
            is_fallback: false,
        });

        let inputs = vec![
            StepInput { player_id: 0, move_dir: [b(1.0), b(0.0)] },
            StepInput { player_id: 1, move_dir: [b(0.0), b(1.0)] },
        ];
        world.advance(tick, &inputs);
    }

    let artifact = recorder.finalize(world.state_digest(), world.tick(), "complete");

    let options = VerifyOptions { strict_build_check: false, current_build: None };
    let result = verify_replay(&artifact, &options);
    assert!(result.is_ok(), "Verifier should handle non-canonical order: {result:?}");
}

#[test]
fn test_applied_input_conversion() {
    let input = AppliedInput {
        tick: 100,
        player_id: 5,
        move_dir: [b(0.5), b(-0.5)],
        is_fallback: true,
    };

    let proto = input.to_proto();
    let back = AppliedInput::try_from_proto(&proto).unwrap();

    assert_eq!(input, back);
}

#[test]
fn test_input_stream_validation_missing() {
    let mut artifact = create_test_artifact();

    artifact.inputs.retain(|i| !(i.tick == 5 && i.player_id == 0));

    let options = VerifyOptions::default();
    let result = verify_replay(&artifact, &options);
    assert!(matches!(result, Err(VerifyError::InputStreamInvalid { .. })));
}

#[test]
fn test_input_stream_validation_duplicate() {
    let mut artifact = create_test_artifact();

    artifact.inputs.push(AppliedInputProto {
        tick: 5,
        player_id: 0,
        move_dir: vec![b(1.0), b(0.0)],
        is_fallback: false,
    });

    let options = VerifyOptions::default();
    let result = verify_replay(&artifact, &options);
    assert!(matches!(result, Err(VerifyError::InputStreamInvalid { .. })));
}

#[test]
fn test_missing_baseline_rejected() {
    let mut artifact = create_test_artifact();
    artifact.initial_baseline = None;

    let result = verify_replay(&artifact, &VerifyOptions::default());
    assert!(matches!(result, Err(VerifyError::MissingBaseline)));
}

#[test]
fn test_final_digest_mismatch_detected() {
    let mut artifact = create_test_artifact();
    artifact.final_digest ^= 1;

    let result = verify_replay(&artifact, &VerifyOptions::default());
    assert!(matches!(result, Err(VerifyError::FinalDigestMismatch { .. })));
}

#[test]
fn test_spawn_reconstruction_mismatch_detected() {
    let mut artifact = create_test_artifact();
    artifact.player_entity_mapping[0].entity_id = 99;

    let result = verify_replay(&artifact, &VerifyOptions::default());
    assert!(matches!(result, Err(VerifyError::SpawnReconstructionMismatch { .. })));
}

#[test]
fn test_checkpoint_tick_mismatch_detected() {
    let world = World::new(0, 60);
    let baseline_digest = world.state_digest();

    let artifact = ReplayArtifact {
        replay_format_version: 1,
        initial_baseline: Some(flowstate::wire::JoinBaseline {
            tick: 3,
            entities: vec![],
            digest: baseline_digest,
        }),
        seed: 0,
        rng_algorithm: "none".to_string(),
        tick_rate_hz: 60,
        state_digest_algo_id: "statedigest-v0-fnv1a64-le-f64canon-eidasc-posvel".to_string(),
        entity_spawn_order: vec![],
        player_entity_mapping: vec![],
        tuning_parameters: vec![],
        inputs: vec![],
        build_fingerprint: None,
        final_digest: 0,
        checkpoint_tick: 5,
        end_reason: "complete".to_string(),
        test_mode: false,
        test_player_ids: vec![],
    };

    let result = verify_replay(&artifact, &VerifyOptions::default());
    assert!(matches!(result, Err(VerifyError::CheckpointTickMismatch { .. })));
}

#[test]
fn test_build_mismatch_strict() {
    let mut artifact = create_test_artifact();
    artifact.build_fingerprint = Some(flowstate::wire::BuildFingerprint {
        binary_sha256: "aaaa".to_string(),
        target_triple: "x86_64-unknown-linux-gnu".to_string(),
        profile: "release".to_string(),
        git_commit: "one".to_string(),
    });

    let current = BuildFingerprintData {
        binary_sha256: "bbbb".to_string(),
        target_triple: "x86_64-unknown-linux-gnu".to_string(),
        profile: "release".to_string(),
        git_commit: "two".to_string(),
    };

    let strict = VerifyOptions { strict_build_check: true, current_build: Some(current) };
    let result = verify_replay(&artifact, &strict);
    assert!(matches!(result, Err(VerifyError::BuildMismatch { .. })));

    let current2 = BuildFingerprintData {
        binary_sha256: "bbbb".to_string(),
        target_triple: "x86_64-unknown-linux-gnu".to_string(),
        profile: "release".to_string(),
        git_commit: "two".to_string(),
    };
    let lax = VerifyOptions { strict_build_check: false, current_build: Some(current2) };
    let result = verify_replay(&artifact, &lax);
    assert!(result.is_ok(), "non-strict mode only warns: {result:?}");
}

#[test]
fn test_lki_fallback_match_verifies() {
    let config = ServerConfig { match_duration_ticks: 10, ..ServerConfig::default() };
    let mut server = Server::new(config);
    server.accept_session();
    server.accept_session();
    server.start_match();

    for _ in 0..10 {
        let (snapshot, _, _) = server.step();
        for entity in &snapshot.entities {
            assert_eq!(entity.position, [0u64, 0u64]);
        }
    }

    let artifact = server.finalize(EndReason::Complete);
    assert!(artifact.inputs.iter().all(|i| i.is_fallback));

    let options = VerifyOptions { strict_build_check: false, current_build: None };
    let result = verify_replay(&artifact, &options);
    assert!(result.is_ok(), "fallback-only match must verify: {result:?}");
}

#[test]
fn test_live_match_with_inputs_verifies() {
    let config = ServerConfig { match_duration_ticks: 8, ..ServerConfig::default() };
    let mut server = Server::new(config);
    let (session1, _, _) = server.accept_session();
    let (session2, _, _) = server.accept_session();
    server.start_match();

    let mut seq = 0u64;
    for tick in 1..8u64 {
        seq += 1;
        let a = InputCmdProto { tick, input_seq: seq, move_dir: vec![b(1.0), b(0.0)] };
        assert!(server.receive_input(session1, &a).is_accepted());
        let c = InputCmdProto { tick, input_seq: seq, move_dir: vec![b(0.0), b(-1.0)] };
        assert!(server.receive_input(session2, &c).is_accepted());
    }
    for _ in 0..8 {
        server.step();
    }

    let artifact = server.finalize(EndReason::Complete);
    let options = VerifyOptions { strict_build_check: false, current_build: None };
    let result = verify_replay(&artifact, &options);
    assert!(result.is_ok(), "recorded live match must verify: {result:?}");
}

#[test]
fn test_fingerprint_from_parts_known_digest() {
    // SHA-256 of "abc", a published test vector.
    let data = vec![0x61u8, 0x62, 0x63];
    let fp = fingerprint_from_parts(&data, "linux", "x86_64", "release", None);
    assert_eq!(
        fp.binary_sha256,
        "ba7816bf8f01cfea414140de5dae2223b00361a396177a9cb410ff61f20015ad"
    );
    assert_eq!(fp.target_triple, "x86_64-unknown-linux-gnu");
    assert_eq!(fp.profile, "release");
    assert_eq!(fp.git_commit, "unknown");
}

#[test]
fn test_get_target_triple_mapping() {
    assert_eq!(get_target_triple("windows", "x86_64"), "x86_64-pc-windows-msvc");
    assert_eq!(get_target_triple("linux", "aarch64"), "aarch64-unknown-linux-gnu");
    assert_eq!(get_target_triple("macos", "aarch64"), "aarch64-apple-darwin");
    assert_eq!(get_target_triple("plan9", "mips"), "unknown-unknown-unknown");
}
