use flowstate::wire::{
    AppliedInputProto, BuildFingerprint, ClientHello, EntitySnapshotProto, InputCmdProto,
    JoinBaseline, PlayerEntityMapping, ReplayArtifact, ServerWelcome, SnapshotProto,
    TuningParameter,
};

fn b(x: f64) -> u64 {
    x.to_bits()
}

#[test]
fn test_client_hello_roundtrip() {
    let msg = ClientHello {};
    let encoded = msg.encode_to_vec();
    let decoded = ClientHello::decode(encoded.as_slice()).unwrap();
    assert_eq!(msg, decoded);
}

#[test]
fn test_server_welcome_roundtrip() {
    let msg = ServerWelcome {
        target_tick_floor: 5,
        tick_rate_hz: 60,
        player_id: 1,
        controlled_entity_id: 42,
    };
    let encoded = msg.encode_to_vec();
    let decoded = ServerWelcome::decode(encoded.as_slice()).unwrap();
    assert_eq!(msg, decoded);
}

#[test]
fn test_input_cmd_roundtrip() {
    let msg = InputCmdProto {
        tick: 100,
        input_seq: 50,
        move_dir: vec![b(0.707), b(0.707)],
    };
    let encoded = msg.encode_to_vec();
    let decoded = InputCmdProto::decode(encoded.as_slice()).unwrap();
    assert_eq!(msg, decoded);
}

#[test]
fn test_snapshot_roundtrip() {
    let msg = SnapshotProto {
        tick: 100,
        entities: vec![EntitySnapshotProto {
            entity_id: 1,
            position: vec![b(10.5), b(20.5)],
            velocity: vec![b(1.0), b(0.0)],
        }],
        digest: 0xdeadbeef,
        target_tick_floor: 101,
    };
    let encoded = msg.encode_to_vec();
    let decoded = SnapshotProto::decode(encoded.as_slice()).unwrap();
    assert_eq!(msg, decoded);
}

#[test]
fn test_replay_artifact_roundtrip() {
    let msg = ReplayArtifact {
        replay_format_version: 1,
        initial_baseline: Some(JoinBaseline { tick: 0, entities: vec![], digest: 0 }),
        seed: 42,
        rng_algorithm: "ChaCha8Rng".to_string(),
        tick_rate_hz: 60,
        state_digest_algo_id: "statedigest-v0-fnv1a64-le-f64canon-eidasc-posvel".to_string(),
        entity_spawn_order: vec![0, 1],
        player_entity_mapping: vec![
            PlayerEntityMapping { player_id: 0, entity_id: 1 },
            PlayerEntityMapping { player_id: 1, entity_id: 2 },
        ],
        tuning_parameters: vec![TuningParameter { key: "move_speed".to_string(), value: b(5.0) }],
        inputs: vec![],
        build_fingerprint: Some(BuildFingerprint {
            binary_sha256: "abc123".to_string(),
            target_triple: "x86_64-pc-windows-msvc".to_string(),
            profile: "release".to_string(),
            git_commit: "deadbeef".to_string(),
        }),
        final_digest: 0xfeedface,
        checkpoint_tick: 3600,
        end_reason: "complete".to_string(),
        test_mode: false,
        test_player_ids: vec![],
    };
    let encoded = msg.encode_to_vec();
    let decoded = ReplayArtifact::decode(encoded.as_slice()).unwrap();
    assert_eq!(msg, decoded);
}

#[test]
fn test_replay_artifact_roundtrip_with_inputs() {
    let msg = ReplayArtifact {
        replay_format_version: 1,
        initial_baseline: Some(JoinBaseline {
            tick: 0,
            entities: vec![EntitySnapshotProto {
                entity_id: 1,
                position: vec![0, 0],
                velocity: vec![0, 0],
            }],
            digest: 7,
        }),
        seed: 0,
        rng_algorithm: "none".to_string(),
        tick_rate_hz: 60,
        state_digest_algo_id: "statedigest-v0-fnv1a64-le-f64canon-eidasc-posvel".to_string(),
        entity_spawn_order: vec![17, 99],
        player_entity_mapping: vec![PlayerEntityMapping { player_id: 17, entity_id: 1 }],
        tuning_parameters: vec![TuningParameter { key: "move_speed".to_string(), value: b(5.0) }],
        inputs: vec![AppliedInputProto {
            tick: 0,
            player_id: 17,
            move_dir: vec![b(1.0), b(0.0)],
            is_fallback: false,
        }],
        build_fingerprint: None,
        final_digest: 1,
        checkpoint_tick: 1,
        end_reason: "disconnect".to_string(),
        test_mode: true,
        test_player_ids: vec![17, 99],
    };
    let encoded = msg.encode_to_vec();
    let decoded = ReplayArtifact::decode(encoded.as_slice()).unwrap();
    assert_eq!(msg, decoded);
}

#[test]
fn test_t0_19_wire_crate_exists() {
    // The wire module is part of the library's public surface; its
    // messages are shared by every boundary.
}

#[test]
fn test_decode_rejects_garbage() {
    assert!(ServerWelcome::decode(&[0xff, 0xff, 0xff]).is_none());
    assert!(ReplayArtifact::decode(&[0x99]).is_none());
    assert!(ClientHello::decode(&[1]).is_none());
}
