//! Replay recording and verification.
//!
//! The recorder accumulates, during a live match, everything a replay
//! needs: spawn order, the player-entity mapping, the initial baseline
//! and the applied input stream. The verifier re-executes an artifact
//! from the same seed and spawn order and holds the result to the
//! recorded digests, bit for bit.

use vstd::prelude::*;
use vstd::string::StringExecFns;
use vstd::string::StringSliceAdditionalSpecFns;

use crate::sim::{world_digest, Baseline, EntityId, PlayerId, StepInput, Tick, World,
    MOVE_SPEED_BITS, STATE_DIGEST_ALGO_ID};
use crate::wire::{entity_wire_view, AppliedInputProto, AppliedInputProtoV, BuildFingerprint,
    BuildFingerprintV, JoinBaseline, JoinBaselineV, PlayerEntityMapping, ReplayArtifact,
    ReplayArtifactV, TuningParameter, TuningParameterV};

verus! {

/// Applied input: the server's canonical input truth for a player at a
/// tick, after selection, fallback and clamping.
#[derive(Clone, Copy, Debug, PartialEq, Eq)]
pub struct AppliedInput {
    pub tick: Tick,
    pub player_id: PlayerId,
    /// Direction [x, y] bit patterns.
    pub move_dir: [u64; 2],
    /// True when this input came from the last-known-intent fallback.
    pub is_fallback: bool,
}

/// The wire view of an applied input.
pub open spec fn applied_wire_view(a: AppliedInput) -> AppliedInputProtoV {
    AppliedInputProtoV {
        tick: a.tick,
        player_id: a.player_id as u32,
        move_dir: seq![a.move_dir[0], a.move_dir[1]],
        is_fallback: a.is_fallback,
    }
}

impl AppliedInput {
    /// Convert to a step input for the simulation kernel.
    pub fn to_step_input(&self) -> (r: StepInput)
        ensures
            r == (StepInput { player_id: self.player_id, move_dir: self.move_dir }),
    {
        StepInput { player_id: self.player_id, move_dir: self.move_dir }
    }

    /// Convert to the wire form.
    pub fn to_proto(&self) -> (r: AppliedInputProto)
        ensures
            r@ == applied_wire_view(*self),
    {
        let r = AppliedInputProto {
            tick: self.tick,
            player_id: self.player_id as u32,
            move_dir: vec![self.move_dir[0], self.move_dir[1]],
            is_fallback: self.is_fallback,
        };
        proof {
            assert(r.move_dir@ =~= seq![self.move_dir[0], self.move_dir[1]]);
        }
        r
    }

    /// Convert from the wire form; fails unless the direction has exactly
    /// two components. The wire player id is truncated to the narrow
    /// player id type.
    pub fn try_from_proto(proto: &AppliedInputProto) -> (r: Result<AppliedInput, &'static str>)
        ensures
            match r {
                Ok(a) => proto.move_dir@.len() == 2 && a == (AppliedInput {
                    tick: proto.tick,
                    player_id: proto.player_id as PlayerId,
                    move_dir: [proto.move_dir@[0], proto.move_dir@[1]],
                    is_fallback: proto.is_fallback,
                }),
                Err(_) => proto.move_dir@.len() != 2,
            },
    {
        if proto.move_dir.len() != 2 {
            return Err("move_dir must have exactly 2 elements");
        }
        Ok(
            AppliedInput {
                tick: proto.tick,
                player_id: proto.player_id as PlayerId,
                move_dir: [proto.move_dir[0], proto.move_dir[1]],
                is_fallback: proto.is_fallback,
            },
        )
    }
}

/// Configuration for replay recording.
#[derive(Clone, Debug)]
pub struct ReplayConfig {
    pub seed: u64,
    pub tick_rate_hz: u32,
    pub rng_algorithm: String,
    pub test_mode: bool,
    pub test_player_ids: Vec<PlayerId>,
}

impl Default for ReplayConfig {
    /// The defaults: seed 0, 60 Hz, no RNG, no test mode.
    fn default() -> (r: Self)
        ensures
            r.seed == 0,
            r.tick_rate_hz == 60,
            r.rng_algorithm@ == "none"@,
            r.test_mode == false,
            r.test_player_ids@ == Seq::<PlayerId>::empty(),
    {
        let r = ReplayConfig {
            seed: 0,
            tick_rate_hz: 60,
            rng_algorithm: String::from_str("none"),
            test_mode: false,
            test_player_ids: Vec::new(),
        };
        proof {
            assert(r.test_player_ids@ =~= Seq::<PlayerId>::empty());
        }
        r
    }
}

/// Build fingerprint data: the identity of the binary that produced an
/// artifact.
#[derive(Clone, Debug)]
pub struct BuildFingerprintData {
    pub binary_sha256: String,
    pub target_triple: String,
    pub profile: String,
    pub git_commit: String,
}

/// Duplicate a fingerprint value.
pub fn clone_fingerprint(f: &BuildFingerprintData) -> (r: BuildFingerprintData)
    ensures
        r.binary_sha256@ == f.binary_sha256@,
        r.target_triple@ == f.target_triple@,
        r.profile@ == f.profile@,
        r.git_commit@ == f.git_commit@,
{
    BuildFingerprintData {
        binary_sha256: f.binary_sha256.clone(),
        target_triple: f.target_triple.clone(),
        profile: f.profile.clone(),
        git_commit: f.git_commit.clone(),
    }
}

/// The wire view of a fingerprint.
pub open spec fn fingerprint_wire_view(f: BuildFingerprintData) -> BuildFingerprintV {
    BuildFingerprintV {
        binary_sha256: f.binary_sha256@,
        target_triple: f.target_triple@,
        profile: f.profile@,
        git_commit: f.git_commit@,
    }
}

/// Records match data for replay artifact generation.
pub struct ReplayRecorder {
    pub config: ReplayConfig,
    /// Player ids in spawn order.
    pub entity_spawn_order: Vec<PlayerId>,
    /// Player-to-entity pairs, in spawn order.
    pub player_entity_mapping: Vec<(PlayerId, EntityId)>,
    /// The pre-start baseline, once recorded.
    pub initial_baseline: Option<Baseline>,
    /// Applied inputs in the order the orchestrator produced them.
    pub inputs: Vec<AppliedInput>,
    /// Fingerprint of the producing build, if acquired.
    pub build_fingerprint: Option<BuildFingerprintData>,
}

impl ReplayRecorder {
    /// Create a new replay recorder.
    pub fn new(config: ReplayConfig) -> (r: Self)
        ensures
            r.config == config,
            r.entity_spawn_order@ == Seq::<PlayerId>::empty(),
            r.player_entity_mapping@ == Seq::<(PlayerId, EntityId)>::empty(),
            r.initial_baseline is None,
            r.inputs@ == Seq::<AppliedInput>::empty(),
            r.build_fingerprint is None,
    {
        let r = ReplayRecorder {
            config,
            entity_spawn_order: Vec::new(),
            player_entity_mapping: Vec::new(),
            initial_baseline: None,
            inputs: Vec::new(),
            build_fingerprint: None,
        };
        proof {
            assert(r.entity_spawn_order@ =~= Seq::<PlayerId>::empty());
            assert(r.player_entity_mapping@ =~= Seq::<(PlayerId, EntityId)>::empty());
            assert(r.inputs@ =~= Seq::<AppliedInput>::empty());
        }
        r
    }

    /// Record one spawn: the player and the entity it received.
    pub fn record_spawn(&mut self, player_id: PlayerId, entity_id: EntityId)
        ensures
            final(self).entity_spawn_order@ == old(self).entity_spawn_order@.push(player_id),
            final(self).player_entity_mapping@ == old(self).player_entity_mapping@.push(
                (player_id, entity_id),
            ),
            final(self).config == old(self).config,
            final(self).initial_baseline == old(self).initial_baseline,
            final(self).inputs@ == old(self).inputs@,
            final(self).build_fingerprint == old(self).build_fingerprint,
    {
        self.entity_spawn_order.push(player_id);
        self.player_entity_mapping.push((player_id, entity_id));
    }

    /// Record the initial baseline.
    pub fn record_baseline(&mut self, baseline: Baseline)
        ensures
            final(self).initial_baseline == Some(baseline),
            final(self).config == old(self).config,
            final(self).entity_spawn_order@ == old(self).entity_spawn_order@,
            final(self).player_entity_mapping@ == old(self).player_entity_mapping@,
            final(self).inputs@ == old(self).inputs@,
            final(self).build_fingerprint == old(self).build_fingerprint,
    {
        self.initial_baseline = Some(baseline);
    }

    /// Record one applied input.
    pub fn record_input(&mut self, input: AppliedInput)
        ensures
            final(self).inputs@ == old(self).inputs@.push(input),
            final(self).config == old(self).config,
            final(self).entity_spawn_order@ == old(self).entity_spawn_order@,
            final(self).player_entity_mapping@ == old(self).player_entity_mapping@,
            final(self).initial_baseline == old(self).initial_baseline,
            final(self).build_fingerprint == old(self).build_fingerprint,
    {
        self.inputs.push(input);
    }

    /// Set the build fingerprint.
    pub fn set_build_fingerprint(&mut self, fingerprint: BuildFingerprintData)
        ensures
            final(self).build_fingerprint == Some(fingerprint),
            final(self).config == old(self).config,
            final(self).entity_spawn_order@ == old(self).entity_spawn_order@,
            final(self).player_entity_mapping@ == old(self).player_entity_mapping@,
            final(self).initial_baseline == old(self).initial_baseline,
            final(self).inputs@ == old(self).inputs@,
    {
        self.build_fingerprint = Some(fingerprint);
    }

    /// The artifact view a finalize call produces from this recorder.
    pub open spec fn finalized_view(
        self,
        final_digest: u64,
        checkpoint_tick: Tick,
        end_reason: Seq<char>,
    ) -> ReplayArtifactV {
        ReplayArtifactV {
            replay_format_version: 1u32,
            initial_baseline: match self.initial_baseline {
                None => None,
                Some(b) => Some(
                    JoinBaselineV {
                        tick: b.tick,
                        entities: b.entities@.map_values(
                            |e: crate::sim::EntitySnapshot| entity_wire_view(e),
                        ),
                        digest: b.digest,
                    },
                ),
            },
            seed: self.config.seed,
            rng_algorithm: self.config.rng_algorithm@,
            tick_rate_hz: self.config.tick_rate_hz,
            state_digest_algo_id: STATE_DIGEST_ALGO_ID@,
            entity_spawn_order: self.entity_spawn_order@.map_values(|p: PlayerId| p as u32),
            player_entity_mapping: self.player_entity_mapping@.map_values(
                |pe: (PlayerId, EntityId)|
                    PlayerEntityMapping { player_id: pe.0 as u32, entity_id: pe.1 },
            ),
            tuning_parameters: seq![
                TuningParameterV { key: "move_speed"@, value: MOVE_SPEED_BITS },
            ],
            inputs: self.inputs@.map_values(|a: AppliedInput| applied_wire_view(a)),
            build_fingerprint: match self.build_fingerprint {
                None => None,
                Some(f) => Some(fingerprint_wire_view(f)),
            },
            final_digest,
            checkpoint_tick,
            end_reason,
            test_mode: self.config.test_mode,
            test_player_ids: self.config.test_player_ids@.map_values(|p: PlayerId| p as u32),
        }
    }

    /// Finalize the replay artifact: snap in the final digest, checkpoint
    /// tick and end reason beside everything recorded.
    pub fn finalize(self, final_digest: u64, checkpoint_tick: Tick, end_reason: &str) -> (r:
        ReplayArtifact)
        ensures
            r@ == self.finalized_view(final_digest, checkpoint_tick, end_reason@),
    {
        let ghost gself = self;
        let ReplayRecorder {
            config,
            entity_spawn_order,
            player_entity_mapping,
            initial_baseline,
            inputs,
            build_fingerprint,
        } = self;
        let initial_baseline_proto = match &initial_baseline {
            None => None,
            Some(b) => Some(JoinBaseline::from_baseline(b)),
        };
        let mut spawn_u32: Vec<u32> = Vec::new();
        let n1 = entity_spawn_order.len();
        for i in 0..n1
            invariant
                n1 == entity_spawn_order@.len(),
                spawn_u32@ =~= entity_spawn_order@.subrange(0, i as int).map_values(
                    |p: PlayerId| p as u32,
                ),
        {
            spawn_u32.push(entity_spawn_order[i] as u32);
            proof {
                assert(entity_spawn_order@.subrange(0, i + 1) =~= entity_spawn_order@.subrange(
                    0,
                    i as int,
                ).push(entity_spawn_order@[i as int]));
                assert(spawn_u32@ =~= entity_spawn_order@.subrange(0, i + 1).map_values(
                    |p: PlayerId| p as u32,
                ));
            }
        }
        proof {
            assert(entity_spawn_order@.subrange(0, n1 as int) =~= entity_spawn_order@);
        }
        let mut mapping: Vec<PlayerEntityMapping> = Vec::new();
        let n2 = player_entity_mapping.len();
        for i in 0..n2
            invariant
                n2 == player_entity_mapping@.len(),
                mapping@ =~= player_entity_mapping@.subrange(0, i as int).map_values(
                    |pe: (PlayerId, EntityId)|
                        PlayerEntityMapping { player_id: pe.0 as u32, entity_id: pe.1 },
                ),
        {
            let (pid, eid) = player_entity_mapping[i];
            mapping.push(PlayerEntityMapping { player_id: pid as u32, entity_id: eid });
            proof {
                assert(player_entity_mapping@.subrange(0, i + 1)
                    =~= player_entity_mapping@.subrange(0, i as int).push(
                    player_entity_mapping@[i as int],
                ));
                assert(mapping@ =~= player_entity_mapping@.subrange(0, i + 1).map_values(
                    |pe: (PlayerId, EntityId)|
                        PlayerEntityMapping { player_id: pe.0 as u32, entity_id: pe.1 },
                ));
            }
        }
        proof {
            assert(player_entity_mapping@.subrange(0, n2 as int) =~= player_entity_mapping@);
        }
        let mut tuning_parameters: Vec<TuningParameter> = Vec::new();
        tuning_parameters.push(
            TuningParameter { key: String::from_str("move_speed"), value: MOVE_SPEED_BITS },
        );
        let mut inputs_proto: Vec<AppliedInputProto> = Vec::new();
        let n3 = inputs.len();
        for i in 0..n3
            invariant
                n3 == inputs@.len(),
                inputs_proto@.len() == i,
                inputs_proto@.map_values(|p: AppliedInputProto| p@) =~= inputs@.subrange(
                    0,
                    i as int,
                ).map_values(|a: AppliedInput| applied_wire_view(a)),
        {
            let ghost old_proto = inputs_proto@;
            inputs_proto.push(inputs[i].to_proto());
            proof {
                assert(inputs@.subrange(0, i + 1) =~= inputs@.subrange(0, i as int).push(
                    inputs@[i as int],
                ));
                let mapped_new = inputs_proto@.map_values(|p: AppliedInputProto| p@);
                let target = inputs@.subrange(0, i + 1).map_values(
                    |a: AppliedInput| applied_wire_view(a),
                );
                let mapped_old = old_proto.map_values(|p: AppliedInputProto| p@);
                let target_old = inputs@.subrange(0, i as int).map_values(
                    |a: AppliedInput| applied_wire_view(a),
                );
                assert forall|j: int| 0 <= j < i + 1 implies mapped_new[j] == target[j] by {
                    if j < i {
                        assert(inputs_proto@[j] == old_proto[j]);
                        assert(mapped_old[j] == target_old[j]);
                        assert(inputs@.subrange(0, i + 1)[j] == inputs@.subrange(0, i as int)[j]);
                    } else {
                        assert(inputs_proto@[j]@ == applied_wire_view(inputs@[i as int]));
                    }
                }
                assert(mapped_new =~= target);
            }
        }
        proof {
            assert(inputs@.subrange(0, n3 as int) =~= inputs@);
        }
        let build_fingerprint_proto = match &build_fingerprint {
            None => None,
            Some(f) => Some(
                BuildFingerprint {
                    binary_sha256: f.binary_sha256.clone(),
                    target_triple: f.target_triple.clone(),
                    profile: f.profile.clone(),
                    git_commit: f.git_commit.clone(),
                },
            ),
        };
        let mut test_ids_u32: Vec<u32> = Vec::new();
        let n4 = config.test_player_ids.len();
        for i in 0..n4
            invariant
                n4 == config.test_player_ids@.len(),
                test_ids_u32@ =~= config.test_player_ids@.subrange(0, i as int).map_values(
                    |p: PlayerId| p as u32,
                ),
        {
            test_ids_u32.push(config.test_player_ids[i] as u32);
            proof {
                assert(config.test_player_ids@.subrange(0, i + 1)
                    =~= config.test_player_ids@.subrange(0, i as int).push(
                    config.test_player_ids@[i as int],
                ));
                assert(test_ids_u32@ =~= config.test_player_ids@.subrange(0, i + 1).map_values(
                    |p: PlayerId| p as u32,
                ));
            }
        }
        proof {
            assert(config.test_player_ids@.subrange(0, n4 as int) =~= config.test_player_ids@);
        }
        let r = ReplayArtifact {
            replay_format_version: 1,
            initial_baseline: initial_baseline_proto,
            seed: config.seed,
            rng_algorithm: config.rng_algorithm,
            tick_rate_hz: config.tick_rate_hz,
            state_digest_algo_id: String::from_str(STATE_DIGEST_ALGO_ID),
            entity_spawn_order: spawn_u32,
            player_entity_mapping: mapping,
            tuning_parameters,
            inputs: inputs_proto,
            build_fingerprint: build_fingerprint_proto,
            final_digest,
            checkpoint_tick,
            end_reason: String::from_str(end_reason),
            test_mode: config.test_mode,
            test_player_ids: test_ids_u32,
        };
        proof {
            assert(r@.tuning_parameters =~= gself.finalized_view(
                final_digest,
                checkpoint_tick,
                end_reason@,
            ).tuning_parameters);
            assert(r@ == gself.finalized_view(final_digest, checkpoint_tick, end_reason@));
        }
        r
    }
}



/// Replay verification error.
#[derive(Clone, Debug, PartialEq, Eq)]
pub enum VerifyError {
    /// Build fingerprint mismatch in strict mode.
    BuildMismatch { expected: String, actual: String },
    /// Missing initial baseline.
    MissingBaseline,
    /// Initialization anchor (baseline digest) mismatch.
    InitializationAnchorMismatch { expected: u64, actual: u64 },
    /// Spawn reconstruction mismatch.
    SpawnReconstructionMismatch {
        player_id: PlayerId,
        expected_entity_id: EntityId,
        actual_entity_id: EntityId,
    },
    /// Input stream validation failed.
    InputStreamInvalid { reason: String },
    /// Final digest mismatch.
    FinalDigestMismatch { expected: u64, actual: u64 },
    /// Checkpoint tick mismatch.
    CheckpointTickMismatch { expected: Tick, actual: Tick },
    /// Invalid replay artifact format.
    InvalidFormat { reason: String },
}

impl VerifyError {
    /// A short description of the error.
    pub fn message(&self) -> (r: String)
        ensures
            match self {
                VerifyError::BuildMismatch { .. } => r@ == "build fingerprint mismatch"@,
                VerifyError::MissingBaseline => r@
                    == "missing initial baseline in replay artifact"@,
                VerifyError::InitializationAnchorMismatch { .. } => r@
                    == "initialization anchor mismatch"@,
                VerifyError::SpawnReconstructionMismatch { .. } => r@
                    == "spawn reconstruction mismatch"@,
                VerifyError::InputStreamInvalid { .. } => r@ == "input stream invalid"@,
                VerifyError::FinalDigestMismatch { .. } => r@ == "final digest mismatch"@,
                VerifyError::CheckpointTickMismatch { .. } => r@ == "checkpoint tick mismatch"@,
                VerifyError::InvalidFormat { .. } => r@ == "invalid replay format"@,
            },
    {
        match self {
            VerifyError::BuildMismatch { .. } => <String as StringExecFns>::from_str(
                "build fingerprint mismatch",
            ),
            VerifyError::MissingBaseline => <String as StringExecFns>::from_str(
                "missing initial baseline in replay artifact",
            ),
            VerifyError::InitializationAnchorMismatch { .. } => <String as StringExecFns>::from_str(
                "initialization anchor mismatch",
            ),
            VerifyError::SpawnReconstructionMismatch { .. } => <String as StringExecFns>::from_str(
                "spawn reconstruction mismatch",
            ),
            VerifyError::InputStreamInvalid { .. } => <String as StringExecFns>::from_str(
                "input stream invalid",
            ),
            VerifyError::FinalDigestMismatch { .. } => <String as StringExecFns>::from_str(
                "final digest mismatch",
            ),
            VerifyError::CheckpointTickMismatch { .. } => <String as StringExecFns>::from_str(
                "checkpoint tick mismatch",
            ),
            VerifyError::InvalidFormat { .. } => <String as StringExecFns>::from_str(
                "invalid replay format",
            ),
        }
    }
}

/// Options for replay verification.
#[derive(Clone, Debug)]
pub struct VerifyOptions {
    /// Fail on fingerprint mismatch when set; otherwise only warn.
    pub strict_build_check: bool,
    /// Current build fingerprint for comparison.
    pub current_build: Option<BuildFingerprintData>,
}

impl Default for VerifyOptions {
    /// The defaults: strict build checking, no current fingerprint.
    fn default() -> (r: Self)
        ensures
            r.strict_build_check == true,
            r.current_build is None,
    {
        VerifyOptions { strict_build_check: true, current_build: None }
    }
}

/// Two fingerprints differ in a gating field (the commit hash is
/// metadata and does not gate).
pub open spec fn fingerprints_differ(a: BuildFingerprintV, b: BuildFingerprintV) -> bool {
    a.binary_sha256 != b.binary_sha256 || a.target_triple != b.target_triple || a.profile
        != b.profile
}

/// Whether the build scope check fails the verification.
pub open spec fn build_check_fails(
    recorded: Option<BuildFingerprintV>,
    strict: bool,
    current: Option<BuildFingerprintV>,
) -> bool {
    match (recorded, current) {
        (Some(r), Some(c)) => strict && fingerprints_differ(r, c),
        _ => false,
    }
}

/// How many recorded inputs target this player and tick.
pub open spec fn input_count(inputs: Seq<AppliedInputProtoV>, pid: u32, t: u64) -> nat {
    inputs.filter(|x: AppliedInputProtoV| x.player_id == pid && x.tick == t).len()
}

/// The mapping knows this wire player id.
pub open spec fn mapping_knows(mapping: Seq<PlayerEntityMapping>, pid: u32) -> bool {
    exists|j: int| 0 <= j < mapping.len() && mapping[j].player_id == pid
}

/// Input stream integrity: exactly one applied input per known player
/// and tick in the half-open replay range, and no input outside it or
/// from an unknown player.
pub open spec fn stream_ok(a: ReplayArtifactV) -> bool
    recommends
        a.initial_baseline is Some,
{
    let t0 = a.initial_baseline.unwrap().tick;
    let cp = a.checkpoint_tick;
    &&& forall|j: int, t: u64|
        0 <= j < a.player_entity_mapping.len() && t0 <= t < cp ==> #[trigger] input_count(
            a.inputs,
            a.player_entity_mapping[j].player_id,
            t,
        ) == 1
    &&& forall|i: int|
        0 <= i < a.inputs.len() ==> t0 <= (#[trigger] a.inputs[i]).tick < cp && mapping_knows(
            a.player_entity_mapping,
            a.inputs[i].player_id,
        )
}

/// The last mapping entry for this player, if any (later entries
/// override earlier ones).
pub open spec fn mapping_lookup_last(mapping: Seq<PlayerEntityMapping>, pid: u32) -> Option<u64>
    decreases mapping.len(),
{
    if mapping.len() == 0 {
        None
    } else if mapping.last().player_id == pid {
        Some(mapping.last().entity_id)
    } else {
        mapping_lookup_last(mapping.drop_last(), pid)
    }
}

/// Spawn reconstruction: re-spawning in recorded order allocates entity
/// ids 1, 2, ...; each must match the mapping's expectation.
pub open spec fn spawn_ok(a: ReplayArtifactV) -> bool {
    forall|i: int|
        0 <= i < a.entity_spawn_order.len() ==> match mapping_lookup_last(
            a.player_entity_mapping,
            #[trigger] a.entity_spawn_order[i],
        ) {
            Some(eid) => eid == i + 1,
            None => true,
        }
}

/// The characters of the reconstructed world, straight after the spawns.
pub open spec fn replay_chars0(a: ReplayArtifactV) -> Seq<crate::sim::Character> {
    Seq::new(
        a.entity_spawn_order.len(),
        |i: int|
            crate::sim::Character {
                entity_id: (i + 1) as u64,
                player_id: a.entity_spawn_order[i] as PlayerId,
                position: [0u64, 0u64],
                velocity: [0u64, 0u64],
            },
    )
}

/// The step inputs of one replayed tick: the converted inputs recorded
/// for it, in recording order, sorted by player id.
pub open spec fn tick_step_inputs(applied: Seq<AppliedInput>, t: u64) -> Seq<StepInput> {
    crate::sim::sort_step_inputs_spec(
        applied.filter(|a: AppliedInput| a.tick == t).map_values(
            |a: AppliedInput| StepInput { player_id: a.player_id, move_dir: a.move_dir },
        ),
    )
}

/// The converted form of a well-formed recorded input.
pub open spec fn converted_input(x: AppliedInputProtoV) -> AppliedInput {
    AppliedInput {
        tick: x.tick,
        player_id: x.player_id as PlayerId,
        move_dir: [x.move_dir[0], x.move_dir[1]],
        is_fallback: x.is_fallback,
    }
}

/// Replay the ticks [t, cp): advance while the world is in sync, and
/// stop where it cannot be (a pre-start baseline tick).
pub open spec fn replay_run(
    chars: Seq<crate::sim::Character>,
    cur: u64,
    dt: u64,
    applied: Seq<AppliedInput>,
    t: u64,
    cp: u64,
) -> (u64, Seq<crate::sim::Character>)
    decreases cp - t,
{
    if t >= cp || t != cur {
        (cur, chars)
    } else {
        replay_run(
            crate::sim::apply_inputs_spec(chars, tick_step_inputs(applied, t), dt),
            (cur + 1) as u64,
            dt,
            applied,
            (t + 1) as u64,
            cp,
        )
    }
}

/// Filtering one more element keeps it exactly when it matches.
proof fn lemma_filter_push_generic<A>(s: Seq<A>, e: A, pred: spec_fn(A) -> bool)
    ensures
        s.push(e).filter(pred) == (if pred(e) {
            s.filter(pred).push(e)
        } else {
            s.filter(pred)
        }),
{
    reveal(Seq::filter);
    assert(s.push(e).drop_last() =~= s);
    assert(s.push(e).last() == e);
}

/// Count the recorded inputs for one player and tick.
fn count_inputs(inputs: &Vec<AppliedInputProto>, pid: u32, t: u64) -> (r: usize)
    ensures
        r == input_count(inputs@.map_values(|p: AppliedInputProto| p@), pid, t),
{
    let ghost views = inputs@.map_values(|p: AppliedInputProto| p@);
    let pred = |x: AppliedInputProtoV| x.player_id == pid && x.tick == t;
    let n = inputs.len();
    let mut count: usize = 0;
    let mut i: usize = 0;
    proof {
        assert(views.subrange(0, 0).filter(|x: AppliedInputProtoV|
            x.player_id == pid && x.tick == t).len() == 0) by {
            assert(views.subrange(0, 0) =~= Seq::<AppliedInputProtoV>::empty());
            reveal(Seq::filter);
        }
    }
    while i < n
        invariant
            n == inputs@.len(),
            views == inputs@.map_values(|p: AppliedInputProto| p@),
            0 <= i <= n,
            count == views.subrange(0, i as int).filter(
                |x: AppliedInputProtoV| x.player_id == pid && x.tick == t,
            ).len(),
            count <= i,
        decreases n - i,
    {
        proof {
            lemma_filter_push_generic(
                views.subrange(0, i as int),
                views[i as int],
                |x: AppliedInputProtoV| x.player_id == pid && x.tick == t,
            );
            assert(views.subrange(0, i + 1) =~= views.subrange(0, i as int).push(
                views[i as int],
            ));
            assert(views[i as int] == inputs@[i as int]@);
        }
        if inputs[i].player_id == pid && inputs[i].tick == t {
            count = count + 1;
        }
        i = i + 1;
    }
    proof {
        assert(views.subrange(0, n as int) =~= views);
    }
    count
}

/// Whether the mapping knows this wire player id.
fn mapping_contains(mapping: &Vec<PlayerEntityMapping>, pid: u32) -> (r: bool)
    ensures
        r == mapping_knows(mapping@, pid),
{
    let n = mapping.len();
    let mut i: usize = 0;
    while i < n
        invariant
            n == mapping@.len(),
            0 <= i <= n,
            forall|j: int| 0 <= j < i ==> mapping@[j].player_id != pid,
        decreases n - i,
    {
        if mapping[i].player_id == pid {
            return true;
        }
        i = i + 1;
    }
    false
}

/// The last mapping entry for this player, if any.
fn mapping_lookup_last_exec(mapping: &Vec<PlayerEntityMapping>, pid: u32) -> (r: Option<u64>)
    ensures
        r == mapping_lookup_last(mapping@, pid),
{
    let n = mapping.len();
    proof {
        assert(mapping@.subrange(0, n as int) =~= mapping@);
    }
    let mut i: usize = n;
    while i > 0
        invariant
            n == mapping@.len(),
            0 <= i <= n,
            mapping_lookup_last(mapping@, pid) == mapping_lookup_last(
                mapping@.subrange(0, i as int),
                pid,
            ),
        decreases i,
    {
        proof {
            assert(mapping@.subrange(0, i as int).last() == mapping@[i - 1]);
            assert(mapping@.subrange(0, i as int).drop_last() =~= mapping@.subrange(0, i - 1));
        }
        if mapping[i - 1].player_id == pid {
            return Some(mapping[i - 1].entity_id);
        }
        i = i - 1;
    }
    proof {
        assert(mapping@.subrange(0, 0).len() == 0);
    }
    None
}

/// Validate input-stream integrity, exactly as `stream_ok` says.
fn validate_input_stream(artifact: &ReplayArtifact) -> (r: Result<(), VerifyError>)
    ensures
        match r {
            Ok(()) => artifact@.initial_baseline is Some && stream_ok(artifact@),
            Err(e) => {
                ||| (e matches VerifyError::MissingBaseline && artifact@.initial_baseline
                    is None)
                ||| (e matches VerifyError::InputStreamInvalid { .. }
                    && artifact@.initial_baseline is Some && !stream_ok(artifact@))
            },
        },
{
    let baseline = match &artifact.initial_baseline {
        Some(b) => b,
        None => { return Err(VerifyError::MissingBaseline); },
    };
    proof {
        assert(artifact@.initial_baseline == Some(baseline@));
    }
    let t0 = baseline.tick;
    let cp = artifact.checkpoint_tick;
    let nm = artifact.player_entity_mapping.len();
    let mut j: usize = 0;
    while j < nm
        invariant
            nm == artifact@.player_entity_mapping.len(),
            0 <= j <= nm,
            artifact@.initial_baseline is Some,
            t0 == artifact@.initial_baseline.unwrap().tick,
            cp == artifact@.checkpoint_tick,
            forall|jj: int, t: u64|
                0 <= jj < j && t0 <= t < cp ==> #[trigger] input_count(
                    artifact@.inputs,
                    artifact@.player_entity_mapping[jj].player_id,
                    t,
                ) == 1,
        decreases nm - j,
    {
        let pid = artifact.player_entity_mapping[j].player_id;
        let mut t: u64 = t0;
        while t < cp
            invariant
                nm == artifact@.player_entity_mapping.len(),
                0 <= j < nm,
                t0 <= t <= cp || (t == t0 && cp < t0),
                t0 == artifact@.initial_baseline.unwrap().tick,
                artifact@.initial_baseline is Some,
                pid == artifact@.player_entity_mapping[j as int].player_id,
                cp == artifact@.checkpoint_tick,
                forall|tt: u64|
                    t0 <= tt < t ==> #[trigger] input_count(artifact@.inputs, pid, tt) == 1,
            decreases cp - t,
        {
            let count = count_inputs(&artifact.inputs, pid, t);
            if count != 1 {
                proof {
                    assert(input_count(
                        artifact@.inputs,
                        artifact@.player_entity_mapping[j as int].player_id,
                        t,
                    ) != 1);
                    assert(!stream_ok(artifact@));
                }
                return Err(
                    VerifyError::InputStreamInvalid {
                        reason: <String as StringExecFns>::from_str(
                            "missing or duplicate input for a player and tick",
                        ),
                    },
                );
            }
            t = t + 1;
        }
        j = j + 1;
    }
    let ni = artifact.inputs.len();
    let mut i: usize = 0;
    while i < ni
        invariant
            ni == artifact@.inputs.len(),
            0 <= i <= ni,
            artifact@.initial_baseline is Some,
            t0 == artifact@.initial_baseline.unwrap().tick,
            cp == artifact@.checkpoint_tick,
            nm == artifact@.player_entity_mapping.len(),
            forall|jj: int, t: u64|
                0 <= jj < nm && t0 <= t < cp ==> #[trigger] input_count(
                    artifact@.inputs,
                    artifact@.player_entity_mapping[jj].player_id,
                    t,
                ) == 1,
            forall|ii: int|
                0 <= ii < i ==> t0 <= (#[trigger] artifact@.inputs[ii]).tick < cp
                    && mapping_knows(
                    artifact@.player_entity_mapping,
                    artifact@.inputs[ii].player_id,
                ),
        decreases ni - i,
    {
        let inp = &artifact.inputs[i];
        proof {
            assert(artifact@.inputs[i as int] == artifact.inputs@[i as int]@);
        }
        if inp.tick < t0 || inp.tick >= cp {
            proof {
                assert(!(t0 <= artifact@.inputs[i as int].tick < cp));
                assert(!stream_ok(artifact@));
            }
            return Err(
                VerifyError::InputStreamInvalid {
                    reason: <String as StringExecFns>::from_str(
                        "input outside the replay range",
                    ),
                },
            );
        }
        if !mapping_contains(&artifact.player_entity_mapping, inp.player_id) {
            proof {
                assert(!mapping_knows(
                    artifact@.player_entity_mapping,
                    artifact@.inputs[i as int].player_id,
                ));
                assert(!stream_ok(artifact@));
            }
            return Err(
                VerifyError::InputStreamInvalid {
                    reason: <String as StringExecFns>::from_str(
                        "input references an unknown player",
                    ),
                },
            );
        }
        proof {
            assert(artifact@.inputs[i as int] == artifact.inputs@[i as int]@);
        }
        i = i + 1;
    }
    Ok(())
}



/// All recorded inputs carry a two-component direction.
pub open spec fn inputs_convertible(a: ReplayArtifactV) -> bool {
    forall|i: int| 0 <= i < a.inputs.len() ==> (#[trigger] a.inputs[i]).move_dir.len() == 2
}

/// The recorded inputs in converted form.
pub open spec fn converted_inputs(a: ReplayArtifactV) -> Seq<AppliedInput> {
    a.inputs.map_values(|x: AppliedInputProtoV| converted_input(x))
}

/// The reconstructed world's per-tick delta time.
pub open spec fn replay_dt(a: ReplayArtifactV) -> u64 {
    crate::fp::f64_div(crate::fp::F64_ONE, crate::fp::f64_of_u32(a.tick_rate_hz))
}

/// Machine bounds under which the verifier can reconstruct: a positive
/// tick rate and a spawn list it can count.
pub open spec fn replay_format_ok(a: ReplayArtifactV) -> bool {
    a.tick_rate_hz > 0 && a.entity_spawn_order.len() < 0x10000000
}

/// The recorded inputs filtered to one tick, as applied inputs.
fn inputs_for_tick(conv: &Vec<AppliedInput>, t: u64) -> (r: Vec<AppliedInput>)
    ensures
        r@ == conv@.filter(|a: AppliedInput| a.tick == t),
{
    let mut out: Vec<AppliedInput> = Vec::new();
    let n = conv.len();
    let mut i: usize = 0;
    proof {
        assert(conv@.subrange(0, 0) =~= Seq::<AppliedInput>::empty());
        reveal(Seq::filter);
    }
    while i < n
        invariant
            n == conv@.len(),
            0 <= i <= n,
            out@ == conv@.subrange(0, i as int).filter(|a: AppliedInput| a.tick == t),
        decreases n - i,
    {
        proof {
            lemma_filter_push_generic(
                conv@.subrange(0, i as int),
                conv@[i as int],
                |a: AppliedInput| a.tick == t,
            );
            assert(conv@.subrange(0, i + 1) =~= conv@.subrange(0, i as int).push(
                conv@[i as int],
            ));
        }
        if conv[i].tick == t {
            out.push(conv[i]);
        }
        i = i + 1;
    }
    proof {
        assert(conv@.subrange(0, n as int) =~= conv@);
    }
    out
}

/// The raw step inputs of an applied list, before sorting.
fn applied_to_step(applied: &Vec<AppliedInput>) -> (raw: Vec<StepInput>)
    ensures
        raw@ == applied@.map_values(
            |a: AppliedInput| StepInput { player_id: a.player_id, move_dir: a.move_dir },
        ),
{
    let mut raw: Vec<StepInput> = Vec::new();
    let na = applied.len();
    let mut j: usize = 0;
    while j < na
        invariant
            na == applied@.len(),
            0 <= j <= na,
            raw@ =~= applied@.subrange(0, j as int).map_values(
                |a: AppliedInput| StepInput { player_id: a.player_id, move_dir: a.move_dir },
            ),
        decreases na - j,
    {
        raw.push(applied[j].to_step_input());
        proof {
            assert(applied@.subrange(0, j + 1) =~= applied@.subrange(0, j as int).push(
                applied@[j as int],
            ));
            assert(raw@ =~= applied@.subrange(0, j + 1).map_values(
                |a: AppliedInput| StepInput { player_id: a.player_id, move_dir: a.move_dir },
            ));
        }
        j = j + 1;
    }
    proof {
        assert(applied@.subrange(0, na as int) =~= applied@);
    }
    raw
}

/// Verify that a replay artifact reproduces its recorded outcome.
///
/// The checks run in order: build scope, input-stream integrity,
/// reconstruction bounds, spawn reconstruction, the initialization
/// anchor, input conversion, then bit-exact re-execution against the
/// checkpoint tick and the final digest.
#[verifier::rlimit(100)]
#[verifier::spinoff_prover]
#[verifier::loop_isolation(false)]
pub fn verify_replay(artifact: &ReplayArtifact, options: &VerifyOptions) -> (r: Result<
    (),
    VerifyError,
>)
    ensures
        ({
            let a = artifact@;
            let current = match options.current_build {
                Some(f) => Some(fingerprint_wire_view(f)),
                None => None,
            };
            if build_check_fails(a.build_fingerprint, options.strict_build_check, current) {
                r matches Err(VerifyError::BuildMismatch { .. })
            } else if a.initial_baseline is None {
                r matches Err(VerifyError::MissingBaseline)
            } else if !stream_ok(a) {
                r matches Err(VerifyError::InputStreamInvalid { .. })
            } else if !replay_format_ok(a) {
                r matches Err(VerifyError::InvalidFormat { .. })
            } else if !spawn_ok(a) {
                r matches Err(VerifyError::SpawnReconstructionMismatch { .. })
            } else if world_digest(0, replay_chars0(a)) != a.initial_baseline.unwrap().digest {
                r == Err::<(), VerifyError>(
                    VerifyError::InitializationAnchorMismatch {
                        expected: a.initial_baseline.unwrap().digest,
                        actual: world_digest(0, replay_chars0(a)),
                    },
                )
            } else if !inputs_convertible(a) {
                r matches Err(VerifyError::InvalidFormat { .. })
            } else {
                let (ft, fc) = replay_run(
                    replay_chars0(a),
                    0,
                    replay_dt(a),
                    converted_inputs(a),
                    a.initial_baseline.unwrap().tick,
                    a.checkpoint_tick,
                );
                if ft != a.checkpoint_tick {
                    r == Err::<(), VerifyError>(
                        VerifyError::CheckpointTickMismatch {
                            expected: a.checkpoint_tick,
                            actual: ft,
                        },
                    )
                } else if world_digest(ft, fc) != a.final_digest {
                    r == Err::<(), VerifyError>(
                        VerifyError::FinalDigestMismatch {
                            expected: a.final_digest,
                            actual: world_digest(ft, fc),
                        },
                    )
                } else {
                    r is Ok
                }
            }
        }),
{
    if let (Some(recorded), Some(current)) = (&artifact.build_fingerprint, &options.current_build)
    {
        let mismatch = !(recorded.binary_sha256 == current.binary_sha256)
            || !(recorded.target_triple == current.target_triple) || !(recorded.profile
            == current.profile);
        if mismatch && options.strict_build_check {
            return Err(
                VerifyError::BuildMismatch {
                    expected: recorded.binary_sha256.clone(),
                    actual: current.binary_sha256.clone(),
                },
            );
        }
    }
    match validate_input_stream(artifact) {
        Ok(()) => {},
        Err(e) => { return Err(e); },
    }
    let baseline = match &artifact.initial_baseline {
        Some(b) => b,
        None => { return Err(VerifyError::MissingBaseline); },
    };
    proof {
        assert(artifact@.initial_baseline == Some(baseline@));
    }
    let initial_tick = baseline.tick;
    let checkpoint_tick = artifact.checkpoint_tick;
    if artifact.tick_rate_hz == 0 || artifact.entity_spawn_order.len() >= 0x10000000 {
        return Err(
            VerifyError::InvalidFormat {
                reason: <String as StringExecFns>::from_str(
                    "tick rate or spawn list out of range",
                ),
            },
        );
    }
    let mut world = World::new(artifact.seed, artifact.tick_rate_hz);
    let ns = artifact.entity_spawn_order.len();
    let mut i: usize = 0;
    while i < ns
        invariant
            ns == artifact@.entity_spawn_order.len(),
            ns < 0x10000000,
            0 <= i <= ns,
            world.wf(),
            world.cur_tick == 0,
            world.rate_hz == artifact@.tick_rate_hz,
            world.dt_bits == replay_dt(artifact@),
            world.seed == artifact@.seed,
            world.characters@ =~= replay_chars0(artifact@).subrange(0, i as int),
            forall|ii: int|
                0 <= ii < i ==> match mapping_lookup_last(
                    artifact@.player_entity_mapping,
                    #[trigger] artifact@.entity_spawn_order[ii],
                ) {
                    Some(eid) => eid == ii + 1,
                    None => true,
                },
        decreases ns - i,
    {
        let pid_u32 = artifact.entity_spawn_order[i];
        let pid = pid_u32 as PlayerId;
        let actual_eid = world.spawn_character(pid);
        match mapping_lookup_last_exec(&artifact.player_entity_mapping, pid_u32) {
            Some(expected_eid) => {
                if expected_eid != actual_eid {
                    proof {
                        assert(artifact@.entity_spawn_order[i as int] == pid_u32);
                        assert(mapping_lookup_last(
                            artifact@.player_entity_mapping,
                            artifact@.entity_spawn_order[i as int],
                        ) == Some(expected_eid));
                        assert(actual_eid == i + 1);
                        assert(!spawn_ok(artifact@));
                    }
                    return Err(
                        VerifyError::SpawnReconstructionMismatch {
                            player_id: pid,
                            expected_entity_id: expected_eid,
                            actual_entity_id: actual_eid,
                        },
                    );
                }
            },
            None => {},
        }
        proof {
            assert(world.characters@ =~= replay_chars0(artifact@).subrange(0, i + 1));
        }
        i = i + 1;
    }
    proof {
        assert(replay_chars0(artifact@).subrange(0, ns as int) =~= replay_chars0(artifact@));
        assert(spawn_ok(artifact@));
    }
    let actual_digest0 = world.state_digest();
    if actual_digest0 != baseline.digest {
        return Err(
            VerifyError::InitializationAnchorMismatch {
                expected: baseline.digest,
                actual: actual_digest0,
            },
        );
    }
    let mut conv: Vec<AppliedInput> = Vec::new();
    let ni = artifact.inputs.len();
    let mut k: usize = 0;
    while k < ni
        invariant
            ni == artifact@.inputs.len(),
            0 <= k <= ni,
            conv@ =~= artifact@.inputs.subrange(0, k as int).map_values(
                |x: AppliedInputProtoV| converted_input(x),
            ),
            forall|kk: int|
                0 <= kk < k ==> (#[trigger] artifact@.inputs[kk]).move_dir.len() == 2,
        decreases ni - k,
    {
        proof {
            assert(artifact@.inputs[k as int] == artifact.inputs@[k as int]@);
        }
        let converted = match AppliedInput::try_from_proto(&artifact.inputs[k]) {
            Ok(x) => x,
            Err(_) => {
                proof {
                    assert(!inputs_convertible(artifact@));
                }
                return Err(
                    VerifyError::InvalidFormat {
                        reason: <String as StringExecFns>::from_str(
                            "move_dir must have exactly 2 elements",
                        ),
                    },
                );
            },
        };
        conv.push(converted);
        proof {
            assert(artifact@.inputs.subrange(0, k + 1) =~= artifact@.inputs.subrange(
                0,
                k as int,
            ).push(artifact@.inputs[k as int]));
            assert(conv@ =~= artifact@.inputs.subrange(0, k + 1).map_values(
                |x: AppliedInputProtoV| converted_input(x),
            ));
        }
        k = k + 1;
    }
    proof {
        assert(artifact@.inputs.subrange(0, ni as int) =~= artifact@.inputs);
        assert(conv@ == converted_inputs(artifact@));
        assert(inputs_convertible(artifact@));
    }
    let ghost chars0 = replay_chars0(artifact@);
    let ghost dt = replay_dt(artifact@);
    let mut t: u64 = initial_tick;
    let mut synced: bool = true;
    while t < checkpoint_tick && synced
        invariant
            checkpoint_tick == artifact@.checkpoint_tick,
            conv@ == converted_inputs(artifact@),
            world.wf(),
            world.rate_hz == artifact@.tick_rate_hz,
            world.dt_bits == dt,
            replay_run(chars0, 0, dt, conv@, initial_tick, checkpoint_tick) == replay_run(
                world.characters@,
                world.cur_tick,
                dt,
                conv@,
                t,
                checkpoint_tick,
            ),
            initial_tick <= t <= checkpoint_tick || (t == initial_tick && checkpoint_tick
                < initial_tick),
            !synced ==> world.cur_tick != t,
        decreases checkpoint_tick - t + (if synced { 1int } else { 0int }),
    {
        if world.tick() != t {
            synced = false;
        } else {
            let tick_applied = inputs_for_tick(&conv, t);
            let raw = applied_to_step(&tick_applied);
            let sorted = crate::sim::sort_step_inputs(&raw);
            proof {
                assert(sorted@ == tick_step_inputs(conv@, t));
            }
            let _ = world.advance(t, &sorted);
            t = t + 1;
        }
    }
    if world.tick() != checkpoint_tick {
        proof {
            lemma_replay_run_stops(chars0, 0, dt, conv@, initial_tick, checkpoint_tick,
                world.characters@, world.cur_tick, t);
        }
        return Err(
            VerifyError::CheckpointTickMismatch {
                expected: checkpoint_tick,
                actual: world.tick(),
            },
        );
    }
    proof {
        lemma_replay_run_stops(chars0, 0, dt, conv@, initial_tick, checkpoint_tick,
            world.characters@, world.cur_tick, t);
    }
    let actual_digest = world.state_digest();
    if actual_digest != artifact.final_digest {
        return Err(
            VerifyError::FinalDigestMismatch {
                expected: artifact.final_digest,
                actual: actual_digest,
            },
        );
    }
    Ok(())
}

/// When the replay loop has stopped (the range is exhausted or the world
/// fell out of sync), the spec run agrees with the loop's final state.
proof fn lemma_replay_run_stops(
    chars0: Seq<crate::sim::Character>,
    cur0: u64,
    dt: u64,
    applied: Seq<AppliedInput>,
    t0: u64,
    cp: u64,
    chars: Seq<crate::sim::Character>,
    cur: u64,
    t: u64,
)
    requires
        replay_run(chars0, cur0, dt, applied, t0, cp) == replay_run(chars, cur, dt, applied, t, cp),
        t >= cp || t != cur,
    ensures
        replay_run(chars0, cur0, dt, applied, t0, cp) == (cur, chars),
{
}



/// The SHA-256 digest of a byte sequence, 32 bytes.
pub uninterp spec fn sha256_of(data: Seq<u8>) -> Seq<u8>;

/// Relies on sha2's Sha256: the digest is a function of the input bytes
/// alone, and is 32 bytes long.
#[verifier::external_body]
fn sha256_bytes(data: &[u8]) -> (r: Vec<u8>)
    ensures
        r@ == sha256_of(data@),
        r@.len() == 32,
{
    let mut hasher = <sha2::Sha256 as sha2::Digest>::new();
    <sha2::Sha256 as sha2::Digest>::update(&mut hasher, data);
    <sha2::Sha256 as sha2::Digest>::finalize(hasher).to_vec()
}

/// The lowercase hex digit of a nibble.
pub open spec fn hex_digit(n: u8) -> char
    recommends
        n < 16,
{
    if n == 0 {
        '0'
    } else if n == 1 {
        '1'
    } else if n == 2 {
        '2'
    } else if n == 3 {
        '3'
    } else if n == 4 {
        '4'
    } else if n == 5 {
        '5'
    } else if n == 6 {
        '6'
    } else if n == 7 {
        '7'
    } else if n == 8 {
        '8'
    } else if n == 9 {
        '9'
    } else if n == 10 {
        'a'
    } else if n == 11 {
        'b'
    } else if n == 12 {
        'c'
    } else if n == 13 {
        'd'
    } else if n == 14 {
        'e'
    } else {
        'f'
    }
}

/// The lowercase hex rendering of a byte sequence, high nibble first.
pub open spec fn hex_of(bytes: Seq<u8>) -> Seq<char>
    decreases bytes.len(),
{
    if bytes.len() == 0 {
        Seq::empty()
    } else {
        seq![hex_digit(bytes[0] / 16), hex_digit((bytes[0] % 16) as u8)] + hex_of(
            bytes.subrange(1, bytes.len() as int),
        )
    }
}

/// One more byte appends its two digits.
proof fn lemma_hex_of_snoc(bytes: Seq<u8>, b: u8)
    ensures
        hex_of(bytes.push(b)) == hex_of(bytes) + seq![
            hex_digit(b / 16),
            hex_digit((b % 16) as u8),
        ],
    decreases bytes.len(),
{
    let digits = seq![hex_digit(b / 16), hex_digit((b % 16) as u8)];
    if bytes.len() == 0 {
        assert(bytes.push(b)[0] == b);
        assert(bytes.push(b).subrange(1, 1) =~= Seq::<u8>::empty());
        assert(hex_of(bytes.push(b).subrange(1, 1)) =~= Seq::<char>::empty());
        assert(hex_of(bytes.push(b)) =~= digits);
        assert(hex_of(bytes) + digits =~= digits);
    } else {
        assert(bytes.push(b)[0] == bytes[0]);
        assert(bytes.push(b).subrange(1, bytes.len() as int + 1) =~= bytes.subrange(
            1,
            bytes.len() as int,
        ).push(b));
        lemma_hex_of_snoc(bytes.subrange(1, bytes.len() as int), b);
        let head = seq![hex_digit(bytes[0] / 16), hex_digit((bytes[0] % 16) as u8)];
        assert(head + (hex_of(bytes.subrange(1, bytes.len() as int)) + digits) =~= (head
            + hex_of(bytes.subrange(1, bytes.len() as int))) + digits);
    }
}

/// Append one lowercase hex digit to a string.
fn push_hex_digit(s: &mut String, nib: u8)
    requires
        nib < 16,
    ensures
        final(s)@ == old(s)@ + seq![hex_digit(nib)],
{
    proof {
        reveal_strlit("0");
        reveal_strlit("1");
        reveal_strlit("2");
        reveal_strlit("3");
        reveal_strlit("4");
        reveal_strlit("5");
        reveal_strlit("6");
        reveal_strlit("7");
        reveal_strlit("8");
        reveal_strlit("9");
        reveal_strlit("a");
        reveal_strlit("b");
        reveal_strlit("c");
        reveal_strlit("d");
        reveal_strlit("e");
        reveal_strlit("f");
    }
    if nib == 0 {
        s.append("0");
    } else if nib == 1 {
        s.append("1");
    } else if nib == 2 {
        s.append("2");
    } else if nib == 3 {
        s.append("3");
    } else if nib == 4 {
        s.append("4");
    } else if nib == 5 {
        s.append("5");
    } else if nib == 6 {
        s.append("6");
    } else if nib == 7 {
        s.append("7");
    } else if nib == 8 {
        s.append("8");
    } else if nib == 9 {
        s.append("9");
    } else if nib == 10 {
        s.append("a");
    } else if nib == 11 {
        s.append("b");
    } else if nib == 12 {
        s.append("c");
    } else if nib == 13 {
        s.append("d");
    } else if nib == 14 {
        s.append("e");
    } else {
        s.append("f");
    }
    proof {
        assert(final(s)@ =~= old(s)@ + seq![hex_digit(nib)]);
    }
}

/// The lowercase hex string of a byte vector.
pub fn bytes_to_hex(bytes: &Vec<u8>) -> (r: String)
    ensures
        r@ == hex_of(bytes@),
{
    let mut s = String::new();
    let n = bytes.len();
    let mut i: usize = 0;
    proof {
        assert(bytes@.subrange(0, 0) =~= Seq::<u8>::empty());
    }
    while i < n
        invariant
            n == bytes@.len(),
            0 <= i <= n,
            s@ == hex_of(bytes@.subrange(0, i as int)),
        decreases n - i,
    {
        let b = bytes[i];
        push_hex_digit(&mut s, b / 16);
        push_hex_digit(&mut s, b % 16);
        proof {
            lemma_hex_of_snoc(bytes@.subrange(0, i as int), bytes@[i as int]);
            assert(bytes@.subrange(0, i + 1) =~= bytes@.subrange(0, i as int).push(
                bytes@[i as int],
            ));
            assert(s@ =~= hex_of(bytes@.subrange(0, i + 1)));
        }
        i = i + 1;
    }
    proof {
        assert(bytes@.subrange(0, n as int) =~= bytes@);
    }
    s
}

/// Whether two string slices hold the same characters.
fn str_eq(a: &str, b: &str) -> (r: bool)
    ensures
        r == (a@ == b@),
{
    let ab = a.as_bytes();
    let bb = b.as_bytes();
    if ab.len() != bb.len() {
        proof {
            assert(a@ != b@);
        }
        return false;
    }
    let n = ab.len();
    let mut i: usize = 0;
    while i < n
        invariant
            n == ab@.len() == bb@.len(),
            0 <= i <= n,
            ab@ == vstd::utf8::encode_utf8(a@),
            bb@ == vstd::utf8::encode_utf8(b@),
            forall|j: int| 0 <= j < i ==> ab@[j] == bb@[j],
        decreases n - i,
    {
        if ab[i] != bb[i] {
            proof {
                assert(ab@ != bb@);
            }
            return false;
        }
        i = i + 1;
    }
    proof {
        assert(ab@ =~= bb@);
        vstd::utf8::encode_utf8_decode_utf8(a@);
        vstd::utf8::encode_utf8_decode_utf8(b@);
    }
    true
}

/// The target triple for an operating system and architecture pair.
pub open spec fn target_triple_spec(os: Seq<char>, arch: Seq<char>) -> Seq<char> {
    if os == "windows"@ {
        if arch == "x86_64"@ {
            "x86_64-pc-windows-msvc"@
        } else if arch == "aarch64"@ {
            "aarch64-pc-windows-msvc"@
        } else {
            "unknown-pc-windows-msvc"@
        }
    } else if os == "linux"@ {
        if arch == "x86_64"@ {
            "x86_64-unknown-linux-gnu"@
        } else if arch == "aarch64"@ {
            "aarch64-unknown-linux-gnu"@
        } else {
            "unknown-unknown-linux-gnu"@
        }
    } else if os == "macos"@ {
        if arch == "x86_64"@ {
            "x86_64-apple-darwin"@
        } else if arch == "aarch64"@ {
            "aarch64-apple-darwin"@
        } else {
            "unknown-apple-darwin"@
        }
    } else {
        "unknown-unknown-unknown"@
    }
}

/// The target triple of the running build, from its operating system
/// and architecture names.
pub fn get_target_triple(os: &str, arch: &str) -> (r: String)
    ensures
        r@ == target_triple_spec(os@, arch@),
{
    if str_eq(os, "windows") {
        if str_eq(arch, "x86_64") {
            <String as StringExecFns>::from_str("x86_64-pc-windows-msvc")
        } else if str_eq(arch, "aarch64") {
            <String as StringExecFns>::from_str("aarch64-pc-windows-msvc")
        } else {
            <String as StringExecFns>::from_str("unknown-pc-windows-msvc")
        }
    } else if str_eq(os, "linux") {
        if str_eq(arch, "x86_64") {
            <String as StringExecFns>::from_str("x86_64-unknown-linux-gnu")
        } else if str_eq(arch, "aarch64") {
            <String as StringExecFns>::from_str("aarch64-unknown-linux-gnu")
        } else {
            <String as StringExecFns>::from_str("unknown-unknown-linux-gnu")
        }
    } else if str_eq(os, "macos") {
        if str_eq(arch, "x86_64") {
            <String as StringExecFns>::from_str("x86_64-apple-darwin")
        } else if str_eq(arch, "aarch64") {
            <String as StringExecFns>::from_str("aarch64-apple-darwin")
        } else {
            <String as StringExecFns>::from_str("unknown-apple-darwin")
        }
    } else {
        <String as StringExecFns>::from_str("unknown-unknown-unknown")
    }
}

/// Compute the build fingerprint from the executable bytes and the
/// build environment names. The commit is metadata; absent, "unknown".
pub fn fingerprint_from_parts(
    binary: &Vec<u8>,
    os: &str,
    arch: &str,
    profile: &str,
    git_commit: Option<String>,
) -> (r: BuildFingerprintData)
    ensures
        r.binary_sha256@ == hex_of(sha256_of(binary@)),
        r.target_triple@ == target_triple_spec(os@, arch@),
        r.profile@ == profile@,
        r.git_commit@ == (match git_commit {
            Some(c) => c@,
            None => "unknown"@,
        }),
{
    let digest = sha256_bytes(binary.as_slice());
    let binary_sha256 = bytes_to_hex(&digest);
    let target_triple = get_target_triple(os, arch);
    let profile_s = <String as StringExecFns>::from_str(profile);
    let git_commit_s = match git_commit {
        Some(c) => c,
        None => <String as StringExecFns>::from_str("unknown"),
    };
    BuildFingerprintData {
        binary_sha256,
        target_triple,
        profile: profile_s,
        git_commit: git_commit_s,
    }
}


/// Stream integrity of a verified artifact: for every mapped player and
/// every tick in the replay range there is exactly one applied input.
pub proof fn lemma_verified_stream_exactly_one(a: ReplayArtifactV, j: int, t: u64)
    requires
        a.initial_baseline is Some,
        stream_ok(a),
        0 <= j < a.player_entity_mapping.len(),
        a.initial_baseline.unwrap().tick <= t < a.checkpoint_tick,
    ensures
        input_count(a.inputs, a.player_entity_mapping[j].player_id, t) == 1,
{
}


/// Filtering keeps everything when every element matches.
proof fn lemma_filter_all<A>(s: Seq<A>, pred: spec_fn(A) -> bool)
    requires
        forall|i: int| 0 <= i < s.len() ==> pred(#[trigger] s[i]),
    ensures
        s.filter(pred) == s,
    decreases s.len(),
{
    reveal(Seq::filter);
    if s.len() > 0 {
        lemma_filter_all(s.drop_last(), pred);
        assert(s.drop_last().push(s.last()) =~= s);
    }
}

/// Wire round trip of applied inputs: converting the recorded wire form
/// back yields exactly the inputs the orchestrator applied.
pub proof fn lemma_converted_inputs_identity(s: Seq<AppliedInput>)
    ensures
        s.map_values(|a: AppliedInput| applied_wire_view(a)).map_values(
            |x: AppliedInputProtoV| converted_input(x),
        ) == s,
{
    let wired = s.map_values(|a: AppliedInput| applied_wire_view(a));
    let back = wired.map_values(|x: AppliedInputProtoV| converted_input(x));
    assert forall|i: int| 0 <= i < s.len() implies back[i] == s[i] by {
        assert(wired[i] == applied_wire_view(s[i]));
        assert(back[i] == converted_input(applied_wire_view(s[i])));
        let a = s[i];
        assert(converted_input(applied_wire_view(a)).move_dir =~= a.move_dir);
    }
    assert(back =~= s);
}

/// One recorded tick replays exactly: when every input of a block
/// targets tick `t`, the verifier's sorted step inputs for `t` equal the
/// orchestrator's own kernel inputs for that block, so one advance of
/// the replay agrees with the live step bit for bit.
pub proof fn lemma_recorded_tick_replays(applied: Seq<AppliedInput>, t: u64)
    requires
        forall|i: int| 0 <= i < applied.len() ==> (#[trigger] applied[i]).tick == t,
    ensures
        tick_step_inputs(applied, t) == crate::sim::sort_step_inputs_spec(
            applied.map_values(
                |a: AppliedInput| StepInput { player_id: a.player_id, move_dir: a.move_dir },
            ),
        ),
{
    lemma_filter_all(applied, |a: AppliedInput| a.tick == t);
}


/// The recorded wire inputs of a sequence of per-tick blocks, in order.
pub open spec fn flatten_blocks(blocks: Seq<Seq<AppliedInputProtoV>>) -> Seq<AppliedInputProtoV>
    decreases blocks.len(),
{
    if blocks.len() == 0 {
        Seq::empty()
    } else {
        flatten_blocks(blocks.drop_last()) + blocks.last()
    }
}

/// A well-formed recording: block `t` holds exactly one input per player
/// of the spawn order, in spawn order, each targeting tick `t` with a
/// two-component direction.
pub open spec fn blocks_wf(blocks: Seq<Seq<AppliedInputProtoV>>, order: Seq<u32>) -> bool {
    &&& forall|t: int| 0 <= t < blocks.len() ==> (#[trigger] blocks[t]).len() == order.len()
    &&& forall|t: int, i: int|
        0 <= t < blocks.len() && 0 <= i < order.len() ==> {
            &&& (#[trigger] blocks[t][i]).tick == t
            &&& blocks[t][i].player_id == order[i]
            &&& blocks[t][i].move_dir.len() == 2
        }
}

/// No two spawned players share an id.
pub open spec fn order_distinct(order: Seq<u32>) -> bool {
    forall|i: int, j: int|
        0 <= i < j < order.len() ==> #[trigger] order[i] != #[trigger] order[j]
}

/// Filtering drops everything when no element matches.
proof fn lemma_filter_none<A>(s: Seq<A>, pred: spec_fn(A) -> bool)
    requires
        forall|i: int| 0 <= i < s.len() ==> !pred(#[trigger] s[i]),
    ensures
        s.filter(pred).len() == 0,
    decreases s.len(),
{
    reveal(Seq::filter);
    if s.len() > 0 {
        lemma_filter_none(s.drop_last(), pred);
        assert(s.drop_last().push(s.last()) =~= s);
    }
}

/// In a block holding one input per player in spawn order, exactly one
/// input belongs to the j-th player.
proof fn lemma_block_count(
    block: Seq<AppliedInputProtoV>,
    order: Seq<u32>,
    j: int,
    pid: u32,
    t: u64,
)
    requires
        block.len() <= order.len(),
        forall|i: int| 0 <= i < block.len() ==> (#[trigger] block[i]).player_id == order[i],
        forall|i: int| 0 <= i < block.len() ==> (#[trigger] block[i]).tick == t,
        order_distinct(order),
        0 <= j < order.len(),
        pid == order[j],
    ensures
        block.filter(|x: AppliedInputProtoV| x.player_id == pid && x.tick == t).len() == (
        if j < block.len() {
            1int
        } else {
            0int
        }),
    decreases block.len(),
{
    reveal(Seq::filter);
    if block.len() > 0 {
        let rest = block.drop_last();
        assert(forall|i: int|
            0 <= i < rest.len() ==> (#[trigger] rest[i]).player_id == order[i] && rest[i].tick
                == t) by {
            assert(forall|i: int| 0 <= i < rest.len() ==> rest[i] == #[trigger] block[i]);
        }
        lemma_block_count(rest, order, j, pid, t);
        let last = block.last();
        assert(last.player_id == order[block.len() - 1]);
        if j == block.len() - 1 {
            assert(last.player_id == pid && last.tick == t);
        } else {
            assert(order[block.len() - 1] != order[j] || order[j] != order[block.len() - 1]);
            assert(last.player_id != pid);
        }
    }
}

/// Every element of the flattened recording lies in its block's tick and
/// belongs to a spawned player.
proof fn lemma_flatten_elems(blocks: Seq<Seq<AppliedInputProtoV>>, order: Seq<u32>)
    requires
        blocks_wf(blocks, order),
        order.len() > 0 || flatten_blocks(blocks).len() == 0,
    ensures
        forall|k: int|
            0 <= k < flatten_blocks(blocks).len() ==> {
                &&& 0 <= (#[trigger] flatten_blocks(blocks)[k]).tick < blocks.len()
                &&& exists|i: int|
                    0 <= i < order.len() && order[i] == flatten_blocks(blocks)[k].player_id
                &&& flatten_blocks(blocks)[k].move_dir.len() == 2
            },
    decreases blocks.len(),
{
    if blocks.len() > 0 {
        let prefix = blocks.drop_last();
        assert(blocks_wf(prefix, order)) by {
            assert(forall|t: int| 0 <= t < prefix.len() ==> prefix[t] == #[trigger] blocks[t]);
        }
        if order.len() == 0 {
            assert(blocks.last().len() == 0 || order.len() > 0);
            if blocks.last().len() > 0 {
                assert(blocks[blocks.len() - 1].len() == order.len());
            }
        }
        lemma_flatten_elems(prefix, order);
        let whole = flatten_blocks(blocks);
        let fp = flatten_blocks(prefix);
        let last = blocks.last();
        assert forall|k: int| 0 <= k < whole.len() implies {
            &&& 0 <= (#[trigger] whole[k]).tick < blocks.len()
            &&& exists|i: int| 0 <= i < order.len() && order[i] == whole[k].player_id
            &&& whole[k].move_dir.len() == 2
        } by {
            if k < fp.len() {
                assert(whole[k] == fp[k]);
            } else {
                assert(whole[k] == last[k - fp.len()]);
                assert(blocks[blocks.len() - 1][k - fp.len()].tick == blocks.len() - 1);
            }
        }
    }
}

/// Exactly one recorded input per spawned player and covered tick.
proof fn lemma_flatten_count(
    blocks: Seq<Seq<AppliedInputProtoV>>,
    order: Seq<u32>,
    j: int,
    t: u64,
)
    requires
        blocks_wf(blocks, order),
        order_distinct(order),
        0 <= j < order.len(),
        0 <= t < blocks.len(),
    ensures
        input_count(flatten_blocks(blocks), order[j], t) == 1,
    decreases blocks.len(),
{
    let pid = order[j];
    let pred = |x: AppliedInputProtoV| x.player_id == pid && x.tick == t;
    let prefix = blocks.drop_last();
    let last = blocks.last();
    assert(blocks_wf(prefix, order)) by {
        assert(forall|tt: int| 0 <= tt < prefix.len() ==> prefix[tt] == #[trigger] blocks[tt]);
    }
    Seq::filter_distributes_over_add(flatten_blocks(prefix), last, pred);
    assert(flatten_blocks(blocks) == flatten_blocks(prefix) + last);
    assert(forall|i: int|
        0 <= i < last.len() ==> (#[trigger] last[i]).player_id == order[i] && last[i].tick
            == blocks.len() - 1 && last[i].move_dir.len() == 2) by {
        assert(forall|i: int|
            0 <= i < last.len() ==> #[trigger] last[i] == blocks[blocks.len() - 1][i]);
    }
    if t == blocks.len() - 1 {
        // The prefix holds no input for tick t.
        lemma_flatten_elems(prefix, order);
        lemma_filter_none(flatten_blocks(prefix), pred);
        lemma_block_count(last, order, j, pid, t);
    } else {
        lemma_flatten_count(prefix, order, j, t);
        lemma_filter_none(last, pred);
    }
}

/// With one mapping entry per spawn and distinct player ids, the last
/// matching entry for the i-th spawned player expects entity id i+1.
proof fn lemma_lookup_last_spawned(mapping: Seq<PlayerEntityMapping>, order: Seq<u32>, i: int)
    requires
        mapping.len() == order.len(),
        forall|k: int|
            0 <= k < mapping.len() ==> #[trigger] mapping[k] == (PlayerEntityMapping {
                player_id: order[k],
                entity_id: (k + 1) as u64,
            }),
        order_distinct(order),
        0 <= i < order.len(),
    ensures
        mapping_lookup_last(mapping, order[i]) == Some((i + 1) as u64),
    decreases mapping.len(),
{
    let last = mapping.last();
    if i == mapping.len() - 1 {
        assert(last.player_id == order[i]);
    } else {
        assert(last.player_id == order[mapping.len() - 1]);
        assert(order[i] != order[mapping.len() - 1]);
        let rest = mapping.drop_last();
        let order_rest = order.drop_last();
        assert(rest.len() == order_rest.len());
        assert(forall|k: int|
            0 <= k < rest.len() ==> #[trigger] rest[k] == (PlayerEntityMapping {
                player_id: order_rest[k],
                entity_id: (k + 1) as u64,
            })) by {
            assert(forall|k: int| 0 <= k < rest.len() ==> rest[k] == #[trigger] mapping[k]);
            assert(forall|k: int|
                0 <= k < order_rest.len() ==> order_rest[k] == #[trigger] order[k]);
        }
        assert(order_distinct(order_rest)) by {
            assert(forall|a: int|
                0 <= a < order_rest.len() ==> #[trigger] order_rest[a] == order[a]);
        }
        lemma_lookup_last_spawned(rest, order_rest, i);
        assert(order_rest[i] == order[i]);
    }
}

/// A recording made of well-formed per-tick blocks has a valid input
/// stream and reconstructs its spawns: together with the anchor and
/// digest hypotheses this is what a successful verification asks for.
pub proof fn lemma_recorded_stream_valid(a: ReplayArtifactV, blocks: Seq<Seq<AppliedInputProtoV>>)
    requires
        a.initial_baseline matches Some(b) && b.tick == 0,
        a.checkpoint_tick == blocks.len(),
        a.inputs == flatten_blocks(blocks),
        blocks_wf(blocks, a.entity_spawn_order),
        order_distinct(a.entity_spawn_order),
        a.entity_spawn_order.len() < 0x10000000,
        a.player_entity_mapping.len() == a.entity_spawn_order.len(),
        forall|k: int|
            0 <= k < a.player_entity_mapping.len() ==> #[trigger] a.player_entity_mapping[k]
                == (PlayerEntityMapping {
                player_id: a.entity_spawn_order[k],
                entity_id: (k + 1) as u64,
            }),
    ensures
        stream_ok(a),
        spawn_ok(a),
        inputs_convertible(a),
{
    let order = a.entity_spawn_order;
    assert forall|j: int, t: u64|
        0 <= j < a.player_entity_mapping.len() && 0 <= t < a.checkpoint_tick
        implies #[trigger] input_count(a.inputs, a.player_entity_mapping[j].player_id, t)
        == 1 by {
        assert(a.player_entity_mapping[j].player_id == order[j]);
        lemma_flatten_count(blocks, order, j, t);
    }
    if order.len() == 0 {
        lemma_flatten_len_zero(blocks, order);
    }
    lemma_flatten_elems(blocks, order);
    assert forall|i: int|
        0 <= i < a.inputs.len() implies 0 <= (#[trigger] a.inputs[i]).tick < a.checkpoint_tick
        && mapping_knows(a.player_entity_mapping, a.inputs[i].player_id) by {
        assert(a.inputs[i] == flatten_blocks(blocks)[i]);
        let w = choose|w: int|
            0 <= w < order.len() && order[w] == flatten_blocks(blocks)[i].player_id;
        assert(a.player_entity_mapping[w].player_id == order[w]);
        assert(a.player_entity_mapping[w].player_id == a.inputs[i].player_id);
    }
    assert forall|i: int| 0 <= i < order.len() implies match mapping_lookup_last(
        a.player_entity_mapping,
        #[trigger] order[i],
    ) {
        Some(eid) => eid == i + 1,
        None => true,
    } by {
        lemma_lookup_last_spawned(a.player_entity_mapping, order, i);
    }
}

/// With no spawned players, well-formed blocks are all empty.
proof fn lemma_flatten_len_zero(blocks: Seq<Seq<AppliedInputProtoV>>, order: Seq<u32>)
    requires
        blocks_wf(blocks, order),
        order.len() == 0,
    ensures
        flatten_blocks(blocks).len() == 0,
    decreases blocks.len(),
{
    if blocks.len() > 0 {
        let prefix = blocks.drop_last();
        assert(blocks_wf(prefix, order)) by {
            assert(forall|t: int| 0 <= t < prefix.len() ==> prefix[t] == #[trigger] blocks[t]);
        }
        lemma_flatten_len_zero(prefix, order);
        assert(blocks[blocks.len() - 1].len() == order.len());
    }
}


/// The kernel inputs of one recorded block: converted, then sorted by
/// player id, exactly as the verifier builds them.
pub open spec fn block_step_inputs(block: Seq<AppliedInputProtoV>) -> Seq<StepInput> {
    crate::sim::sort_step_inputs_spec(
        block.map_values(|x: AppliedInputProtoV| converted_input(x)).map_values(
            |a: AppliedInput| StepInput { player_id: a.player_id, move_dir: a.move_dir },
        ),
    )
}

/// The characters after replaying the first `t` recorded blocks.
pub open spec fn run_blocks_upto(
    chars0: Seq<crate::sim::Character>,
    dt: u64,
    blocks: Seq<Seq<AppliedInputProtoV>>,
    t: int,
) -> Seq<crate::sim::Character>
    decreases t,
{
    if t <= 0 {
        chars0
    } else {
        crate::sim::apply_inputs_spec(
            run_blocks_upto(chars0, dt, blocks, t - 1),
            block_step_inputs(blocks[t - 1]),
            dt,
        )
    }
}

/// Mapping distributes over concatenation.
proof fn lemma_map_add<A, B>(x: Seq<A>, y: Seq<A>, f: spec_fn(A) -> B)
    ensures
        (x + y).map_values(f) == x.map_values(f) + y.map_values(f),
{
    assert((x + y).map_values(f) =~= x.map_values(f) + y.map_values(f));
}

/// The converted recording filtered to one covered tick is exactly that
/// tick's converted block.
proof fn lemma_tick_filter(blocks: Seq<Seq<AppliedInputProtoV>>, order: Seq<u32>, t: u64)
    requires
        blocks_wf(blocks, order),
        0 <= t < blocks.len(),
    ensures
        flatten_blocks(blocks).map_values(|x: AppliedInputProtoV| converted_input(x)).filter(
            |a: AppliedInput| a.tick == t,
        ) == blocks[t as int].map_values(|x: AppliedInputProtoV| converted_input(x)),
    decreases blocks.len(),
{
    let cv = |x: AppliedInputProtoV| converted_input(x);
    let pred = |a: AppliedInput| a.tick == t;
    let prefix = blocks.drop_last();
    let last = blocks.last();
    assert(blocks_wf(prefix, order)) by {
        assert(forall|tt: int| 0 <= tt < prefix.len() ==> prefix[tt] == #[trigger] blocks[tt]);
    }
    assert(flatten_blocks(blocks) == flatten_blocks(prefix) + last);
    lemma_map_add(flatten_blocks(prefix), last, cv);
    Seq::filter_distributes_over_add(
        flatten_blocks(prefix).map_values(cv),
        last.map_values(cv),
        pred,
    );
    assert(forall|i: int|
        0 <= i < last.len() ==> (#[trigger] last[i]).tick == blocks.len() - 1) by {
        assert(forall|i: int|
            0 <= i < last.len() ==> #[trigger] last[i] == blocks[blocks.len() - 1][i]);
    }
    if t == blocks.len() - 1 {
        if order.len() == 0 {
            lemma_flatten_len_zero(prefix, order);
            assert(flatten_blocks(prefix).map_values(cv).len() == 0);
            lemma_filter_none(flatten_blocks(prefix).map_values(cv), pred);
        } else {
            lemma_flatten_elems(prefix, order);
            assert forall|i: int|
                0 <= i < flatten_blocks(prefix).map_values(cv).len() implies !pred(
                #[trigger] flatten_blocks(prefix).map_values(cv)[i],
            ) by {
                assert(flatten_blocks(prefix).map_values(cv)[i] == converted_input(
                    flatten_blocks(prefix)[i],
                ));
                assert(flatten_blocks(prefix)[i].tick < prefix.len());
            }
            lemma_filter_none(flatten_blocks(prefix).map_values(cv), pred);
        }
        assert forall|i: int|
            0 <= i < last.map_values(cv).len() implies pred(
            #[trigger] last.map_values(cv)[i],
        ) by {
            assert(last.map_values(cv)[i] == converted_input(last[i]));
        }
        lemma_filter_all(last.map_values(cv), pred);
        assert(Seq::<AppliedInput>::empty() + last.map_values(cv) =~= last.map_values(cv));
        assert(blocks[t as int] == last);
    } else {
        lemma_tick_filter(prefix, order, t);
        assert forall|i: int|
            0 <= i < last.map_values(cv).len() implies !pred(
            #[trigger] last.map_values(cv)[i],
        ) by {
            assert(last.map_values(cv)[i] == converted_input(last[i]));
        }
        lemma_filter_none(last.map_values(cv), pred);
        assert(prefix[t as int] == blocks[t as int]);
        assert(flatten_blocks(prefix).map_values(cv).filter(pred) + Seq::<
            AppliedInput,
        >::empty() =~= flatten_blocks(prefix).map_values(cv).filter(pred));
    }
}

/// Replaying from the k-th tick of a well-formed recording reaches the
/// checkpoint with the blocks folded in, in order.
proof fn lemma_replay_runs_blocks(
    blocks: Seq<Seq<AppliedInputProtoV>>,
    order: Seq<u32>,
    chars0: Seq<crate::sim::Character>,
    dt: u64,
    cp: u64,
    k: u64,
)
    requires
        blocks_wf(blocks, order),
        cp == blocks.len(),
        0 <= k <= cp,
    ensures
        replay_run(
            run_blocks_upto(chars0, dt, blocks, k as int),
            k,
            dt,
            flatten_blocks(blocks).map_values(|x: AppliedInputProtoV| converted_input(x)),
            k,
            cp,
        ) == (cp, run_blocks_upto(chars0, dt, blocks, cp as int)),
    decreases cp - k,
{
    let applied = flatten_blocks(blocks).map_values(|x: AppliedInputProtoV| converted_input(x));
    if k == cp {
    } else {
        lemma_tick_filter(blocks, order, k);
        assert(tick_step_inputs(applied, k) == block_step_inputs(blocks[k as int]));
        assert(run_blocks_upto(chars0, dt, blocks, k + 1) == crate::sim::apply_inputs_spec(
            run_blocks_upto(chars0, dt, blocks, k as int),
            tick_step_inputs(applied, k),
            dt,
        ));
        lemma_replay_runs_blocks(blocks, order, chars0, dt, cp, (k + 1) as u64);
    }
}

/// Record-then-verify, the re-execution half: a well-formed recording of
/// per-tick blocks replays from the spawned world to the checkpoint tick
/// with the blocks folded in, in order. Together with
/// `lemma_recorded_stream_valid` and the contract of `verify_replay`,
/// an artifact whose baseline digest anchors the spawned world and whose
/// final digest is the digest of that folded state verifies with `Ok`.
pub proof fn lemma_recorded_blocks_replay(a: ReplayArtifactV, blocks: Seq<Seq<AppliedInputProtoV>>)
    requires
        a.initial_baseline matches Some(b) && b.tick == 0,
        a.checkpoint_tick == blocks.len(),
        a.inputs == flatten_blocks(blocks),
        blocks_wf(blocks, a.entity_spawn_order),
    ensures
        replay_run(
            replay_chars0(a),
            0,
            replay_dt(a),
            converted_inputs(a),
            a.initial_baseline.unwrap().tick,
            a.checkpoint_tick,
        ) == (
            a.checkpoint_tick,
            run_blocks_upto(
                replay_chars0(a),
                replay_dt(a),
                blocks,
                a.checkpoint_tick as int,
            ),
        ),
{
    lemma_replay_runs_blocks(
        blocks,
        a.entity_spawn_order,
        replay_chars0(a),
        replay_dt(a),
        a.checkpoint_tick,
        0,
    );
}


/// The wire form of one orchestrator block keeps its shape: one input
/// per player in spawn order, all at the block's tick, each with a
/// two-component direction. This is the per-block obligation of
/// `blocks_wf` for a recording the orchestrator produced.
pub proof fn lemma_wired_block_shape(applied: Seq<AppliedInput>, order: Seq<PlayerId>, t: Tick)
    requires
        applied.len() == order.len(),
        forall|i: int|
            0 <= i < applied.len() ==> (#[trigger] applied[i]).tick == t && applied[i].player_id
                == order[i],
    ensures
        ({
            let wired = applied.map_values(|a: AppliedInput| applied_wire_view(a));
            &&& wired.len() == order.len()
            &&& forall|i: int|
                0 <= i < wired.len() ==> (#[trigger] wired[i]).tick == t && wired[i].player_id
                    == order[i] as u32 && wired[i].move_dir.len() == 2
        }),
{
    let wired = applied.map_values(|a: AppliedInput| applied_wire_view(a));
    assert forall|i: int|
        0 <= i < wired.len() implies (#[trigger] wired[i]).tick == t && wired[i].player_id
        == order[i] as u32 && wired[i].move_dir.len() == 2 by {
        assert(wired[i] == applied_wire_view(applied[i]));
    }
}

} // verus!





