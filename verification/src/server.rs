//! Match orchestration: session admission, match start, per-tick
//! stepping, snapshot broadcasting and finalization.
//!
//! The orchestrator owns the world, the input buffer, the session table,
//! the last-known-intent map and the replay recorder. Its per-tick step
//! drains the buffer in spawn order, falls back to last known intent,
//! advances the kernel, raises every session's floor and emits one
//! broadcast byte string shared by all recipients.

use vstd::prelude::*;

use crate::input_buffer::{find_slot, BufferSlotV, InputBuffer};
use crate::replay::{clone_fingerprint, AppliedInput, BuildFingerprintData, ReplayConfig,
    ReplayRecorder};
use crate::session::{Session, SessionId};
use crate::sim::{snapshots_of_characters, sort_step_inputs, sort_step_inputs_spec, world_digest,
    Baseline, EntityId, PlayerId, Snapshot, StepInput, Tick, World};
use crate::validation::{validate_input, validate_precheck_spec, ValidationConfig,
    ValidationResult};
use crate::wire::{enc_snapshot_proto, entity_wire_view, lemma_entity_body_small,
    EntitySnapshotProto, InputCmdProto, JoinBaseline, ReplayArtifact, ServerWelcome,
    SnapshotProto, SnapshotProtoV};

verus! {

/// Normative tick rate in Hz.
pub const TICK_RATE_HZ: u32 = 60;

/// Maximum ticks ahead a client can target.
pub const MAX_FUTURE_TICKS: u64 = 120;

/// Target tick floor lead.
pub const INPUT_LEAD_TICKS: u64 = 1;

/// Input rate limit per second.
pub const INPUT_RATE_LIMIT_PER_SEC: u32 = 120;

/// Match duration in ticks.
pub const MATCH_DURATION_TICKS: u64 = 3600;

/// Connection timeout in milliseconds, enforced by an external poller.
pub const CONNECT_TIMEOUT_MS: u64 = 30000;

/// Reason for match termination.
#[derive(Clone, Copy, Debug, PartialEq, Eq, Structural)]
pub enum EndReason {
    Complete,
    Disconnect,
}

/// The end reason's recorded name.
pub open spec fn end_reason_str(e: EndReason) -> Seq<char> {
    match e {
        EndReason::Complete => "complete"@,
        EndReason::Disconnect => "disconnect"@,
    }
}

impl EndReason {
    /// The reason's recorded name.
    pub fn as_str(&self) -> (r: &'static str)
        ensures
            r@ == end_reason_str(*self),
    {
        match self {
            Self::Complete => "complete",
            Self::Disconnect => "disconnect",
        }
    }
}

/// Server configuration: one value, threaded through the orchestrator.
#[derive(Clone, Copy, Debug, PartialEq, Eq)]
pub struct ServerConfig {
    pub seed: u64,
    pub tick_rate_hz: u32,
    pub max_future_ticks: u64,
    pub input_lead_ticks: u64,
    pub input_rate_limit_per_sec: u32,
    pub match_duration_ticks: u64,
    pub connect_timeout_ms: u64,
    pub test_mode: bool,
    pub test_player_ids: Option<(PlayerId, PlayerId)>,
}

impl Default for ServerConfig {
    /// The normative parameter set.
    fn default() -> (r: Self)
        ensures
            r == (ServerConfig {
                seed: 0u64,
                tick_rate_hz: TICK_RATE_HZ,
                max_future_ticks: MAX_FUTURE_TICKS,
                input_lead_ticks: INPUT_LEAD_TICKS,
                input_rate_limit_per_sec: INPUT_RATE_LIMIT_PER_SEC,
                match_duration_ticks: MATCH_DURATION_TICKS,
                connect_timeout_ms: CONNECT_TIMEOUT_MS,
                test_mode: false,
                test_player_ids: None::<(PlayerId, PlayerId)>,
            }),
    {
        ServerConfig {
            seed: 0,
            tick_rate_hz: TICK_RATE_HZ,
            max_future_ticks: MAX_FUTURE_TICKS,
            input_lead_ticks: INPUT_LEAD_TICKS,
            input_rate_limit_per_sec: INPUT_RATE_LIMIT_PER_SEC,
            match_duration_ticks: MATCH_DURATION_TICKS,
            connect_timeout_ms: CONNECT_TIMEOUT_MS,
            test_mode: false,
            test_player_ids: None,
        }
    }
}

/// First session index with the given id, if any.
pub open spec fn find_session(s: Seq<Session>, sid: SessionId) -> Option<int>
    decreases s.len(),
{
    if s.len() == 0 {
        None
    } else if s[0].id == sid {
        Some(0)
    } else {
        match find_session(s.subrange(1, s.len() as int), sid) {
            Some(i) => Some(i + 1),
            None => None,
        }
    }
}

/// A found session index is in range and matches.
pub proof fn lemma_find_session(s: Seq<Session>, sid: SessionId)
    ensures
        match find_session(s, sid) {
            Some(i) => 0 <= i < s.len() && s[i].id == sid,
            None => forall|i: int| 0 <= i < s.len() ==> s[i].id != sid,
        },
    decreases s.len(),
{
    if s.len() > 0 {
        let rest = s.subrange(1, s.len() as int);
        lemma_find_session(rest, sid);
        if s[0].id != sid {
            match find_session(rest, sid) {
                Some(i) => {
                    assert(rest[i] == s[i + 1]);
                },
                None => {
                    assert forall|i: int| 0 <= i < s.len() implies s[i].id != sid by {
                        if i > 0 {
                            assert(rest[i - 1] == s[i]);
                        }
                    }
                },
            }
        }
    }
}

/// First index with the given player in the last-known-intent list.
pub open spec fn lki_find(lki: Seq<(PlayerId, [u64; 2])>, pid: PlayerId) -> Option<int>
    decreases lki.len(),
{
    if lki.len() == 0 {
        None
    } else if lki[0].0 == pid {
        Some(0)
    } else {
        match lki_find(lki.subrange(1, lki.len() as int), pid) {
            Some(i) => Some(i + 1),
            None => None,
        }
    }
}

/// The player's last known intent, zero if none was recorded.
pub open spec fn lki_get(lki: Seq<(PlayerId, [u64; 2])>, pid: PlayerId) -> [u64; 2] {
    match lki_find(lki, pid) {
        Some(i) => lki[i].1,
        None => [0u64, 0u64],
    }
}

/// The list after recording the player's intent: the first entry is
/// replaced, or one is appended.
pub open spec fn lki_set(lki: Seq<(PlayerId, [u64; 2])>, pid: PlayerId, v: [u64; 2]) -> Seq<
    (PlayerId, [u64; 2]),
> {
    match lki_find(lki, pid) {
        Some(i) => lki.update(i, (pid, v)),
        None => lki.push((pid, v)),
    }
}

/// A found intent index is in range and matches.
pub proof fn lemma_lki_find(lki: Seq<(PlayerId, [u64; 2])>, pid: PlayerId)
    ensures
        match lki_find(lki, pid) {
            Some(i) => 0 <= i < lki.len() && lki[i].0 == pid,
            None => forall|i: int| 0 <= i < lki.len() ==> lki[i].0 != pid,
        },
    decreases lki.len(),
{
    if lki.len() > 0 {
        let rest = lki.subrange(1, lki.len() as int);
        lemma_lki_find(rest, pid);
        if lki[0].0 != pid {
            match lki_find(rest, pid) {
                Some(i) => {
                    assert(rest[i] == lki[i + 1]);
                },
                None => {
                    assert forall|i: int| 0 <= i < lki.len() implies lki[i].0 != pid by {
                        if i > 0 {
                            assert(rest[i - 1] == lki[i]);
                        }
                    }
                },
            }
        }
    }
}

/// If the earlier entries miss and this one matches, it is the found one.
proof fn lemma_lki_find_first(lki: Seq<(PlayerId, [u64; 2])>, pid: PlayerId, idx: int)
    requires
        0 <= idx < lki.len(),
        lki[idx].0 == pid,
        forall|j: int| 0 <= j < idx ==> lki[j].0 != pid,
    ensures
        lki_find(lki, pid) == Some(idx),
    decreases lki.len(),
{
    if idx > 0 {
        lemma_lki_find_first(lki.subrange(1, lki.len() as int), pid, idx - 1);
    }
}

/// First index with the given session in the floor list.
pub open spec fn floor_find(floors: Seq<(SessionId, Tick)>, sid: SessionId) -> Option<int>
    decreases floors.len(),
{
    if floors.len() == 0 {
        None
    } else if floors[0].0 == sid {
        Some(0)
    } else {
        match floor_find(floors.subrange(1, floors.len() as int), sid) {
            Some(i) => Some(i + 1),
            None => None,
        }
    }
}

/// The session's last emitted floor, zero if none was recorded.
pub open spec fn floor_get(floors: Seq<(SessionId, Tick)>, sid: SessionId) -> Tick {
    match floor_find(floors, sid) {
        Some(i) => floors[i].1,
        None => 0u64,
    }
}

/// The floor list after recording one session's floor.
pub open spec fn floor_set(floors: Seq<(SessionId, Tick)>, sid: SessionId, floor: Tick) -> Seq<
    (SessionId, Tick),
> {
    match floor_find(floors, sid) {
        Some(i) => floors.update(i, (sid, floor)),
        None => floors.push((sid, floor)),
    }
}

/// A found floor index is in range and matches.
pub proof fn lemma_floor_find(floors: Seq<(SessionId, Tick)>, sid: SessionId)
    ensures
        match floor_find(floors, sid) {
            Some(i) => 0 <= i < floors.len() && floors[i].0 == sid,
            None => forall|i: int| 0 <= i < floors.len() ==> floors[i].0 != sid,
        },
    decreases floors.len(),
{
    if floors.len() > 0 {
        let rest = floors.subrange(1, floors.len() as int);
        lemma_floor_find(rest, sid);
        if floors[0].0 != sid {
            match floor_find(rest, sid) {
                Some(i) => {
                    assert(rest[i] == floors[i + 1]);
                },
                None => {
                    assert forall|i: int| 0 <= i < floors.len() implies floors[i].0 != sid by {
                        if i > 0 {
                            assert(rest[i - 1] == floors[i]);
                        }
                    }
                },
            }
        }
    }
}

/// If the earlier entries miss and this one matches, it is the found one.
proof fn lemma_floor_find_first(floors: Seq<(SessionId, Tick)>, sid: SessionId, idx: int)
    requires
        0 <= idx < floors.len(),
        floors[idx].0 == sid,
        forall|j: int| 0 <= j < idx ==> floors[j].0 != sid,
    ensures
        floor_find(floors, sid) == Some(idx),
    decreases floors.len(),
{
    if idx > 0 {
        lemma_floor_find_first(floors.subrange(1, floors.len() as int), sid, idx - 1);
    }
}

/// The floor list after raising every listed session to the new floor,
/// in session order.
pub open spec fn floors_after(
    floors: Seq<(SessionId, Tick)>,
    sessions: Seq<Session>,
    floor: Tick,
) -> Seq<(SessionId, Tick)>
    decreases sessions.len(),
{
    if sessions.len() == 0 {
        floors
    } else {
        floors_after(
            floor_set(floors, sessions[0].id, floor),
            sessions.subrange(1, sessions.len() as int),
            floor,
        )
    }
}

/// The player id the next accepted session receives.
pub open spec fn accept_pid(config: ServerConfig, n_sessions: int) -> PlayerId {
    match config.test_player_ids {
        Some((id1, id2)) => if n_sessions == 0 {
            id1
        } else {
            id2
        },
        None => n_sessions as PlayerId,
    }
}

/// One player's applied input, the slot it consumed and the intent it
/// leaves behind: the per-player core of the per-tick step.
pub open spec fn step_one_player(
    slots: Seq<BufferSlotV>,
    lki: Seq<(PlayerId, [u64; 2])>,
    p: PlayerId,
    t: Tick,
) -> ([u64; 2], bool, Seq<BufferSlotV>) {
    match find_slot(slots, p, t) {
        Some(i) => {
            let e = slots[i];
            let slots1 = slots.remove(i);
            if e.max_seq_tied {
                (lki_get(lki, p), true, slots1)
            } else if e.selected.move_dir.len() == 2 {
                ([e.selected.move_dir[0], e.selected.move_dir[1]], false, slots1)
            } else {
                ([0u64, 0u64], false, slots1)
            }
        },
        None => (lki_get(lki, p), true, slots),
    }
}

/// The applied inputs of one tick, produced per player in spawn order,
/// with the buffer and intent state they leave behind.
pub open spec fn step_applied_rec(
    order: Seq<PlayerId>,
    slots: Seq<BufferSlotV>,
    lki: Seq<(PlayerId, [u64; 2])>,
    t: Tick,
) -> (Seq<AppliedInput>, Seq<BufferSlotV>, Seq<(PlayerId, [u64; 2])>)
    decreases order.len(),
{
    if order.len() == 0 {
        (Seq::empty(), slots, lki)
    } else {
        let p = order[0];
        let (dir, fb, slots1) = step_one_player(slots, lki, p, t);
        let a = AppliedInput { tick: t, player_id: p, move_dir: dir, is_fallback: fb };
        let lki1 = lki_set(lki, p, dir);
        let (rest, slots2, lki2) = step_applied_rec(
            order.subrange(1, order.len() as int),
            slots1,
            lki1,
            t,
        );
        (seq![a] + rest, slots2, lki2)
    }
}

/// The step inputs handed to the kernel: the applied inputs of the tick,
/// sorted by player id ascending.
pub open spec fn step_inputs_of(applied: Seq<AppliedInput>) -> Seq<StepInput> {
    sort_step_inputs_spec(
        applied.map_values(
            |a: AppliedInput| StepInput { player_id: a.player_id, move_dir: a.move_dir },
        ),
    )
}

/// The wire view of a snapshot broadcast with its floor.
pub open spec fn snapshot_wire_view(
    tick: Tick,
    entities: Seq<crate::sim::EntitySnapshot>,
    digest: u64,
    floor: Tick,
) -> SnapshotProtoV {
    SnapshotProtoV {
        tick,
        entities: entities.map_values(|e: crate::sim::EntitySnapshot| entity_wire_view(e)),
        digest,
        target_tick_floor: floor,
    }
}

/// Server state for running one match.
pub struct Server {
    pub config: ServerConfig,
    pub world: World,
    /// Sessions in acceptance order.
    pub sessions: Vec<Session>,
    pub next_session_id: SessionId,
    pub input_buffer: InputBuffer,
    /// Last known intent per player.
    pub last_known_intent: Vec<(PlayerId, [u64; 2])>,
    /// Last emitted target tick floor per session.
    pub last_emitted_floor: Vec<(SessionId, Tick)>,
    pub replay_recorder: ReplayRecorder,
    /// Player ids in spawn order.
    pub entity_spawn_order: Vec<PlayerId>,
    /// Player-to-entity pairs in spawn order.
    pub player_entity_mapping: Vec<(PlayerId, EntityId)>,
    /// Tick at which the match started.
    pub initial_tick: Tick,
    pub match_started: bool,
    pub build_fingerprint: Option<BuildFingerprintData>,
}

impl Server {
    /// Create a new server with the given configuration.
    pub fn new(config: ServerConfig) -> (r: Self)
        requires
            config.tick_rate_hz > 0,
        ensures
            r.config == config,
            r.world.wf(),
            r.world.cur_tick == 0,
            r.world.rate_hz == config.tick_rate_hz,
            r.world.characters@.len() == 0,
            r.world.seed == config.seed,
            r.sessions@.len() == 0,
            r.next_session_id == 1,
            r.input_buffer.config == (ValidationConfig {
                max_future_ticks: config.max_future_ticks,
                input_rate_limit_per_sec: config.input_rate_limit_per_sec,
                tick_rate_hz: config.tick_rate_hz,
            }),
            r.input_buffer.per_tick_limit == crate::input_buffer::per_tick_limit_spec(
                config.input_rate_limit_per_sec,
                config.tick_rate_hz,
            ),
            r.input_buffer.slots() == Seq::<BufferSlotV>::empty(),
            r.last_known_intent@.len() == 0,
            r.last_emitted_floor@.len() == 0,
            r.replay_recorder.config.seed == config.seed,
            r.replay_recorder.config.tick_rate_hz == config.tick_rate_hz,
            r.replay_recorder.config.rng_algorithm@ == "none"@,
            r.replay_recorder.config.test_mode == config.test_mode,
            r.replay_recorder.config.test_player_ids@ == (match config.test_player_ids {
                Some((a, b)) => seq![a, b],
                None => Seq::<PlayerId>::empty(),
            }),
            r.replay_recorder.entity_spawn_order@.len() == 0,
            r.replay_recorder.player_entity_mapping@.len() == 0,
            r.replay_recorder.initial_baseline is None,
            r.replay_recorder.inputs@.len() == 0,
            r.replay_recorder.build_fingerprint is None,
            r.entity_spawn_order@.len() == 0,
            r.player_entity_mapping@.len() == 0,
            r.initial_tick == 0,
            r.match_started == false,
            r.build_fingerprint is None,
    {
        let validation_config = ValidationConfig {
            max_future_ticks: config.max_future_ticks,
            input_rate_limit_per_sec: config.input_rate_limit_per_sec,
            tick_rate_hz: config.tick_rate_hz,
        };
        let mut test_player_ids: Vec<PlayerId> = Vec::new();
        match config.test_player_ids {
            Some((a, b)) => {
                test_player_ids.push(a);
                test_player_ids.push(b);
            },
            None => {},
        }
        proof {
            match config.test_player_ids {
                Some((a, b)) => {
                    assert(test_player_ids@ =~= seq![a, b]);
                },
                None => {
                    assert(test_player_ids@ =~= Seq::<PlayerId>::empty());
                },
            }
        }
        let replay_config = ReplayConfig {
            seed: config.seed,
            tick_rate_hz: config.tick_rate_hz,
            rng_algorithm: <String as vstd::string::StringExecFns>::from_str("none"),
            test_mode: config.test_mode,
            test_player_ids,
        };
        Server {
            world: World::new(config.seed, config.tick_rate_hz),
            sessions: Vec::new(),
            next_session_id: 1,
            input_buffer: InputBuffer::new(validation_config),
            last_known_intent: Vec::new(),
            last_emitted_floor: Vec::new(),
            replay_recorder: ReplayRecorder::new(replay_config),
            entity_spawn_order: Vec::new(),
            player_entity_mapping: Vec::new(),
            initial_tick: 0,
            match_started: false,
            build_fingerprint: None,
            config,
        }
    }

    /// Set the build fingerprint, on the server and on the recorder.
    pub fn set_build_fingerprint(&mut self, fingerprint: BuildFingerprintData)
        ensures
            final(self).build_fingerprint matches Some(f) && f.binary_sha256@
                == fingerprint.binary_sha256@ && f.target_triple@ == fingerprint.target_triple@
                && f.profile@ == fingerprint.profile@ && f.git_commit@
                == fingerprint.git_commit@,
            final(self).replay_recorder.build_fingerprint == Some(fingerprint),
            final(self).replay_recorder.config == old(self).replay_recorder.config,
            final(self).replay_recorder.entity_spawn_order@ == old(
                self,
            ).replay_recorder.entity_spawn_order@,
            final(self).replay_recorder.player_entity_mapping@ == old(
                self,
            ).replay_recorder.player_entity_mapping@,
            final(self).replay_recorder.initial_baseline == old(
                self,
            ).replay_recorder.initial_baseline,
            final(self).replay_recorder.inputs@ == old(self).replay_recorder.inputs@,
            final(self).config == old(self).config,
            final(self).world == old(self).world,
            final(self).sessions@ == old(self).sessions@,
            final(self).next_session_id == old(self).next_session_id,
            final(self).input_buffer == old(self).input_buffer,
            final(self).last_known_intent@ == old(self).last_known_intent@,
            final(self).last_emitted_floor@ == old(self).last_emitted_floor@,
            final(self).entity_spawn_order@ == old(self).entity_spawn_order@,
            final(self).player_entity_mapping@ == old(self).player_entity_mapping@,
            final(self).initial_tick == old(self).initial_tick,
            final(self).match_started == old(self).match_started,
    {
        self.build_fingerprint = Some(clone_fingerprint(&fingerprint));
        self.replay_recorder.set_build_fingerprint(fingerprint);
    }

    /// The current tick.
    pub fn current_tick(&self) -> (r: Tick)
        ensures
            r == self.world.cur_tick,
    {
        self.world.tick()
    }

    /// The number of connected sessions.
    pub fn session_count(&self) -> (r: usize)
        ensures
            r == self.sessions@.len(),
    {
        self.sessions.len()
    }

    /// Whether enough sessions have connected to start. An external
    /// poller holds this against the connect timeout.
    pub fn is_ready_to_start(&self) -> (r: bool)
        ensures
            r == (self.sessions@.len() >= 2),
    {
        self.sessions.len() >= 2
    }

    /// Whether any session was lost after the match started.
    pub fn has_disconnect(&self) -> (r: bool)
        ensures
            r == (self.match_started && self.sessions@.len() < 2),
    {
        self.match_started && self.sessions.len() < 2
    }

    /// Remove a session.
    pub fn disconnect_session(&mut self, session_id: SessionId)
        ensures
            final(self).sessions@ == (match find_session(old(self).sessions@, session_id) {
                Some(i) => old(self).sessions@.remove(i),
                None => old(self).sessions@,
            }),
            final(self).config == old(self).config,
            final(self).world == old(self).world,
            final(self).next_session_id == old(self).next_session_id,
            final(self).input_buffer == old(self).input_buffer,
            final(self).last_known_intent@ == old(self).last_known_intent@,
            final(self).last_emitted_floor@ == old(self).last_emitted_floor@,
            final(self).replay_recorder == old(self).replay_recorder,
            final(self).entity_spawn_order@ == old(self).entity_spawn_order@,
            final(self).player_entity_mapping@ == old(self).player_entity_mapping@,
            final(self).initial_tick == old(self).initial_tick,
            final(self).match_started == old(self).match_started,
            final(self).build_fingerprint == old(self).build_fingerprint,
    {
        proof {
            lemma_find_session(self.sessions@, session_id);
        }
        let n = self.sessions.len();
        let mut i: usize = 0;
        let mut found: bool = false;
        while i < n && !found
            invariant
                n == self.sessions@.len(),
                0 <= i <= n,
                found ==> i < n && find_session(self.sessions@, session_id) == Some(i as int),
                !found ==> forall|j: int| 0 <= j < i ==> self.sessions@[j].id != session_id,
            decreases n - i + (if found { 0int } else { 1int }),
        {
            if self.sessions[i].id == session_id {
                found = true;
                proof {
                    lemma_find_session_first(self.sessions@, session_id, i as int);
                }
            } else {
                i = i + 1;
            }
        }
        if found {
            self.sessions.remove(i);
        }
    }

    /// Whether the match should end: complete once the duration has
    /// elapsed, disconnect when a session was lost after start.
    pub fn should_end_match(&self) -> (r: Option<EndReason>)
        requires
            self.initial_tick + self.config.match_duration_ticks <= u64::MAX,
        ensures
            r == (if !self.match_started {
                None::<EndReason>
            } else if self.world.cur_tick >= self.initial_tick
                + self.config.match_duration_ticks {
                Some(EndReason::Complete)
            } else if self.sessions@.len() < 2 {
                Some(EndReason::Disconnect)
            } else {
                None::<EndReason>
            }),
    {
        if !self.match_started {
            return None;
        }
        if self.world.tick() >= self.initial_tick + self.config.match_duration_ticks {
            return Some(EndReason::Complete);
        }
        if self.sessions.len() < 2 {
            return Some(EndReason::Disconnect);
        }
        None
    }
}

/// If the earlier sessions miss and this one matches, it is the found
/// one.
proof fn lemma_find_session_first(s: Seq<Session>, sid: SessionId, idx: int)
    requires
        0 <= idx < s.len(),
        s[idx].id == sid,
        forall|j: int| 0 <= j < idx ==> s[j].id != sid,
    ensures
        find_session(s, sid) == Some(idx),
    decreases s.len(),
{
    if idx > 0 {
        lemma_find_session_first(s.subrange(1, s.len() as int), sid, idx - 1);
    }
}



impl Server {
    /// Accept a new session: allocate a session id, choose the player id
    /// (normal mode counts from 0; test mode uses the configured pair),
    /// spawn a character, record the spawn, and zero the intent.
    pub fn accept_session(&mut self) -> (r: (SessionId, PlayerId, EntityId))
        requires
            old(self).sessions@.len() < 2,
            !old(self).match_started,
            old(self).world.wf(),
            old(self).world.characters@.len() + 1 < u64::MAX,
            old(self).next_session_id < u64::MAX,
        ensures
            ({
                let sid = old(self).next_session_id;
                let pid = accept_pid(old(self).config, old(self).sessions@.len() as int);
                let eid = (old(self).world.characters@.len() + 1) as u64;
                &&& r == (sid, pid, eid)
                &&& final(self).world.wf()
                &&& final(self).world.characters@ == old(self).world.characters@.push(
                    crate::sim::Character {
                        entity_id: eid,
                        player_id: pid,
                        position: [0u64, 0u64],
                        velocity: [0u64, 0u64],
                    },
                )
                &&& final(self).world.cur_tick == old(self).world.cur_tick
                &&& final(self).world.rate_hz == old(self).world.rate_hz
                &&& final(self).world.dt_bits == old(self).world.dt_bits
                &&& final(self).world.seed == old(self).world.seed
                &&& final(self).sessions@ == old(self).sessions@.push(
                    Session {
                        id: sid,
                        player_id: pid,
                        controlled_entity_id: eid,
                        last_valid_tick: None::<u64>,
                        last_input_seq: None::<u64>,
                    },
                )
                &&& final(self).next_session_id == sid + 1
                &&& final(self).entity_spawn_order@ == old(self).entity_spawn_order@.push(pid)
                &&& final(self).player_entity_mapping@ == old(
                    self,
                ).player_entity_mapping@.push((pid, eid))
                &&& final(self).replay_recorder.entity_spawn_order@ == old(
                    self,
                ).replay_recorder.entity_spawn_order@.push(pid)
                &&& final(self).replay_recorder.player_entity_mapping@ == old(
                    self,
                ).replay_recorder.player_entity_mapping@.push((pid, eid))
                &&& final(self).replay_recorder.config == old(self).replay_recorder.config
                &&& final(self).replay_recorder.initial_baseline == old(
                    self,
                ).replay_recorder.initial_baseline
                &&& final(self).replay_recorder.inputs@ == old(self).replay_recorder.inputs@
                &&& final(self).replay_recorder.build_fingerprint == old(
                    self,
                ).replay_recorder.build_fingerprint
                &&& final(self).last_known_intent@ == old(self).last_known_intent@.push(
                    (pid, [0u64, 0u64]),
                )
                &&& final(self).config == old(self).config
                &&& final(self).input_buffer == old(self).input_buffer
                &&& final(self).last_emitted_floor@ == old(self).last_emitted_floor@
                &&& final(self).initial_tick == old(self).initial_tick
                &&& final(self).match_started == old(self).match_started
                &&& final(self).build_fingerprint == old(self).build_fingerprint
            }),
    {
        let session_id = self.next_session_id;
        self.next_session_id = self.next_session_id + 1;
        let player_id: PlayerId = match self.config.test_player_ids {
            Some((id1, id2)) => if self.sessions.len() == 0 {
                id1
            } else {
                id2
            },
            None => self.sessions.len() as PlayerId,
        };
        let entity_id = self.world.spawn_character(player_id);
        let session = Session::new(session_id, player_id, entity_id);
        self.sessions.push(session);
        self.entity_spawn_order.push(player_id);
        self.player_entity_mapping.push((player_id, entity_id));
        self.replay_recorder.record_spawn(player_id, entity_id);
        self.last_known_intent.push((player_id, [0, 0]));
        (session_id, player_id, entity_id)
    }

    /// Start the match: freeze the initial tick, record the baseline,
    /// raise every session's floor to the lead, and build one welcome per
    /// session.
    pub fn start_match(&mut self) -> (r: (Baseline, Vec<(SessionId, ServerWelcome)>))
        requires
            old(self).sessions@.len() == 2,
            !old(self).match_started,
            old(self).world.cur_tick + old(self).config.input_lead_ticks <= u64::MAX,
        ensures
            ({
                let floor = (old(self).world.cur_tick + old(self).config.input_lead_ticks) as u64;
                let baseline = Baseline {
                    tick: old(self).world.cur_tick,
                    entities: r.0.entities,
                    digest: world_digest(old(self).world.cur_tick, old(self).world.characters@),
                };
                &&& final(self).match_started
                &&& final(self).initial_tick == old(self).world.cur_tick
                &&& r.0.tick == old(self).world.cur_tick
                &&& r.0.entities@ == snapshots_of_characters(old(self).world.characters@)
                &&& r.0.digest == world_digest(
                    old(self).world.cur_tick,
                    old(self).world.characters@,
                )
                &&& final(self).replay_recorder.initial_baseline matches Some(b)
                    && b.tick == r.0.tick && b.entities@ == r.0.entities@ && b.digest == r.0.digest
                &&& final(self).replay_recorder.config == old(self).replay_recorder.config
                &&& final(self).replay_recorder.entity_spawn_order@ == old(
                    self,
                ).replay_recorder.entity_spawn_order@
                &&& final(self).replay_recorder.player_entity_mapping@ == old(
                    self,
                ).replay_recorder.player_entity_mapping@
                &&& final(self).replay_recorder.inputs@ == old(self).replay_recorder.inputs@
                &&& final(self).replay_recorder.build_fingerprint == old(
                    self,
                ).replay_recorder.build_fingerprint
                &&& final(self).last_emitted_floor@.len() == old(self).sessions@.len()
                &&& (forall|i: int|
                    0 <= i < old(self).sessions@.len()
                        ==> #[trigger] final(self).last_emitted_floor@[i] == (
                    old(self).sessions@[i].id, floor))
                &&& r.1@.len() == old(self).sessions@.len()
                &&& (forall|i: int|
                    0 <= i < old(self).sessions@.len() ==> #[trigger] r.1@[i] == (
                        old(self).sessions@[i].id,
                        ServerWelcome {
                            target_tick_floor: floor,
                            tick_rate_hz: old(self).config.tick_rate_hz,
                            player_id: old(self).sessions@[i].player_id as u32,
                            controlled_entity_id: old(self).sessions@[i].controlled_entity_id,
                        },
                    ))
                &&& final(self).config == old(self).config
                &&& final(self).world == old(self).world
                &&& final(self).sessions@ == old(self).sessions@
                &&& final(self).next_session_id == old(self).next_session_id
                &&& final(self).input_buffer == old(self).input_buffer
                &&& final(self).last_known_intent@ == old(self).last_known_intent@
                &&& final(self).entity_spawn_order@ == old(self).entity_spawn_order@
                &&& final(self).player_entity_mapping@ == old(self).player_entity_mapping@
                &&& final(self).build_fingerprint == old(self).build_fingerprint
            }),
    {
        self.match_started = true;
        self.initial_tick = self.world.tick();
        let baseline = self.world.baseline();
        let baseline_again = self.world.baseline();
        self.replay_recorder.record_baseline(baseline_again);
        let target_tick_floor = self.initial_tick + self.config.input_lead_ticks;
        let mut floors: Vec<(SessionId, Tick)> = Vec::new();
        let mut welcomes: Vec<(SessionId, ServerWelcome)> = Vec::new();
        let n = self.sessions.len();
        let mut i: usize = 0;
        while i < n
            invariant
                n == self.sessions@.len(),
                0 <= i <= n,
                floors@.len() == i,
                welcomes@.len() == i,
                forall|j: int|
                    0 <= j < i ==> #[trigger] floors@[j] == (
                        self.sessions@[j].id,
                        target_tick_floor,
                    ),
                forall|j: int|
                    0 <= j < i ==> #[trigger] welcomes@[j] == (
                        self.sessions@[j].id,
                        ServerWelcome {
                            target_tick_floor,
                            tick_rate_hz: self.config.tick_rate_hz,
                            player_id: self.sessions@[j].player_id as u32,
                            controlled_entity_id: self.sessions@[j].controlled_entity_id,
                        },
                    ),
            decreases n - i,
        {
            let s = &self.sessions[i];
            floors.push((s.id, target_tick_floor));
            welcomes.push(
                (
                    s.id,
                    ServerWelcome {
                        target_tick_floor,
                        tick_rate_hz: self.config.tick_rate_hz,
                        player_id: s.player_id as u32,
                        controlled_entity_id: s.controlled_entity_id,
                    },
                ),
            );
            i = i + 1;
        }
        self.last_emitted_floor = floors;
        (baseline, welcomes)
    }

    /// Receive and buffer an input from a client. Inputs before the
    /// welcome and inputs for unknown sessions are dropped; otherwise
    /// the validation pipeline decides against the session's floor.
    pub fn receive_input(&mut self, session_id: SessionId, input: &InputCmdProto) -> (r:
        ValidationResult)
        requires
            old(self).world.cur_tick + old(self).input_buffer.config.max_future_ticks
                <= u64::MAX,
        ensures
            final(self).config == old(self).config,
            final(self).world == old(self).world,
            final(self).sessions@ == old(self).sessions@,
            final(self).last_known_intent@ == old(self).last_known_intent@,
            final(self).last_emitted_floor@ == old(self).last_emitted_floor@,
            final(self).replay_recorder == old(self).replay_recorder,
            final(self).input_buffer.config == old(self).input_buffer.config,
            final(self).input_buffer.per_tick_limit == old(self).input_buffer.per_tick_limit,
            final(self).match_started == old(self).match_started,
            ({
                if !old(self).match_started {
                    r == ValidationResult::DroppedPreWelcome && final(self).input_buffer.slots()
                        == old(self).input_buffer.slots()
                } else {
                    match find_session(old(self).sessions@, session_id) {
                        None => r == ValidationResult::DroppedUnknownSession && final(self).input_buffer.slots() == old(self).input_buffer.slots(),
                        Some(i) => {
                            let pid = old(self).sessions@[i].player_id;
                            let floor = floor_get(old(self).last_emitted_floor@, session_id);
                            match validate_precheck_spec(
                                input@,
                                old(self).world.cur_tick,
                                floor,
                                old(self).input_buffer.config.max_future_ticks,
                            ) {
                                Some(dropped) => r == dropped && final(self).input_buffer.slots()
                                    == old(self).input_buffer.slots(),
                                None => {
                                    let (slots2, br) = crate::input_buffer::try_buffer_spec(
                                        old(self).input_buffer.slots(),
                                        old(self).input_buffer.per_tick_limit,
                                        pid,
                                        input@,
                                    );
                                    r == crate::validation::buffer_result_to_validation(br)
                                        && final(self).input_buffer.slots() == slots2
                                },
                            }
                        },
                    }
                }
            }),
    {
        if !self.match_started {
            return ValidationResult::DroppedPreWelcome;
        }
        proof {
            lemma_find_session(self.sessions@, session_id);
            lemma_floor_find(self.last_emitted_floor@, session_id);
        }
        let ns = self.sessions.len();
        let mut i: usize = 0;
        let mut found: bool = false;
        while i < ns && !found
            invariant
                ns == self.sessions@.len(),
                0 <= i <= ns,
                found ==> i < ns && find_session(self.sessions@, session_id) == Some(i as int),
                !found ==> forall|j: int| 0 <= j < i ==> self.sessions@[j].id != session_id,
            decreases ns - i + (if found { 0int } else { 1int }),
        {
            if self.sessions[i].id == session_id {
                found = true;
                proof {
                    lemma_find_session_first(self.sessions@, session_id, i as int);
                }
            } else {
                i = i + 1;
            }
        }
        if !found {
            return ValidationResult::DroppedUnknownSession;
        }
        let player_id = self.sessions[i].player_id;
        let nf = self.last_emitted_floor.len();
        let mut k: usize = 0;
        let mut floor: Tick = 0;
        let mut floor_found: bool = false;
        while k < nf && !floor_found
            invariant
                nf == self.last_emitted_floor@.len(),
                0 <= k <= nf,
                floor_found ==> k < nf && floor_find(self.last_emitted_floor@, session_id)
                    == Some(k as int) && floor == self.last_emitted_floor@[k as int].1,
                !floor_found ==> floor == 0 && forall|j: int|
                    0 <= j < k ==> self.last_emitted_floor@[j].0 != session_id,
            decreases nf - k + (if floor_found { 0int } else { 1int }),
        {
            if self.last_emitted_floor[k].0 == session_id {
                floor = self.last_emitted_floor[k].1;
                floor_found = true;
                proof {
                    lemma_floor_find_first(self.last_emitted_floor@, session_id, k as int);
                }
            } else {
                k = k + 1;
            }
        }
        validate_input(input, self.world.tick(), floor, &mut self.input_buffer, player_id)
    }
}



/// The player's recorded intent, zero if none.
fn lki_get_exec(lki: &Vec<(PlayerId, [u64; 2])>, pid: PlayerId) -> (r: [u64; 2])
    ensures
        r == lki_get(lki@, pid),
{
    proof {
        lemma_lki_find(lki@, pid);
    }
    let n = lki.len();
    let mut i: usize = 0;
    while i < n
        invariant
            n == lki@.len(),
            0 <= i <= n,
            forall|j: int| 0 <= j < i ==> lki@[j].0 != pid,
        decreases n - i,
    {
        if lki[i].0 == pid {
            proof {
                lemma_lki_find_first(lki@, pid, i as int);
            }
            return lki[i].1;
        }
        i = i + 1;
    }
    [0, 0]
}

/// Record the player's intent: replace the first entry or append one.
fn lki_set_exec(lki: &mut Vec<(PlayerId, [u64; 2])>, pid: PlayerId, v: [u64; 2])
    ensures
        final(lki)@ == lki_set(old(lki)@, pid, v),
{
    proof {
        lemma_lki_find(lki@, pid);
    }
    let n = lki.len();
    let mut i: usize = 0;
    let mut found: bool = false;
    while i < n && !found
        invariant
            n == lki@.len(),
            0 <= i <= n,
            lki@ == old(lki)@,
            found ==> i < n && lki_find(lki@, pid) == Some(i as int),
            !found ==> forall|j: int| 0 <= j < i ==> lki@[j].0 != pid,
        decreases n - i + (if found { 0int } else { 1int }),
    {
        if lki[i].0 == pid {
            found = true;
            proof {
                lemma_lki_find_first(lki@, pid, i as int);
            }
        } else {
            i = i + 1;
        }
    }
    if found {
        lki.set(i, (pid, v));
    } else {
        lki.push((pid, v));
    }
}

/// Record one session's floor: replace the first entry or append one.
fn floor_set_exec(floors: &mut Vec<(SessionId, Tick)>, sid: SessionId, floor: Tick)
    ensures
        final(floors)@ == floor_set(old(floors)@, sid, floor),
{
    proof {
        lemma_floor_find(floors@, sid);
    }
    let n = floors.len();
    let mut i: usize = 0;
    let mut found: bool = false;
    while i < n && !found
        invariant
            n == floors@.len(),
            0 <= i <= n,
            floors@ == old(floors)@,
            found ==> i < n && floor_find(floors@, sid) == Some(i as int),
            !found ==> forall|j: int| 0 <= j < i ==> floors@[j].0 != sid,
        decreases n - i + (if found { 0int } else { 1int }),
    {
        if floors[i].0 == sid {
            found = true;
            proof {
                lemma_floor_find_first(floors@, sid, i as int);
            }
        } else {
            i = i + 1;
        }
    }
    if found {
        floors.set(i, (sid, floor));
    } else {
        floors.push((sid, floor));
    }
}


/// Drain the buffer for one tick: produce one applied input per player
/// in spawn order, updating intents and recording each input.
fn drain_applied(
    buffer: &mut InputBuffer,
    lki: &mut Vec<(PlayerId, [u64; 2])>,
    recorder: &mut ReplayRecorder,
    order: &Vec<PlayerId>,
    t: Tick,
) -> (applied: Vec<AppliedInput>)
    ensures
        ({
            let (ra, rs, rl) = step_applied_rec(order@, old(buffer).slots(), old(lki)@, t);
            &&& applied@ == ra
            &&& final(buffer).slots() == rs
            &&& final(lki)@ == rl
        }),
        final(buffer).config == old(buffer).config,
        final(buffer).per_tick_limit == old(buffer).per_tick_limit,
        final(recorder).inputs@ == old(recorder).inputs@ + applied@,
        final(recorder).config == old(recorder).config,
        final(recorder).entity_spawn_order@ == old(recorder).entity_spawn_order@,
        final(recorder).player_entity_mapping@ == old(recorder).player_entity_mapping@,
        final(recorder).initial_baseline == old(recorder).initial_baseline,
        final(recorder).build_fingerprint == old(recorder).build_fingerprint,
{
    let ghost order0 = order@;
    let ghost slots0 = buffer.slots();
    let ghost lki0 = lki@;
    let mut applied: Vec<AppliedInput> = Vec::new();
    let n = order.len();
    proof {
        assert(order0.subrange(0, n as int) =~= order0);
        let (ra0, rs0, rl0) = step_applied_rec(order0, slots0, lki0, t);
        assert(Seq::<AppliedInput>::empty() + ra0 =~= ra0);
        assert(old(recorder).inputs@ + Seq::<AppliedInput>::empty() =~= old(recorder).inputs@);
    }
    let mut i: usize = 0;
    while i < n
        invariant
            n == order@.len(),
            0 <= i <= n,
            order@ == order0,
            buffer.config == old(buffer).config,
            buffer.per_tick_limit == old(buffer).per_tick_limit,
            recorder.inputs@ == old(recorder).inputs@ + applied@,
            recorder.config == old(recorder).config,
            recorder.entity_spawn_order@ == old(recorder).entity_spawn_order@,
            recorder.player_entity_mapping@ == old(recorder).player_entity_mapping@,
            recorder.initial_baseline == old(recorder).initial_baseline,
            recorder.build_fingerprint == old(recorder).build_fingerprint,
            step_applied_rec(order0, slots0, lki0, t) == ({
                let (ra, rs, rl) = step_applied_rec(
                    order0.subrange(i as int, n as int),
                    buffer.slots(),
                    lki@,
                    t,
                );
                (applied@ + ra, rs, rl)
            }),
        decreases n - i,
    {
        let ghost slots_i = buffer.slots();
        let ghost lki_i = lki@;
        let p = order[i];
        let taken = buffer.take_input(p, t);
        let (dir, fb): ([u64; 2], bool) = match taken {
            Some(cmd) => {
                if cmd.move_dir.len() == 2 {
                    ([cmd.move_dir[0], cmd.move_dir[1]], false)
                } else {
                    ([0, 0], false)
                }
            },
            None => (lki_get_exec(lki, p), true),
        };
        proof {
            crate::input_buffer::lemma_find_slot(slots_i, p, t);
            assert((dir, fb, buffer.slots()) == step_one_player(slots_i, lki_i, p, t));
        }
        lki_set_exec(lki, p, dir);
        let a = AppliedInput { tick: t, player_id: p, move_dir: dir, is_fallback: fb };
        recorder.record_input(a);
        let ghost applied_pre = applied@;
        applied.push(a);
        proof {
            let sub_i = order0.subrange(i as int, n as int);
            assert(sub_i[0] == order0[i as int]);
            assert(sub_i.subrange(1, sub_i.len() as int) =~= order0.subrange(i + 1, n as int));
            let (ra2, rs2, rl2) = step_applied_rec(
                order0.subrange(i + 1, n as int),
                buffer.slots(),
                lki@,
                t,
            );
            assert(applied_pre + (seq![a] + ra2) =~= applied@ + ra2);
            assert(old(recorder).inputs@ + applied_pre.push(a) =~= (old(recorder).inputs@
                + applied_pre).push(a));
        }
        i = i + 1;
    }
    proof {
        assert(order0.subrange(n as int, n as int).len() == 0);
        let (ra, rs, rl) = step_applied_rec(order0, slots0, lki0, t);
        assert(applied@ + Seq::<AppliedInput>::empty() =~= applied@);
    }
    applied
}

/// Raise every listed session's floor, in session order.
fn raise_floors(floors: &mut Vec<(SessionId, Tick)>, sessions: &Vec<Session>, floor: Tick)
    ensures
        final(floors)@ == floors_after(old(floors)@, sessions@, floor),
{
    let ghost floors0 = floors@;
    let ghost sess = sessions@;
    let ns = sessions.len();
    proof {
        assert(sess.subrange(0, ns as int) =~= sess);
    }
    let mut k: usize = 0;
    while k < ns
        invariant
            ns == sessions@.len(),
            0 <= k <= ns,
            sess == sessions@,
            floors_after(floors0, sess, floor) == floors_after(
                floors@,
                sess.subrange(k as int, ns as int),
                floor,
            ),
        decreases ns - k,
    {
        let sid = sessions[k].id;
        proof {
            let sub_k = sess.subrange(k as int, ns as int);
            assert(sub_k[0] == sess[k as int]);
            assert(sub_k.subrange(1, sub_k.len() as int) =~= sess.subrange(k + 1, ns as int));
        }
        floor_set_exec(floors, sid, floor);
        k = k + 1;
    }
    proof {
        assert(sess.subrange(ns as int, ns as int).len() == 0);
    }
}

/// The step inputs of the applied list, before sorting.
fn raw_step_inputs(applied: &Vec<AppliedInput>) -> (raw: Vec<StepInput>)
    ensures
        raw@ == applied@.map_values(
            |a: AppliedInput| StepInput { player_id: a.player_id, move_dir: a.move_dir },
        ),
{
    let mut raw: Vec<StepInput> = Vec::new();
    let na = applied.len();
    let mut j: usize = 0;
    while j < na
        invariant
            na == applied@.len(),
            0 <= j <= na,
            raw@ =~= applied@.subrange(0, j as int).map_values(
                |a: AppliedInput| StepInput { player_id: a.player_id, move_dir: a.move_dir },
            ),
        decreases na - j,
    {
        raw.push(applied[j].to_step_input());
        proof {
            assert(applied@.subrange(0, j + 1) =~= applied@.subrange(0, j as int).push(
                applied@[j as int],
            ));
            assert(raw@ =~= applied@.subrange(0, j + 1).map_values(
                |a: AppliedInput| StepInput { player_id: a.player_id, move_dir: a.move_dir },
            ));
        }
        j = j + 1;
    }
    proof {
        assert(applied@.subrange(0, na as int) =~= applied@);
    }
    raw
}

/// The wire entities of a snapshot's entity list, small and well-formed.
fn snapshot_entities_proto(entities: &Vec<crate::sim::EntitySnapshot>) -> (r: Vec<
    EntitySnapshotProto,
>)
    ensures
        r@.map_values(|e: EntitySnapshotProto| e@) == entities@.map_values(
            |e: crate::sim::EntitySnapshot| entity_wire_view(e),
        ),
        crate::wire::entities_wf(r@.map_values(|e: EntitySnapshotProto| e@)),
{
    let mut out: Vec<EntitySnapshotProto> = Vec::new();
    let ne = entities.len();
    let mut m: usize = 0;
    while m < ne
        invariant
            ne == entities@.len(),
            0 <= m <= ne,
            out@.len() == m,
            out@.map_values(|e: EntitySnapshotProto| e@) =~= entities@.subrange(
                0,
                m as int,
            ).map_values(|e: crate::sim::EntitySnapshot| entity_wire_view(e)),
        decreases ne - m,
    {
        let ghost ep_pre = out@;
        out.push(EntitySnapshotProto::from_snapshot(&entities[m]));
        proof {
            let f = |e: EntitySnapshotProto| e@;
            let g = |e: crate::sim::EntitySnapshot| entity_wire_view(e);
            assert(entities@.subrange(0, m + 1) =~= entities@.subrange(0, m as int).push(
                entities@[m as int],
            ));
            let mapped_new = out@.map_values(f);
            let target = entities@.subrange(0, m + 1).map_values(g);
            let mapped_old = ep_pre.map_values(f);
            let target_old = entities@.subrange(0, m as int).map_values(g);
            assert forall|q: int| 0 <= q < m + 1 implies mapped_new[q] == target[q] by {
                if q < m {
                    assert(out@[q] == ep_pre[q]);
                    assert(mapped_old[q] == target_old[q]);
                    assert(entities@.subrange(0, m + 1)[q] == entities@.subrange(
                        0,
                        m as int,
                    )[q]);
                } else {
                    assert(out@[q]@ == entity_wire_view(entities@[m as int]));
                }
            }
            assert(mapped_new =~= target);
        }
        m = m + 1;
    }
    proof {
        assert(entities@.subrange(0, ne as int) =~= entities@);
        let views = out@.map_values(|e: EntitySnapshotProto| e@);
        assert forall|q: int|
            0 <= q < views.len() implies crate::wire::entity_wf(#[trigger] views[q])
            && crate::wire::enc_entity_body(views[q]).len() <= u64::MAX by {
            assert(views[q] == entity_wire_view(entities@[q]));
            lemma_entity_body_small(views[q]);
        }
    }
    out
}

impl Server {
    /// Process one tick: materialize one applied input per player in
    /// spawn order (buffer winner or last-known-intent fallback), record
    /// them, advance the kernel under the player-id-sorted inputs, raise
    /// every session's floor, evict stale slots, and emit the single
    /// broadcast byte string shared by all recipients.
    #[verifier::rlimit(100)]
    #[verifier::spinoff_prover]
    pub fn step(&mut self) -> (r: (Snapshot, Tick, Vec<u8>))
        requires
            old(self).world.cur_tick < u64::MAX,
            old(self).world.cur_tick + 1 + old(self).config.input_lead_ticks <= u64::MAX,
        ensures
            ({
                let t = old(self).world.cur_tick;
                let (applied, slots1, lki2) = step_applied_rec(
                    old(self).entity_spawn_order@,
                    old(self).input_buffer.slots(),
                    old(self).last_known_intent@,
                    t,
                );
                let sinputs = step_inputs_of(applied);
                let floor = (t + 1 + old(self).config.input_lead_ticks) as u64;
                let chars2 = crate::sim::apply_inputs_spec(
                    old(self).world.characters@,
                    sinputs,
                    old(self).world.dt_bits,
                );
                &&& final(self).world.cur_tick == t + 1
                &&& final(self).world.characters@ == chars2
                &&& final(self).world.rate_hz == old(self).world.rate_hz
                &&& final(self).world.dt_bits == old(self).world.dt_bits
                &&& final(self).world.next_entity_id == old(self).world.next_entity_id
                &&& final(self).world.seed == old(self).world.seed
                &&& (old(self).world.wf() ==> final(self).world.wf())
                &&& r.0.tick == t + 1
                &&& r.0.entities@ == snapshots_of_characters(chars2)
                &&& r.0.digest == world_digest((t + 1) as u64, chars2)
                &&& r.1 == floor
                &&& r.2@ == enc_snapshot_proto(
                    snapshot_wire_view((t + 1) as u64, snapshots_of_characters(chars2), r.0.digest, floor),
                )
                &&& final(self).last_known_intent@ == lki2
                &&& final(self).input_buffer.slots() == slots1.filter(
                    |s: BufferSlotV| s.tick >= t + 1,
                )
                &&& final(self).input_buffer.config == old(self).input_buffer.config
                &&& final(self).input_buffer.per_tick_limit == old(
                    self,
                ).input_buffer.per_tick_limit
                &&& final(self).last_emitted_floor@ == floors_after(
                    old(self).last_emitted_floor@,
                    old(self).sessions@,
                    floor,
                )
                &&& final(self).replay_recorder.inputs@ == old(self).replay_recorder.inputs@
                    + applied
                &&& final(self).replay_recorder.config == old(self).replay_recorder.config
                &&& final(self).replay_recorder.entity_spawn_order@ == old(
                    self,
                ).replay_recorder.entity_spawn_order@
                &&& final(self).replay_recorder.player_entity_mapping@ == old(
                    self,
                ).replay_recorder.player_entity_mapping@
                &&& final(self).replay_recorder.initial_baseline == old(
                    self,
                ).replay_recorder.initial_baseline
                &&& final(self).replay_recorder.build_fingerprint == old(
                    self,
                ).replay_recorder.build_fingerprint
                &&& final(self).config == old(self).config
                &&& final(self).sessions@ == old(self).sessions@
                &&& final(self).next_session_id == old(self).next_session_id
                &&& final(self).entity_spawn_order@ == old(self).entity_spawn_order@
                &&& final(self).player_entity_mapping@ == old(self).player_entity_mapping@
                &&& final(self).initial_tick == old(self).initial_tick
                &&& final(self).match_started == old(self).match_started
                &&& final(self).build_fingerprint == old(self).build_fingerprint
            }),
    {
        let t = self.world.tick();
        let applied = drain_applied(
            &mut self.input_buffer,
            &mut self.last_known_intent,
            &mut self.replay_recorder,
            &self.entity_spawn_order,
            t,
        );
        let raw = raw_step_inputs(&applied);
        let step_inputs = sort_step_inputs(&raw);
        let snapshot = self.world.advance(t, &step_inputs);
        let target_tick_floor = self.world.tick() + self.config.input_lead_ticks;
        raise_floors(&mut self.last_emitted_floor, &self.sessions, target_tick_floor);
        self.input_buffer.evict_before(self.world.tick());
        let entities_proto = snapshot_entities_proto(&snapshot.entities);
        let snapshot_proto = SnapshotProto {
            tick: snapshot.tick,
            entities: entities_proto,
            digest: snapshot.digest,
            target_tick_floor,
        };
        let snapshot_bytes = snapshot_proto.encode_to_vec();
        (snapshot, target_tick_floor, snapshot_bytes)
    }

    /// Finalize the match and produce the replay artifact.
    pub fn finalize(self, end_reason: EndReason) -> (r: ReplayArtifact)
        ensures
            r@ == self.replay_recorder.finalized_view(
                world_digest(self.world.cur_tick, self.world.characters@),
                self.world.cur_tick,
                end_reason_str(end_reason),
            ),
    {
        let final_digest = self.world.state_digest();
        let checkpoint_tick = self.world.tick();
        self.replay_recorder.finalize(final_digest, checkpoint_tick, end_reason.as_str())
    }

    /// The baseline in wire form, for the join message.
    pub fn baseline_proto(&self) -> (r: JoinBaseline)
        ensures
            r@.tick == self.world.cur_tick,
            r@.digest == world_digest(self.world.cur_tick, self.world.characters@),
            r@.entities == snapshots_of_characters(self.world.characters@).map_values(
                |e: crate::sim::EntitySnapshot| entity_wire_view(e),
            ),
    {
        let baseline = self.world.baseline();
        JoinBaseline::from_baseline(&baseline)
    }

    /// All connected session ids, in acceptance order.
    pub fn session_ids(&self) -> (r: Vec<SessionId>)
        ensures
            r@ == self.sessions@.map_values(|s: Session| s.id),
    {
        let mut out: Vec<SessionId> = Vec::new();
        let n = self.sessions.len();
        let mut i: usize = 0;
        while i < n
            invariant
                n == self.sessions@.len(),
                0 <= i <= n,
                out@ =~= self.sessions@.subrange(0, i as int).map_values(|s: Session| s.id),
            decreases n - i,
        {
            out.push(self.sessions[i].id);
            proof {
                assert(self.sessions@.subrange(0, i + 1) =~= self.sessions@.subrange(
                    0,
                    i as int,
                ).push(self.sessions@[i as int]));
                assert(out@ =~= self.sessions@.subrange(0, i + 1).map_values(
                    |s: Session| s.id,
                ));
            }
            i = i + 1;
        }
        proof {
            assert(self.sessions@.subrange(0, n as int) =~= self.sessions@);
        }
        out
    }
}


/// Monotonic floor: with a fixed input lead, consecutive steps raise
/// the broadcast floor by exactly one, because each step advances the
/// tick by one.
pub proof fn lemma_floor_strictly_increases(t: Tick, lead: u64)
    requires
        t + 2 + lead <= u64::MAX,
    ensures
        ((t + 1 + lead) as u64) < (((t + 1) + 1 + lead) as u64),
        (((t + 1) + 1 + lead) as u64) == ((t + 1 + lead) as u64) + 1,
{
}


/// What one step records is one well-formed block: exactly one applied
/// input per player, in spawn order, all targeting the step's tick.
/// In wire form such blocks satisfy the recording shape that
/// `crate::replay::lemma_recorded_stream_valid` and
/// `crate::replay::lemma_recorded_blocks_replay` ask for.
pub proof fn lemma_step_applied_shape(
    order: Seq<PlayerId>,
    slots: Seq<BufferSlotV>,
    lki: Seq<(PlayerId, [u64; 2])>,
    t: Tick,
)
    ensures
        ({
            let (applied, s2, l2) = step_applied_rec(order, slots, lki, t);
            &&& applied.len() == order.len()
            &&& forall|i: int|
                0 <= i < order.len() ==> (#[trigger] applied[i]).tick == t && applied[i].player_id
                    == order[i]
        }),
    decreases order.len(),
{
    if order.len() > 0 {
        let p = order[0];
        let (dir, fb, slots1) = step_one_player(slots, lki, p, t);
        let a = AppliedInput { tick: t, player_id: p, move_dir: dir, is_fallback: fb };
        let lki1 = lki_set(lki, p, dir);
        let rest_order = order.subrange(1, order.len() as int);
        lemma_step_applied_shape(rest_order, slots1, lki1, t);
        let (rest, s2, l2) = step_applied_rec(rest_order, slots1, lki1, t);
        let (applied, _, _) = step_applied_rec(order, slots, lki, t);
        assert(applied == seq![a] + rest);
        assert forall|i: int|
            0 <= i < order.len() implies (#[trigger] applied[i]).tick == t
            && applied[i].player_id == order[i] by {
            if i > 0 {
                assert(applied[i] == rest[i - 1]);
                assert(rest_order[i - 1] == order[i]);
            }
        }
    }
}

} // verus!


