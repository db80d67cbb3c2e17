//! Wire protocol messages shared by all boundaries, and their binary
//! codecs (length-delimited, field-tagged, protobuf-compatible).
//!
//! Every `double` of the wire format is carried here as its binary64 bit
//! pattern in a `u64`; on the wire it is the same 8 little-endian bytes
//! either way.

use vstd::prelude::*;

use crate::codec::{
    eat_key, decode_len_header, decode_packed_le8, decode_packed_varints, decode_u64_field, enc_len_header,
    enc_u64_field, encode_len_header, encode_packed_le8, encode_packed_varints, encode_u64_field,
    key_bytes, lemma_parse_len_header, lemma_parse_packed_le8, lemma_parse_packed_varints,
    lemma_parse_u64_field, lemma_subrange_of_concat, packed_le8, packed_varints,
    parse_len_header, parse_packed_le8, parse_packed_varints, parse_u64_field, push_bytes, starts_with_key, try_str_from_utf8,
    enc_double_field, parse_double_field, lemma_parse_double_field, encode_double_field,
    decode_double_field,
};
use crate::sim;
use vstd::string::StringSliceAdditionalSpecFns;

verus! {

/// Tick type alias for the wire protocol.
pub type Tick = u64;

/// PlayerId type alias for the wire protocol.
pub type PlayerId = u8;

/// EntityId type alias for the wire protocol.
pub type EntityId = u64;

/// InputSeq type alias for the wire protocol.
pub type InputSeq = u64;

/// Client initiates handshake. No fields.
#[derive(Clone, Copy, Debug, PartialEq, Eq, Structural)]
pub struct ClientHello {
}

/// Server welcome response with session info and tick guidance.
#[derive(Clone, Copy, Debug, PartialEq, Eq, Structural)]
pub struct ServerWelcome {
    /// Initial target tick floor for client input targeting.
    pub target_tick_floor: Tick,
    /// Server tick rate in Hz.
    pub tick_rate_hz: u32,
    /// Assigned player id for this session (as u32 on the wire).
    pub player_id: u32,
    /// Entity id of the character this client controls.
    pub controlled_entity_id: EntityId,
}

/// Entity snapshot embedded in baselines and snapshots. Position and
/// velocity each hold exactly two binary64 bit patterns when well-formed.
#[derive(Clone, Debug, PartialEq, Eq)]
pub struct EntitySnapshotProto {
    pub entity_id: EntityId,
    /// Position [x, y] bit patterns.
    pub position: Vec<u64>,
    /// Velocity [vx, vy] bit patterns.
    pub velocity: Vec<u64>,
}

/// Initial baseline state sent to a client after welcome.
#[derive(Clone, Debug, PartialEq, Eq)]
pub struct JoinBaseline {
    /// Baseline tick.
    pub tick: Tick,
    /// Entity snapshots, ordered by entity id ascending.
    pub entities: Vec<EntitySnapshotProto>,
    /// State digest at this tick.
    pub digest: u64,
}

/// Client input command targeting a specific tick. The player id is not
/// on the wire: the server binds it from the session.
#[derive(Clone, Debug, PartialEq, Eq)]
pub struct InputCmdProto {
    /// Target tick; must be at or above the target tick floor.
    pub tick: Tick,
    /// Per-session sequence number for deterministic selection.
    pub input_seq: InputSeq,
    /// Movement direction [x, y] bit patterns, magnitude at most 1.
    pub move_dir: Vec<u64>,
}

/// Server snapshot broadcast.
#[derive(Clone, Debug, PartialEq, Eq)]
pub struct SnapshotProto {
    /// Post-step tick.
    pub tick: Tick,
    /// Entity snapshots, ordered by entity id ascending.
    pub entities: Vec<EntitySnapshotProto>,
    /// State digest at this tick.
    pub digest: u64,
    /// Target tick floor for client input targeting.
    pub target_tick_floor: Tick,
}

/// Time synchronization ping from a client (debug/telemetry only).
#[derive(Clone, Copy, Debug, PartialEq, Eq, Structural)]
pub struct TimeSyncPing {
    /// Client-side timestamp, opaque to the server.
    pub client_timestamp: u64,
}

/// Time synchronization pong from the server (debug/telemetry only).
#[derive(Clone, Copy, Debug, PartialEq, Eq, Structural)]
pub struct TimeSyncPong {
    /// Server's current tick at the time of the response.
    pub server_tick: Tick,
    /// Server-side timestamp.
    pub server_timestamp: u64,
    /// Echo of the client's ping timestamp.
    pub ping_timestamp_echo: u64,
}

/// Applied input recorded for replay.
#[derive(Clone, Debug, PartialEq, Eq)]
pub struct AppliedInputProto {
    /// Tick at which this input was applied.
    pub tick: Tick,
    /// Player this input is for (as u32 on the wire).
    pub player_id: u32,
    /// Normalized movement direction bit patterns.
    pub move_dir: Vec<u64>,
    /// True if generated via the last-known-intent fallback.
    pub is_fallback: bool,
}

/// Player-to-entity mapping for replay initialization.
#[derive(Clone, Copy, Debug, PartialEq, Eq, Structural)]
pub struct PlayerEntityMapping {
    pub player_id: u32,
    pub entity_id: EntityId,
}

/// Tuning parameter key-value pair; the value is a binary64 bit pattern.
#[derive(Clone, Debug, PartialEq, Eq)]
pub struct TuningParameter {
    pub key: String,
    pub value: u64,
}

/// Build fingerprint for replay scope verification.
#[derive(Clone, Debug, PartialEq, Eq)]
pub struct BuildFingerprint {
    /// SHA-256 of the server executable bytes, hex.
    pub binary_sha256: String,
    /// Target triple.
    pub target_triple: String,
    /// Build profile ("release" or "dev").
    pub profile: String,
    /// Commit hash, metadata only.
    pub git_commit: String,
}

/// Complete replay artifact.
#[derive(Clone, Debug, PartialEq, Eq)]
pub struct ReplayArtifact {
    /// Schema version; starts at 1.
    pub replay_format_version: u32,
    /// Initial baseline at match start.
    pub initial_baseline: Option<JoinBaseline>,
    /// RNG seed.
    pub seed: u64,
    /// RNG algorithm identifier.
    pub rng_algorithm: String,
    /// Simulation tick rate.
    pub tick_rate_hz: u32,
    /// State digest algorithm identifier.
    pub state_digest_algo_id: String,
    /// Entity spawn order (player ids in spawn sequence).
    pub entity_spawn_order: Vec<u32>,
    /// Player-to-entity mapping.
    pub player_entity_mapping: Vec<PlayerEntityMapping>,
    /// Tuning parameters, sorted by key.
    pub tuning_parameters: Vec<TuningParameter>,
    /// Applied input stream.
    pub inputs: Vec<AppliedInputProto>,
    /// Build fingerprint for verification scope.
    pub build_fingerprint: Option<BuildFingerprint>,
    /// State digest at the checkpoint tick.
    pub final_digest: u64,
    /// Post-step tick that anchors verification.
    pub checkpoint_tick: Tick,
    /// Match termination reason.
    pub end_reason: String,
    /// Test mode flag.
    pub test_mode: bool,
    /// Test player ids, when test mode is set.
    pub test_player_ids: Vec<u32>,
}

impl EntitySnapshotProto {
    /// The wire form of a kernel entity snapshot.
    pub fn from_snapshot(e: &sim::EntitySnapshot) -> (r: Self)
        ensures
            r.entity_id == e.entity_id,
            r.position@ == seq![e.position[0], e.position[1]],
            r.velocity@ == seq![e.velocity[0], e.velocity[1]],
    {
        let r = EntitySnapshotProto {
            entity_id: e.entity_id,
            position: vec![e.position[0], e.position[1]],
            velocity: vec![e.velocity[0], e.velocity[1]],
        };
        proof {
            assert(r.position@ =~= seq![e.position[0], e.position[1]]);
            assert(r.velocity@ =~= seq![e.velocity[0], e.velocity[1]]);
        }
        r
    }

    /// Back to the kernel form; fails unless position and velocity both
    /// hold exactly two components.
    pub fn try_to_snapshot(&self) -> (r: Option<sim::EntitySnapshot>)
        ensures
            match r {
                Some(e) => self.position@.len() == 2 && self.velocity@.len() == 2
                    && e.entity_id == self.entity_id
                    && e.position@ == seq![self.position@[0], self.position@[1]]
                    && e.velocity@ == seq![self.velocity@[0], self.velocity@[1]],
                None => self.position@.len() != 2 || self.velocity@.len() != 2,
            },
    {
        if self.position.len() != 2 || self.velocity.len() != 2 {
            return None;
        }
        let e = sim::EntitySnapshot {
            entity_id: self.entity_id,
            position: [self.position[0], self.position[1]],
            velocity: [self.velocity[0], self.velocity[1]],
        };
        proof {
            assert(e.position@ =~= seq![self.position@[0], self.position@[1]]);
            assert(e.velocity@ =~= seq![self.velocity@[0], self.velocity@[1]]);
        }
        Some(e)
    }
}

impl JoinBaseline {
    /// The wire form of a kernel baseline.
    pub fn from_baseline(b: &sim::Baseline) -> (r: Self)
        ensures
            r@ == (JoinBaselineV {
                tick: b.tick,
                entities: b.entities@.map_values(|e: sim::EntitySnapshot| entity_wire_view(e)),
                digest: b.digest,
            }),
    {
        let mut entities: Vec<EntitySnapshotProto> = Vec::new();
        let n = b.entities.len();
        for i in 0..n
            invariant
                n == b.entities@.len(),
                entities@.len() == i,
                forall|j: int|
                    0 <= j < i ==> entity_proto_matches(
                        #[trigger] entities@[j],
                        b.entities@[j],
                    ),
        {
            entities.push(EntitySnapshotProto::from_snapshot(&b.entities[i]));
        }
        let r = JoinBaseline { tick: b.tick, entities, digest: b.digest };
        proof {
            assert(r@.entities =~= b.entities@.map_values(
                |e: sim::EntitySnapshot| entity_wire_view(e),
            ));
        }
        r
    }
}

/// The wire entity carries exactly the kernel entity's id and components.
pub open spec fn entity_proto_matches(p: EntitySnapshotProto, e: sim::EntitySnapshot) -> bool {
    &&& p.entity_id == e.entity_id
    &&& p.position@ == seq![e.position[0], e.position[1]]
    &&& p.velocity@ == seq![e.velocity[0], e.velocity[1]]
}

/// The wire view of a kernel entity snapshot.
pub open spec fn entity_wire_view(e: sim::EntitySnapshot) -> EntitySnapshotProtoV {
    EntitySnapshotProtoV {
        entity_id: e.entity_id,
        position: seq![e.position[0], e.position[1]],
        velocity: seq![e.velocity[0], e.velocity[1]],
    }
}



/// A string field: header, then the UTF-8 bytes of the string.
pub open spec fn str_field(tag: u64, chars: Seq<char>) -> Seq<u8> {
    enc_len_header(tag, vstd::utf8::encode_utf8(chars).len() as u64) + vstd::utf8::encode_utf8(
        chars,
    )
}

/// Parse a string field: the payload must be valid UTF-8.
pub open spec fn parse_str_field(bytes: Seq<u8>, pos: int, end: int, tag: u64) -> Option<
    (Seq<char>, int),
> {
    match parse_len_header(bytes, pos, end, tag) {
        None => None,
        Some((a, b)) => if vstd::utf8::valid_utf8(bytes.subrange(a, b)) {
            Some((vstd::utf8::decode_utf8(bytes.subrange(a, b)), b))
        } else {
            None
        },
    }
}

/// Parsing at the start of an encoded string field yields the characters.
pub proof fn lemma_parse_str_field(bytes: Seq<u8>, pos: int, end: int, tag: u64, chars: Seq<char>)
    requires
        0 <= pos,
        vstd::utf8::encode_utf8(chars).len() <= u64::MAX,
        pos + str_field(tag, chars).len() <= end <= bytes.len(),
        bytes.subrange(pos, pos + str_field(tag, chars).len() as int) == str_field(tag, chars),
    ensures
        parse_str_field(bytes, pos, end, tag) == Some(
            (chars, pos + str_field(tag, chars).len()),
        ),
{
    let payload = vstd::utf8::encode_utf8(chars);
    let hdr = enc_len_header(tag, payload.len() as u64);
    lemma_subrange_of_concat(bytes, pos, hdr, payload);
    lemma_parse_len_header(bytes, pos, end, tag, payload.len() as u64);
    vstd::utf8::encode_utf8_valid_utf8(chars);
    vstd::utf8::encode_utf8_decode_utf8(chars);
}

/// Append a string field.
pub fn encode_str_field(out: &mut Vec<u8>, tag: u64, s: &String)
    requires
        1 <= tag * 8 + 2 < 16384,
    ensures
        final(out)@ == old(out)@ + str_field(tag, s@),
{
    let bytes = s.as_str().as_bytes();
    encode_len_header(out, tag, bytes.len() as u64);
    push_bytes(out, bytes);
    assert(final(out)@ =~= old(out)@ + str_field(tag, s@));
}

/// Parse a string field, exactly as `parse_str_field` does.
pub fn decode_str_field(buf: &[u8], pos: usize, end: usize, tag: u64) -> (r: Option<
    (String, usize),
>)
    requires
        end <= buf@.len(),
        1 <= tag * 8 + 2 < 16384,
    ensures
        match r {
            Some((s, p)) => parse_str_field(buf@, pos as int, end as int, tag) matches Some(
                (chars, pp),
            ) && s@ == chars && pp == p as int,
            None => parse_str_field(buf@, pos as int, end as int, tag) is None,
        },
{
    match decode_len_header(buf, pos, end, tag) {
        None => None,
        Some((a, b)) => {
            let sub = vstd::slice::slice_subrange(buf, a, b);
            match try_str_from_utf8(sub) {
                None => None,
                Some(s) => {
                    proof {
                        vstd::utf8::encode_utf8_decode_utf8(s@);
                    }
                    Some((s.to_owned(), b))
                },
            }
        },
    }
}

/// The bytes of an encoded ClientHello: none.
pub open spec fn enc_client_hello(m: ClientHello) -> Seq<u8> {
    Seq::empty()
}

/// The bytes of an encoded ServerWelcome.
pub open spec fn enc_server_welcome(m: ServerWelcome) -> Seq<u8> {
    enc_u64_field(1, m.target_tick_floor) + enc_u64_field(2, m.tick_rate_hz as u64)
        + enc_u64_field(3, m.player_id as u64) + enc_u64_field(4, m.controlled_entity_id)
}

/// Parse a ServerWelcome occupying exactly [pos, end).
pub open spec fn parse_server_welcome(bytes: Seq<u8>, pos: int, end: int) -> Option<
    ServerWelcome,
> {
    match parse_u64_field(bytes, pos, end, 1) {
        None => None,
        Some((floor, p1)) => match parse_u64_field(bytes, p1, end, 2) {
            None => None,
            Some((rate, p2)) => match parse_u64_field(bytes, p2, end, 3) {
                None => None,
                Some((pid, p3)) => match parse_u64_field(bytes, p3, end, 4) {
                    None => None,
                    Some((eid, p4)) => if p4 == end && rate <= u32::MAX && pid <= u32::MAX {
                        Some(
                            ServerWelcome {
                                target_tick_floor: floor,
                                tick_rate_hz: rate as u32,
                                player_id: pid as u32,
                                controlled_entity_id: eid,
                            },
                        )
                    } else {
                        None
                    },
                },
            },
        },
    }
}

/// Parsing an encoded ServerWelcome yields it back.
pub proof fn lemma_parse_server_welcome(bytes: Seq<u8>, pos: int, m: ServerWelcome)
    requires
        0 <= pos,
        pos + enc_server_welcome(m).len() <= bytes.len(),
        bytes.subrange(pos, pos + enc_server_welcome(m).len() as int) == enc_server_welcome(m),
    ensures
        parse_server_welcome(bytes, pos, pos + enc_server_welcome(m).len()) == Some(m),
{
    let e1 = enc_u64_field(1, m.target_tick_floor);
    let e2 = enc_u64_field(2, m.tick_rate_hz as u64);
    let e3 = enc_u64_field(3, m.player_id as u64);
    let e4 = enc_u64_field(4, m.controlled_entity_id);
    let end = pos + enc_server_welcome(m).len();
    assert(enc_server_welcome(m) =~= e1 + (e2 + (e3 + e4)));
    lemma_subrange_of_concat(bytes, pos, e1, e2 + (e3 + e4));
    lemma_subrange_of_concat(bytes, pos + e1.len(), e2, e3 + e4);
    lemma_subrange_of_concat(bytes, pos + e1.len() + e2.len(), e3, e4);
    lemma_parse_u64_field(bytes, pos, end, 1, m.target_tick_floor);
    lemma_parse_u64_field(bytes, pos + e1.len(), end, 2, m.tick_rate_hz as u64);
    lemma_parse_u64_field(bytes, pos + e1.len() + e2.len(), end, 3, m.player_id as u64);
    lemma_parse_u64_field(
        bytes,
        pos + e1.len() + e2.len() + e3.len(),
        end,
        4,
        m.controlled_entity_id,
    );
}

impl ClientHello {
    /// Encode to bytes (no fields: empty).
    pub fn encode_to_vec(&self) -> (r: Vec<u8>)
        ensures
            r@ == enc_client_hello(*self),
    {
        let r: Vec<u8> = Vec::new();
        proof {
            assert(r@ =~= enc_client_hello(*self));
        }
        r
    }

    /// Decode from bytes: succeeds only on the empty buffer.
    pub fn decode(buf: &[u8]) -> (r: Option<ClientHello>)
        ensures
            r is Some <==> buf@.len() == 0,
    {
        if buf.len() == 0 {
            Some(ClientHello {  })
        } else {
            None
        }
    }
}

impl ServerWelcome {
    /// Encode to bytes.
    pub fn encode_to_vec(&self) -> (r: Vec<u8>)
        ensures
            r@ == enc_server_welcome(*self),
    {
        let mut out: Vec<u8> = Vec::new();
        encode_u64_field(&mut out, 1, self.target_tick_floor);
        encode_u64_field(&mut out, 2, self.tick_rate_hz as u64);
        encode_u64_field(&mut out, 3, self.player_id as u64);
        encode_u64_field(&mut out, 4, self.controlled_entity_id);
        proof {
            assert(out@ =~= enc_server_welcome(*self));
        }
        out
    }

    /// Decode from bytes, consuming the whole buffer.
    pub fn decode(buf: &[u8]) -> (r: Option<ServerWelcome>)
        ensures
            r == parse_server_welcome(buf@, 0, buf@.len() as int),
    {
        let end = buf.len();
        let (floor, p1) = match decode_u64_field(buf, 0, end, 1) {
            Some(x) => x,
            None => { return None; },
        };
        let (rate, p2) = match decode_u64_field(buf, p1, end, 2) {
            Some(x) => x,
            None => { return None; },
        };
        let (pid, p3) = match decode_u64_field(buf, p2, end, 3) {
            Some(x) => x,
            None => { return None; },
        };
        let (eid, p4) = match decode_u64_field(buf, p3, end, 4) {
            Some(x) => x,
            None => { return None; },
        };
        if p4 == end && rate <= u32::MAX as u64 && pid <= u32::MAX as u64 {
            Some(
                ServerWelcome {
                    target_tick_floor: floor,
                    tick_rate_hz: rate as u32,
                    player_id: pid as u32,
                    controlled_entity_id: eid,
                },
            )
        } else {
            None
        }
    }
}

/// Round trip: decoding an encoded ServerWelcome yields it back.
pub proof fn lemma_server_welcome_roundtrip(m: ServerWelcome, bytes: Seq<u8>)
    requires
        bytes == enc_server_welcome(m),
    ensures
        parse_server_welcome(bytes, 0, bytes.len() as int) == Some(m),
{
    assert(bytes.subrange(0, bytes.len() as int) =~= bytes);
    lemma_parse_server_welcome(bytes, 0, m);
}



/// First byte of the key of (tag, wire type).
pub open spec fn key_first(tag: u64, wt: u64) -> u8 {
    let k = (tag * 8 + wt) as u64;
    if k < 128 {
        k as u8
    } else {
        (k % 128 + 128) as u8
    }
}

/// The key's first byte is `key_first`, and keys are at least one byte.
pub proof fn lemma_key_first(tag: u64, wt: u64)
    ensures
        key_bytes(tag, wt).len() >= 1,
        key_bytes(tag, wt)[0] == key_first(tag, wt),
{
}

/// A position whose byte differs from the key's first byte, or which sits
/// at the end, starts no field with that key.
pub proof fn lemma_not_key(bytes: Seq<u8>, pos: int, end: int, tag: u64, wt: u64)
    requires
        0 <= pos <= end <= bytes.len(),
        pos == end || bytes[pos] != key_first(tag, wt),
    ensures
        !starts_with_key(bytes, pos, end, tag, wt),
{
    lemma_key_first(tag, wt);
    let k = key_bytes(tag, wt);
    if pos < end && pos + k.len() <= end {
        assert(bytes.subrange(pos, pos + k.len() as int)[0] == bytes[pos]);
    }
}

/// View of an entity snapshot message.
pub struct EntitySnapshotProtoV {
    pub entity_id: u64,
    pub position: Seq<u64>,
    pub velocity: Seq<u64>,
}

impl View for EntitySnapshotProto {
    type V = EntitySnapshotProtoV;

    open spec fn view(&self) -> EntitySnapshotProtoV {
        EntitySnapshotProtoV {
            entity_id: self.entity_id,
            position: self.position@,
            velocity: self.velocity@,
        }
    }
}

/// View of an input command message.
pub struct InputCmdProtoV {
    pub tick: u64,
    pub input_seq: u64,
    pub move_dir: Seq<u64>,
}

impl View for InputCmdProto {
    type V = InputCmdProtoV;

    open spec fn view(&self) -> InputCmdProtoV {
        InputCmdProtoV { tick: self.tick, input_seq: self.input_seq, move_dir: self.move_dir@ }
    }
}

/// The encoded body of an entity snapshot.
pub open spec fn enc_entity_body(v: EntitySnapshotProtoV) -> Seq<u8> {
    enc_u64_field(1, v.entity_id) + enc_len_header(2, (8 * v.position.len()) as u64)
        + packed_le8(v.position) + enc_len_header(3, (8 * v.velocity.len()) as u64) + packed_le8(
        v.velocity,
    )
}

/// Size bounds under which an entity body encodes within 64-bit lengths.
pub open spec fn entity_wf(v: EntitySnapshotProtoV) -> bool {
    &&& 8 * v.position.len() <= u64::MAX
    &&& 8 * v.velocity.len() <= u64::MAX
}

/// Parse an entity body occupying exactly [pos, end).
pub open spec fn parse_entity_body(bytes: Seq<u8>, pos: int, end: int) -> Option<
    EntitySnapshotProtoV,
> {
    match parse_u64_field(bytes, pos, end, 1) {
        None => None,
        Some((eid, p1)) => match parse_len_header(bytes, p1, end, 2) {
            None => None,
            Some((a, b)) => match parse_packed_le8(bytes, a, b) {
                None => None,
                Some((position, _)) => match parse_len_header(bytes, b, end, 3) {
                    None => None,
                    Some((c, d)) => match parse_packed_le8(bytes, c, d) {
                        None => None,
                        Some((velocity, _)) => if d == end {
                            Some(EntitySnapshotProtoV { entity_id: eid, position, velocity })
                        } else {
                            None
                        },
                    },
                },
            },
        },
    }
}

/// Parsing an encoded entity body yields it back.
pub proof fn lemma_parse_entity_body(bytes: Seq<u8>, pos: int, v: EntitySnapshotProtoV)
    requires
        0 <= pos,
        entity_wf(v),
        pos + enc_entity_body(v).len() <= bytes.len(),
        bytes.subrange(pos, pos + enc_entity_body(v).len() as int) == enc_entity_body(v),
    ensures
        parse_entity_body(bytes, pos, pos + enc_entity_body(v).len()) == Some(v),
{
    let e1 = enc_u64_field(1, v.entity_id);
    let h2 = enc_len_header(2, (8 * v.position.len()) as u64);
    let pp = packed_le8(v.position);
    let h3 = enc_len_header(3, (8 * v.velocity.len()) as u64);
    let vp = packed_le8(v.velocity);
    let end = pos + enc_entity_body(v).len();
    lemma_packed_le8_len(v.position);
    lemma_packed_le8_len(v.velocity);
    assert(enc_entity_body(v) =~= e1 + (h2 + (pp + (h3 + vp))));
    lemma_subrange_of_concat(bytes, pos, e1, h2 + (pp + (h3 + vp)));
    lemma_subrange_of_concat(bytes, pos + e1.len(), h2, pp + (h3 + vp));
    lemma_subrange_of_concat(bytes, pos + e1.len() + h2.len(), pp, h3 + vp);
    lemma_subrange_of_concat(bytes, pos + e1.len() + h2.len() + pp.len(), h3, vp);
    lemma_parse_u64_field(bytes, pos, end, 1, v.entity_id);
    lemma_parse_len_header(bytes, pos + e1.len(), end, 2, (8 * v.position.len()) as u64);
    lemma_parse_packed_le8(bytes, pos + e1.len() + h2.len(), v.position);
    lemma_parse_len_header(
        bytes,
        pos + e1.len() + h2.len() + pp.len(),
        end,
        3,
        (8 * v.velocity.len()) as u64,
    );
    lemma_parse_packed_le8(bytes, pos + e1.len() + h2.len() + pp.len() + h3.len(), v.velocity);
}

/// The packed 64-bit payload is 8 bytes per value.
pub proof fn lemma_packed_le8_len(vals: Seq<u64>)
    ensures
        packed_le8(vals).len() == 8 * vals.len(),
    decreases vals.len(),
{
    vstd::bytes::lemma_auto_spec_u64_to_from_le_bytes();
    if vals.len() > 0 {
        lemma_packed_le8_len(vals.subrange(1, vals.len() as int));
    }
}

/// Append the encoded body of an entity snapshot.
pub fn encode_entity_body(out: &mut Vec<u8>, e: &EntitySnapshotProto)
    requires
        entity_wf(e@),
    ensures
        final(out)@ == old(out)@ + enc_entity_body(e@),
{
    encode_u64_field(out, 1, e.entity_id);
    proof {
        lemma_packed_le8_len(e.position@);
        lemma_packed_le8_len(e.velocity@);
    }
    encode_len_header(out, 2, (e.position.len() as u64) * 8);
    encode_packed_le8(out, &e.position);
    encode_len_header(out, 3, (e.velocity.len() as u64) * 8);
    encode_packed_le8(out, &e.velocity);
    assert(final(out)@ =~= old(out)@ + enc_entity_body(e@));
}

/// Parse an entity body, exactly as `parse_entity_body` does.
pub fn decode_entity_body(buf: &[u8], pos: usize, end: usize) -> (r: Option<
    (EntitySnapshotProto, usize),
>)
    requires
        end <= buf@.len(),
    ensures
        match r {
            Some((e, p)) => parse_entity_body(buf@, pos as int, end as int) == Some(e@) && p
                == end,
            None => parse_entity_body(buf@, pos as int, end as int) is None,
        },
{
    let (eid, p1) = match decode_u64_field(buf, pos, end, 1) {
        Some(x) => x,
        None => { return None; },
    };
    let (a, b) = match decode_len_header(buf, p1, end, 2) {
        Some(x) => x,
        None => { return None; },
    };
    let (position, _) = match decode_packed_le8(buf, a, b) {
        Some(x) => x,
        None => { return None; },
    };
    let (c, d) = match decode_len_header(buf, b, end, 3) {
        Some(x) => x,
        None => { return None; },
    };
    let (velocity, _) = match decode_packed_le8(buf, c, d) {
        Some(x) => x,
        None => { return None; },
    };
    if d == end {
        Some((EntitySnapshotProto { entity_id: eid, position, velocity }, d))
    } else {
        None
    }
}

/// The encoded bytes of an input command.
pub open spec fn enc_input_cmd(v: InputCmdProtoV) -> Seq<u8> {
    enc_u64_field(1, v.tick) + enc_u64_field(2, v.input_seq) + enc_len_header(
        3,
        (8 * v.move_dir.len()) as u64,
    ) + packed_le8(v.move_dir)
}

/// Parse an input command occupying exactly [pos, end).
pub open spec fn parse_input_cmd(bytes: Seq<u8>, pos: int, end: int) -> Option<InputCmdProtoV> {
    match parse_u64_field(bytes, pos, end, 1) {
        None => None,
        Some((tick, p1)) => match parse_u64_field(bytes, p1, end, 2) {
            None => None,
            Some((input_seq, p2)) => match parse_len_header(bytes, p2, end, 3) {
                None => None,
                Some((a, b)) => match parse_packed_le8(bytes, a, b) {
                    None => None,
                    Some((move_dir, _)) => if b == end {
                        Some(InputCmdProtoV { tick, input_seq, move_dir })
                    } else {
                        None
                    },
                },
            },
        },
    }
}

/// Parsing an encoded input command yields it back.
pub proof fn lemma_parse_input_cmd(bytes: Seq<u8>, pos: int, v: InputCmdProtoV)
    requires
        0 <= pos,
        8 * v.move_dir.len() <= u64::MAX,
        pos + enc_input_cmd(v).len() <= bytes.len(),
        bytes.subrange(pos, pos + enc_input_cmd(v).len() as int) == enc_input_cmd(v),
    ensures
        parse_input_cmd(bytes, pos, pos + enc_input_cmd(v).len()) == Some(v),
{
    let e1 = enc_u64_field(1, v.tick);
    let e2 = enc_u64_field(2, v.input_seq);
    let h3 = enc_len_header(3, (8 * v.move_dir.len()) as u64);
    let pp = packed_le8(v.move_dir);
    let end = pos + enc_input_cmd(v).len();
    lemma_packed_le8_len(v.move_dir);
    assert(enc_input_cmd(v) =~= e1 + (e2 + (h3 + pp)));
    lemma_subrange_of_concat(bytes, pos, e1, e2 + (h3 + pp));
    lemma_subrange_of_concat(bytes, pos + e1.len(), e2, h3 + pp);
    lemma_subrange_of_concat(bytes, pos + e1.len() + e2.len(), h3, pp);
    lemma_parse_u64_field(bytes, pos, end, 1, v.tick);
    lemma_parse_u64_field(bytes, pos + e1.len(), end, 2, v.input_seq);
    lemma_parse_len_header(
        bytes,
        pos + e1.len() + e2.len(),
        end,
        3,
        (8 * v.move_dir.len()) as u64,
    );
    lemma_parse_packed_le8(bytes, pos + e1.len() + e2.len() + h3.len(), v.move_dir);
}

impl InputCmdProto {
    /// Encode to bytes.
    pub fn encode_to_vec(&self) -> (r: Vec<u8>)
        requires
            8 * self.move_dir@.len() <= u64::MAX,
        ensures
            r@ == enc_input_cmd(self@),
    {
        let mut out: Vec<u8> = Vec::new();
        encode_u64_field(&mut out, 1, self.tick);
        encode_u64_field(&mut out, 2, self.input_seq);
        proof {
            lemma_packed_le8_len(self.move_dir@);
        }
        encode_len_header(&mut out, 3, (self.move_dir.len() as u64) * 8);
        encode_packed_le8(&mut out, &self.move_dir);
        proof {
            assert(out@ =~= enc_input_cmd(self@));
        }
        out
    }

    /// Decode from bytes, consuming the whole buffer.
    pub fn decode(buf: &[u8]) -> (r: Option<InputCmdProto>)
        ensures
            match r {
                Some(m) => parse_input_cmd(buf@, 0, buf@.len() as int) == Some(m@),
                None => parse_input_cmd(buf@, 0, buf@.len() as int) is None,
            },
    {
        let end = buf.len();
        let (tick, p1) = match decode_u64_field(buf, 0, end, 1) {
            Some(x) => x,
            None => { return None; },
        };
        let (input_seq, p2) = match decode_u64_field(buf, p1, end, 2) {
            Some(x) => x,
            None => { return None; },
        };
        let (a, b) = match decode_len_header(buf, p2, end, 3) {
            Some(x) => x,
            None => { return None; },
        };
        let (move_dir, _) = match decode_packed_le8(buf, a, b) {
            Some(x) => x,
            None => { return None; },
        };
        if b == end {
            Some(InputCmdProto { tick, input_seq, move_dir })
        } else {
            None
        }
    }
}

/// The encoded bytes of a time sync ping.
pub open spec fn enc_time_sync_ping(m: TimeSyncPing) -> Seq<u8> {
    enc_u64_field(1, m.client_timestamp)
}

/// The encoded bytes of a time sync pong.
pub open spec fn enc_time_sync_pong(m: TimeSyncPong) -> Seq<u8> {
    enc_u64_field(1, m.server_tick) + enc_u64_field(2, m.server_timestamp) + enc_u64_field(
        3,
        m.ping_timestamp_echo,
    )
}

impl TimeSyncPing {
    /// Encode to bytes.
    pub fn encode_to_vec(&self) -> (r: Vec<u8>)
        ensures
            r@ == enc_time_sync_ping(*self),
    {
        let mut out: Vec<u8> = Vec::new();
        encode_u64_field(&mut out, 1, self.client_timestamp);
        proof {
            assert(out@ =~= enc_time_sync_ping(*self));
        }
        out
    }
}

impl TimeSyncPong {
    /// Encode to bytes.
    pub fn encode_to_vec(&self) -> (r: Vec<u8>)
        ensures
            r@ == enc_time_sync_pong(*self),
    {
        let mut out: Vec<u8> = Vec::new();
        encode_u64_field(&mut out, 1, self.server_tick);
        encode_u64_field(&mut out, 2, self.server_timestamp);
        encode_u64_field(&mut out, 3, self.ping_timestamp_echo);
        proof {
            assert(out@ =~= enc_time_sync_pong(*self));
        }
        out
    }
}



/// A two-component entity body is small and well-formed.
pub proof fn lemma_entity_body_small(e: EntitySnapshotProtoV)
    requires
        e.position.len() == 2,
        e.velocity.len() == 2,
    ensures
        entity_wf(e),
        enc_entity_body(e).len() <= 100,
{
    crate::codec::lemma_varint_bytes_len10(8);
    crate::codec::lemma_varint_bytes_len10(e.entity_id);
    crate::codec::lemma_varint_bytes_len10(18);
    crate::codec::lemma_varint_bytes_len10(16);
    crate::codec::lemma_varint_bytes_len10(26);
    lemma_packed_le8_len(e.position);
    lemma_packed_le8_len(e.velocity);
}

/// All entity bodies of a repeated field are size-bounded.
pub open spec fn entities_wf(s: Seq<EntitySnapshotProtoV>) -> bool {
    forall|i: int|
        0 <= i < s.len() ==> entity_wf(#[trigger] s[i]) && enc_entity_body(s[i]).len()
            <= u64::MAX
}

/// A repeated entity field: one length-delimited element per entity.
pub open spec fn rep_entity_fields(tag: u64, s: Seq<EntitySnapshotProtoV>) -> Seq<u8>
    decreases s.len(),
{
    if s.len() == 0 {
        Seq::empty()
    } else {
        enc_len_header(tag, enc_entity_body(s[0]).len() as u64) + enc_entity_body(s[0])
            + rep_entity_fields(tag, s.subrange(1, s.len() as int))
    }
}

/// Parse consecutive entity elements with the given tag.
pub open spec fn parse_rep_entities(bytes: Seq<u8>, pos: int, end: int, tag: u64) -> Option<
    (Seq<EntitySnapshotProtoV>, int),
>
    decreases end - pos,
{
    if !starts_with_key(bytes, pos, end, tag, 2) {
        Some((Seq::empty(), pos))
    } else {
        match parse_len_header(bytes, pos, end, tag) {
            None => None,
            Some((a, b)) => if b <= pos {
                None
            } else {
                match parse_entity_body(bytes, a, b) {
                    None => None,
                    Some(e) => match parse_rep_entities(bytes, b, end, tag) {
                        None => None,
                        Some((rest, p)) => Some((seq![e] + rest, p)),
                    },
                }
            },
        }
    }
}

/// Parsing an encoded repeated entity field yields the entities, as long
/// as what follows does not begin with the same key.
pub proof fn lemma_parse_rep_entities(
    bytes: Seq<u8>,
    pos: int,
    end: int,
    tag: u64,
    s: Seq<EntitySnapshotProtoV>,
)
    requires
        0 <= pos,
        entities_wf(s),
        pos + rep_entity_fields(tag, s).len() <= end <= bytes.len(),
        bytes.subrange(pos, pos + rep_entity_fields(tag, s).len() as int) == rep_entity_fields(
            tag,
            s,
        ),
        !starts_with_key(bytes, pos + rep_entity_fields(tag, s).len(), end, tag, 2),
    ensures
        parse_rep_entities(bytes, pos, end, tag) == Some(
            (s, pos + rep_entity_fields(tag, s).len()),
        ),
    decreases s.len(),
{
    if s.len() == 0 {
        assert(s =~= Seq::<EntitySnapshotProtoV>::empty());
    } else {
        let body = enc_entity_body(s[0]);
        let hdr = enc_len_header(tag, body.len() as u64);
        let rest = rep_entity_fields(tag, s.subrange(1, s.len() as int));
        assert(rep_entity_fields(tag, s) =~= hdr + (body + rest));
        lemma_subrange_of_concat(bytes, pos, hdr, body + rest);
        lemma_subrange_of_concat(bytes, pos + hdr.len(), body, rest);
        lemma_parse_len_header(bytes, pos, end, tag, body.len() as u64);
        lemma_parse_entity_body(bytes, pos + hdr.len(), s[0]);
        lemma_parse_rep_entities(
            bytes,
            pos + hdr.len() + body.len(),
            end,
            tag,
            s.subrange(1, s.len() as int),
        );
        assert(seq![s[0]] + s.subrange(1, s.len() as int) =~= s);
    }
}

/// Append a repeated entity field.
pub fn encode_rep_entities(out: &mut Vec<u8>, tag: u64, entities: &Vec<EntitySnapshotProto>)
    requires
        1 <= tag * 8 + 2 < 16384,
        entities_wf(entities@.map_values(|e: EntitySnapshotProto| e@)),
    ensures
        final(out)@ == old(out)@ + rep_entity_fields(
            tag,
            entities@.map_values(|e: EntitySnapshotProto| e@),
        ),
{
    let ghost views = entities@.map_values(|e: EntitySnapshotProto| e@);
    let n = entities.len();
    for i in 0..n
        invariant
            n == entities@.len(),
            views == entities@.map_values(|e: EntitySnapshotProto| e@),
            entities_wf(views),
            1 <= tag * 8 + 2 < 16384,
            out@ == old(out)@ + rep_entity_fields(tag, views.subrange(0, i as int)),
    {
        proof {
            assert(views[i as int] == entities@[i as int]@);
            assert(entity_wf(views[i as int]));
        }
        let mut body: Vec<u8> = Vec::new();
        encode_entity_body(&mut body, &entities[i]);
        encode_len_header(out, tag, body.len() as u64);
        push_bytes(out, body.as_slice());
        proof {
            lemma_rep_entity_fields_snoc(tag, views.subrange(0, i as int), views[i as int]);
            assert(views.subrange(0, i as int).push(views[i as int]) =~= views.subrange(
                0,
                i + 1,
            ));
            assert(out@ =~= old(out)@ + rep_entity_fields(tag, views.subrange(0, i + 1)));
        }
    }
    proof {
        assert(views.subrange(0, n as int) =~= views);
    }
}

/// One more entity element appends its header and body.
pub proof fn lemma_rep_entity_fields_snoc(
    tag: u64,
    s: Seq<EntitySnapshotProtoV>,
    v: EntitySnapshotProtoV,
)
    ensures
        rep_entity_fields(tag, s.push(v)) == rep_entity_fields(tag, s) + (enc_len_header(
            tag,
            enc_entity_body(v).len() as u64,
        ) + enc_entity_body(v)),
    decreases s.len(),
{
    let elem = enc_len_header(tag, enc_entity_body(v).len() as u64) + enc_entity_body(v);
    if s.len() == 0 {
        assert(s.push(v)[0] == v);
        assert(s.push(v).subrange(1, 1) =~= Seq::<EntitySnapshotProtoV>::empty());
        assert(rep_entity_fields(tag, s.push(v).subrange(1, 1)) =~= Seq::<u8>::empty());
        assert(rep_entity_fields(tag, s.push(v)) =~= elem);
        assert(rep_entity_fields(tag, s) + elem =~= elem);
    } else {
        assert(s.push(v)[0] == s[0]);
        assert(s.push(v).subrange(1, s.len() as int + 1) =~= s.subrange(
            1,
            s.len() as int,
        ).push(v));
        lemma_rep_entity_fields_snoc(tag, s.subrange(1, s.len() as int), v);
        let head = enc_len_header(tag, enc_entity_body(s[0]).len() as u64) + enc_entity_body(
            s[0],
        );
        assert(head + (rep_entity_fields(tag, s.subrange(1, s.len() as int)) + elem) =~= (head
            + rep_entity_fields(tag, s.subrange(1, s.len() as int))) + elem);
    }
}

/// Parse a repeated entity field, exactly as `parse_rep_entities` does.
pub fn decode_rep_entities(buf: &[u8], pos: usize, end: usize, tag: u64) -> (r: Option<
    (Vec<EntitySnapshotProto>, usize),
>)
    requires
        end <= buf@.len(),
        1 <= tag * 8 + 2 < 16384,
    ensures
        match r {
            Some((es, p)) => parse_rep_entities(buf@, pos as int, end as int, tag) == Some(
                (es@.map_values(|e: EntitySnapshotProto| e@), p as int),
            ),
            None => parse_rep_entities(buf@, pos as int, end as int, tag) is None,
        },
{
    let mut acc: Vec<EntitySnapshotProto> = Vec::new();
    let mut cur = pos;
    loop
        invariant
            end <= buf@.len(),
            1 <= tag * 8 + 2 < 16384,
            parse_rep_entities(buf@, pos as int, end as int, tag) == (match parse_rep_entities(
                buf@,
                cur as int,
                end as int,
                tag,
            ) {
                Some((rest, p)) => Some(
                    (acc@.map_values(|e: EntitySnapshotProto| e@) + rest, p),
                ),
                None => None,
            }),
        decreases end - cur + 1,
    {
        match eat_key(buf, cur, end, tag, 2) {
            None => {
                proof {
                    assert(acc@.map_values(|e: EntitySnapshotProto| e@)
                        + Seq::<EntitySnapshotProtoV>::empty() =~= acc@.map_values(
                        |e: EntitySnapshotProto| e@,
                    ));
                }
                return Some((acc, cur));
            },
            Some(_) => {
                let (a, b) = match decode_len_header(buf, cur, end, tag) {
                    Some(x) => x,
                    None => { return None; },
                };
                if b <= cur {
                    return None;
                }
                let (e, _) = match decode_entity_body(buf, a, b) {
                    Some(x) => x,
                    None => { return None; },
                };
                proof {
                    if parse_rep_entities(buf@, b as int, end as int, tag) is Some {
                        let (rest, p) = parse_rep_entities(
                            buf@,
                            b as int,
                            end as int,
                            tag,
                        ).unwrap();
                        assert(acc@.map_values(|x: EntitySnapshotProto| x@) + (seq![e@] + rest)
                            =~= acc@.push(e).map_values(|x: EntitySnapshotProto| x@) + rest);
                    }
                }
                acc.push(e);
                cur = b;
            },
        }
    }
}

/// View of a baseline message.
pub struct JoinBaselineV {
    pub tick: u64,
    pub entities: Seq<EntitySnapshotProtoV>,
    pub digest: u64,
}

impl View for JoinBaseline {
    type V = JoinBaselineV;

    open spec fn view(&self) -> JoinBaselineV {
        JoinBaselineV {
            tick: self.tick,
            entities: self.entities@.map_values(|e: EntitySnapshotProto| e@),
            digest: self.digest,
        }
    }
}

/// View of a snapshot broadcast message.
pub struct SnapshotProtoV {
    pub tick: u64,
    pub entities: Seq<EntitySnapshotProtoV>,
    pub digest: u64,
    pub target_tick_floor: u64,
}

impl View for SnapshotProto {
    type V = SnapshotProtoV;

    open spec fn view(&self) -> SnapshotProtoV {
        SnapshotProtoV {
            tick: self.tick,
            entities: self.entities@.map_values(|e: EntitySnapshotProto| e@),
            digest: self.digest,
            target_tick_floor: self.target_tick_floor,
        }
    }
}

/// The encoded bytes of a baseline message.
pub open spec fn enc_join_baseline(v: JoinBaselineV) -> Seq<u8> {
    enc_u64_field(1, v.tick) + rep_entity_fields(2, v.entities) + enc_u64_field(3, v.digest)
}

/// Parse a baseline message occupying exactly [pos, end).
pub open spec fn parse_join_baseline(bytes: Seq<u8>, pos: int, end: int) -> Option<
    JoinBaselineV,
> {
    match parse_u64_field(bytes, pos, end, 1) {
        None => None,
        Some((tick, p1)) => match parse_rep_entities(bytes, p1, end, 2) {
            None => None,
            Some((entities, p2)) => match parse_u64_field(bytes, p2, end, 3) {
                None => None,
                Some((digest, p3)) => if p3 == end {
                    Some(JoinBaselineV { tick, entities, digest })
                } else {
                    None
                },
            },
        },
    }
}

/// Parsing an encoded baseline yields it back.
pub proof fn lemma_parse_join_baseline(bytes: Seq<u8>, pos: int, v: JoinBaselineV)
    requires
        0 <= pos,
        entities_wf(v.entities),
        pos + enc_join_baseline(v).len() <= bytes.len(),
        bytes.subrange(pos, pos + enc_join_baseline(v).len() as int) == enc_join_baseline(v),
    ensures
        parse_join_baseline(bytes, pos, pos + enc_join_baseline(v).len()) == Some(v),
{
    let e1 = enc_u64_field(1, v.tick);
    let re = rep_entity_fields(2, v.entities);
    let e3 = enc_u64_field(3, v.digest);
    let end = pos + enc_join_baseline(v).len();
    assert(enc_join_baseline(v) =~= e1 + (re + e3));
    lemma_subrange_of_concat(bytes, pos, e1, re + e3);
    lemma_subrange_of_concat(bytes, pos + e1.len(), re, e3);
    lemma_parse_u64_field(bytes, pos, end, 1, v.tick);
    assert(bytes[pos + e1.len() + re.len()] == e3[0]);
    assert(e3[0] == key_first(3, 0)) by {
        assert(key_bytes(3, 0) =~= seq![24u8]);
        assert(e3[0] == key_bytes(3, 0)[0]);
    }
    assert(key_first(3, 0) != key_first(2, 2));
    lemma_not_key(bytes, pos + e1.len() + re.len(), end, 2, 2);
    lemma_parse_rep_entities(bytes, pos + e1.len(), end, 2, v.entities);
    lemma_parse_u64_field(bytes, pos + e1.len() + re.len(), end, 3, v.digest);
}

impl JoinBaseline {
    /// Encode to bytes.
    pub fn encode_to_vec(&self) -> (r: Vec<u8>)
        requires
            entities_wf(self@.entities),
        ensures
            r@ == enc_join_baseline(self@),
    {
        let mut out: Vec<u8> = Vec::new();
        encode_u64_field(&mut out, 1, self.tick);
        encode_rep_entities(&mut out, 2, &self.entities);
        encode_u64_field(&mut out, 3, self.digest);
        proof {
            assert(out@ =~= enc_join_baseline(self@));
        }
        out
    }

    /// Back to the kernel form; fails unless every entity is
    /// well-formed (two position and two velocity components).
    pub fn try_to_baseline(&self) -> (r: Option<sim::Baseline>)
        ensures
            match r {
                Some(b) => b.tick == self.tick && b.digest == self.digest
                    && b.entities@.map_values(|e: sim::EntitySnapshot| entity_wire_view(e))
                    == self@.entities,
                None => exists|i: int|
                    0 <= i < self.entities@.len() && ((#[trigger] self.entities@[i]).position@.len()
                        != 2 || self.entities@[i].velocity@.len() != 2),
            },
    {
        let mut entities: Vec<sim::EntitySnapshot> = Vec::new();
        let n = self.entities.len();
        let mut i: usize = 0;
        while i < n
            invariant
                n == self.entities@.len(),
                0 <= i <= n,
                entities@.len() == i,
                forall|j: int|
                    0 <= j < i ==> entity_wire_view(#[trigger] entities@[j])
                        == self.entities@[j]@,
            decreases n - i,
        {
            match self.entities[i].try_to_snapshot() {
                Some(e) => {
                    proof {
                        let p = self.entities@[i as int];
                        assert(e.position@ =~= seq![e.position[0], e.position[1]]);
                        assert(e.velocity@ =~= seq![e.velocity[0], e.velocity[1]]);
                        assert(p.position@ =~= seq![p.position@[0], p.position@[1]]);
                        assert(p.velocity@ =~= seq![p.velocity@[0], p.velocity@[1]]);
                        assert(entity_wire_view(e) == p@);
                    }
                    entities.push(e);
                },
                None => {
                    proof {
                        assert((self.entities@[i as int]).position@.len() != 2
                            || (self.entities@[i as int]).velocity@.len() != 2);
                    }
                    return None;
                },
            }
            i = i + 1;
        }
        let b = sim::Baseline { tick: self.tick, entities, digest: self.digest };
        proof {
            assert(b.entities@.map_values(|e: sim::EntitySnapshot| entity_wire_view(e))
                =~= self@.entities);
        }
        Some(b)
    }

    /// Decode from bytes, consuming the whole buffer.
    pub fn decode(buf: &[u8]) -> (r: Option<JoinBaseline>)
        ensures
            match r {
                Some(m) => parse_join_baseline(buf@, 0, buf@.len() as int) == Some(m@),
                None => parse_join_baseline(buf@, 0, buf@.len() as int) is None,
            },
    {
        match Self::decode_body(buf, 0, buf.len()) {
            Some((m, p)) => if p == buf.len() {
                Some(m)
            } else {
                None
            },
            None => None,
        }
    }

    /// Parse a baseline body in [pos, end), exactly as `parse_join_baseline`.
    pub fn decode_body(buf: &[u8], pos: usize, end: usize) -> (r: Option<(JoinBaseline, usize)>)
        requires
            end <= buf@.len(),
        ensures
            match r {
                Some((m, p)) => parse_join_baseline(buf@, pos as int, end as int) == Some(m@)
                    && p == end,
                None => parse_join_baseline(buf@, pos as int, end as int) is None,
            },
    {
        let (tick, p1) = match decode_u64_field(buf, pos, end, 1) {
            Some(x) => x,
            None => { return None; },
        };
        let (entities, p2) = match decode_rep_entities(buf, p1, end, 2) {
            Some(x) => x,
            None => { return None; },
        };
        let (digest, p3) = match decode_u64_field(buf, p2, end, 3) {
            Some(x) => x,
            None => { return None; },
        };
        if p3 == end {
            Some((JoinBaseline { tick, entities, digest }, p3))
        } else {
            None
        }
    }
}

/// The encoded bytes of a snapshot broadcast.
pub open spec fn enc_snapshot_proto(v: SnapshotProtoV) -> Seq<u8> {
    enc_u64_field(1, v.tick) + rep_entity_fields(2, v.entities) + enc_u64_field(3, v.digest)
        + enc_u64_field(4, v.target_tick_floor)
}

/// Parse a snapshot broadcast occupying exactly [pos, end).
pub open spec fn parse_snapshot_proto(bytes: Seq<u8>, pos: int, end: int) -> Option<
    SnapshotProtoV,
> {
    match parse_u64_field(bytes, pos, end, 1) {
        None => None,
        Some((tick, p1)) => match parse_rep_entities(bytes, p1, end, 2) {
            None => None,
            Some((entities, p2)) => match parse_u64_field(bytes, p2, end, 3) {
                None => None,
                Some((digest, p3)) => match parse_u64_field(bytes, p3, end, 4) {
                    None => None,
                    Some((floor, p4)) => if p4 == end {
                        Some(
                            SnapshotProtoV {
                                tick,
                                entities,
                                digest,
                                target_tick_floor: floor,
                            },
                        )
                    } else {
                        None
                    },
                },
            },
        },
    }
}

/// Parsing an encoded snapshot broadcast yields it back.
pub proof fn lemma_parse_snapshot_proto(bytes: Seq<u8>, pos: int, v: SnapshotProtoV)
    requires
        0 <= pos,
        entities_wf(v.entities),
        pos + enc_snapshot_proto(v).len() <= bytes.len(),
        bytes.subrange(pos, pos + enc_snapshot_proto(v).len() as int) == enc_snapshot_proto(v),
    ensures
        parse_snapshot_proto(bytes, pos, pos + enc_snapshot_proto(v).len()) == Some(v),
{
    let e1 = enc_u64_field(1, v.tick);
    let re = rep_entity_fields(2, v.entities);
    let e3 = enc_u64_field(3, v.digest);
    let e4 = enc_u64_field(4, v.target_tick_floor);
    let end = pos + enc_snapshot_proto(v).len();
    assert(enc_snapshot_proto(v) =~= e1 + (re + (e3 + e4)));
    lemma_subrange_of_concat(bytes, pos, e1, re + (e3 + e4));
    lemma_subrange_of_concat(bytes, pos + e1.len(), re, e3 + e4);
    lemma_subrange_of_concat(bytes, pos + e1.len() + re.len(), e3, e4);
    lemma_parse_u64_field(bytes, pos, end, 1, v.tick);
    assert(bytes[pos + e1.len() + re.len()] == e3[0]);
    assert(e3[0] == key_first(3, 0)) by {
        assert(key_bytes(3, 0) =~= seq![24u8]);
        assert(e3[0] == key_bytes(3, 0)[0]);
    }
    assert(key_first(3, 0) != key_first(2, 2));
    lemma_not_key(bytes, pos + e1.len() + re.len(), end, 2, 2);
    lemma_parse_rep_entities(bytes, pos + e1.len(), end, 2, v.entities);
    lemma_parse_u64_field(bytes, pos + e1.len() + re.len(), end, 3, v.digest);
    lemma_parse_u64_field(bytes, pos + e1.len() + re.len() + e3.len(), end, 4, v.target_tick_floor);
}

impl SnapshotProto {
    /// Encode to bytes.
    pub fn encode_to_vec(&self) -> (r: Vec<u8>)
        requires
            entities_wf(self@.entities),
        ensures
            r@ == enc_snapshot_proto(self@),
    {
        let mut out: Vec<u8> = Vec::new();
        encode_u64_field(&mut out, 1, self.tick);
        encode_rep_entities(&mut out, 2, &self.entities);
        encode_u64_field(&mut out, 3, self.digest);
        encode_u64_field(&mut out, 4, self.target_tick_floor);
        proof {
            assert(out@ =~= enc_snapshot_proto(self@));
        }
        out
    }

    /// Decode from bytes, consuming the whole buffer.
    pub fn decode(buf: &[u8]) -> (r: Option<SnapshotProto>)
        ensures
            match r {
                Some(m) => parse_snapshot_proto(buf@, 0, buf@.len() as int) == Some(m@),
                None => parse_snapshot_proto(buf@, 0, buf@.len() as int) is None,
            },
    {
        let end = buf.len();
        let (tick, p1) = match decode_u64_field(buf, 0, end, 1) {
            Some(x) => x,
            None => { return None; },
        };
        let (entities, p2) = match decode_rep_entities(buf, p1, end, 2) {
            Some(x) => x,
            None => { return None; },
        };
        let (digest, p3) = match decode_u64_field(buf, p2, end, 3) {
            Some(x) => x,
            None => { return None; },
        };
        let (floor, p4) = match decode_u64_field(buf, p3, end, 4) {
            Some(x) => x,
            None => { return None; },
        };
        if p4 == end {
            Some(SnapshotProto { tick, entities, digest, target_tick_floor: floor })
        } else {
            None
        }
    }
}



/// View of an applied input message.
pub struct AppliedInputProtoV {
    pub tick: u64,
    pub player_id: u32,
    pub move_dir: Seq<u64>,
    pub is_fallback: bool,
}

impl View for AppliedInputProto {
    type V = AppliedInputProtoV;

    open spec fn view(&self) -> AppliedInputProtoV {
        AppliedInputProtoV {
            tick: self.tick,
            player_id: self.player_id,
            move_dir: self.move_dir@,
            is_fallback: self.is_fallback,
        }
    }
}

/// View of a tuning parameter message.
pub struct TuningParameterV {
    pub key: Seq<char>,
    pub value: u64,
}

impl View for TuningParameter {
    type V = TuningParameterV;

    open spec fn view(&self) -> TuningParameterV {
        TuningParameterV { key: self.key@, value: self.value }
    }
}

/// View of a build fingerprint message.
pub struct BuildFingerprintV {
    pub binary_sha256: Seq<char>,
    pub target_triple: Seq<char>,
    pub profile: Seq<char>,
    pub git_commit: Seq<char>,
}

impl View for BuildFingerprint {
    type V = BuildFingerprintV;

    open spec fn view(&self) -> BuildFingerprintV {
        BuildFingerprintV {
            binary_sha256: self.binary_sha256@,
            target_triple: self.target_triple@,
            profile: self.profile@,
            git_commit: self.git_commit@,
        }
    }
}

/// The encoded body of an applied input.
pub open spec fn enc_applied_input_body(v: AppliedInputProtoV) -> Seq<u8> {
    enc_u64_field(1, v.tick) + enc_u64_field(2, v.player_id as u64) + enc_len_header(
        3,
        (8 * v.move_dir.len()) as u64,
    ) + packed_le8(v.move_dir) + enc_u64_field(4, if v.is_fallback { 1u64 } else { 0u64 })
}

/// Size bound for an applied input body.
pub open spec fn applied_input_wf(v: AppliedInputProtoV) -> bool {
    8 * v.move_dir.len() <= u64::MAX
}

/// Parse an applied input body occupying exactly [pos, end).
pub open spec fn parse_applied_input_body(bytes: Seq<u8>, pos: int, end: int) -> Option<
    AppliedInputProtoV,
> {
    match parse_u64_field(bytes, pos, end, 1) {
        None => None,
        Some((tick, p1)) => match parse_u64_field(bytes, p1, end, 2) {
            None => None,
            Some((pid, p2)) => match parse_len_header(bytes, p2, end, 3) {
                None => None,
                Some((a, b)) => match parse_packed_le8(bytes, a, b) {
                    None => None,
                    Some((move_dir, _)) => match parse_u64_field(bytes, b, end, 4) {
                        None => None,
                        Some((fb, p4)) => if p4 == end && pid <= u32::MAX {
                            Some(
                                AppliedInputProtoV {
                                    tick,
                                    player_id: pid as u32,
                                    move_dir,
                                    is_fallback: fb != 0,
                                },
                            )
                        } else {
                            None
                        },
                    },
                },
            },
        },
    }
}

/// Parsing an encoded applied input body yields it back.
pub proof fn lemma_parse_applied_input_body(bytes: Seq<u8>, pos: int, v: AppliedInputProtoV)
    requires
        0 <= pos,
        applied_input_wf(v),
        pos + enc_applied_input_body(v).len() <= bytes.len(),
        bytes.subrange(pos, pos + enc_applied_input_body(v).len() as int)
            == enc_applied_input_body(v),
    ensures
        parse_applied_input_body(bytes, pos, pos + enc_applied_input_body(v).len()) == Some(v),
{
    let e1 = enc_u64_field(1, v.tick);
    let e2 = enc_u64_field(2, v.player_id as u64);
    let h3 = enc_len_header(3, (8 * v.move_dir.len()) as u64);
    let pp = packed_le8(v.move_dir);
    let e4 = enc_u64_field(4, if v.is_fallback { 1u64 } else { 0u64 });
    let end = pos + enc_applied_input_body(v).len();
    lemma_packed_le8_len(v.move_dir);
    assert(enc_applied_input_body(v) =~= e1 + (e2 + (h3 + (pp + e4))));
    lemma_subrange_of_concat(bytes, pos, e1, e2 + (h3 + (pp + e4)));
    lemma_subrange_of_concat(bytes, pos + e1.len(), e2, h3 + (pp + e4));
    lemma_subrange_of_concat(bytes, pos + e1.len() + e2.len(), h3, pp + e4);
    lemma_subrange_of_concat(bytes, pos + e1.len() + e2.len() + h3.len(), pp, e4);
    lemma_parse_u64_field(bytes, pos, end, 1, v.tick);
    lemma_parse_u64_field(bytes, pos + e1.len(), end, 2, v.player_id as u64);
    lemma_parse_len_header(
        bytes,
        pos + e1.len() + e2.len(),
        end,
        3,
        (8 * v.move_dir.len()) as u64,
    );
    lemma_parse_packed_le8(bytes, pos + e1.len() + e2.len() + h3.len(), v.move_dir);
    lemma_parse_u64_field(
        bytes,
        pos + e1.len() + e2.len() + h3.len() + pp.len(),
        end,
        4,
        if v.is_fallback { 1u64 } else { 0u64 },
    );
}

/// Append the encoded body of an applied input.
pub fn encode_applied_input_body(out: &mut Vec<u8>, m: &AppliedInputProto)
    requires
        applied_input_wf(m@),
    ensures
        final(out)@ == old(out)@ + enc_applied_input_body(m@),
{
    encode_u64_field(out, 1, m.tick);
    encode_u64_field(out, 2, m.player_id as u64);
    proof {
        lemma_packed_le8_len(m.move_dir@);
    }
    encode_len_header(out, 3, (m.move_dir.len() as u64) * 8);
    encode_packed_le8(out, &m.move_dir);
    encode_u64_field(out, 4, if m.is_fallback { 1u64 } else { 0u64 });
    assert(final(out)@ =~= old(out)@ + enc_applied_input_body(m@));
}

/// Parse an applied input body, exactly as `parse_applied_input_body`.
pub fn decode_applied_input_body(buf: &[u8], pos: usize, end: usize) -> (r: Option<
    (AppliedInputProto, usize),
>)
    requires
        end <= buf@.len(),
    ensures
        match r {
            Some((m, p)) => parse_applied_input_body(buf@, pos as int, end as int) == Some(m@)
                && p == end,
            None => parse_applied_input_body(buf@, pos as int, end as int) is None,
        },
{
    let (tick, p1) = match decode_u64_field(buf, pos, end, 1) {
        Some(x) => x,
        None => { return None; },
    };
    let (pid, p2) = match decode_u64_field(buf, p1, end, 2) {
        Some(x) => x,
        None => { return None; },
    };
    let (a, b) = match decode_len_header(buf, p2, end, 3) {
        Some(x) => x,
        None => { return None; },
    };
    let (move_dir, _) = match decode_packed_le8(buf, a, b) {
        Some(x) => x,
        None => { return None; },
    };
    let (fb, p4) = match decode_u64_field(buf, b, end, 4) {
        Some(x) => x,
        None => { return None; },
    };
    if p4 == end && pid <= u32::MAX as u64 {
        Some(
            (
                AppliedInputProto {
                    tick,
                    player_id: pid as u32,
                    move_dir,
                    is_fallback: fb != 0,
                },
                p4,
            ),
        )
    } else {
        None
    }
}

/// The encoded body of a player-entity mapping.
pub open spec fn enc_mapping_body(v: PlayerEntityMapping) -> Seq<u8> {
    enc_u64_field(1, v.player_id as u64) + enc_u64_field(2, v.entity_id)
}

/// Parse a mapping body occupying exactly [pos, end).
pub open spec fn parse_mapping_body(bytes: Seq<u8>, pos: int, end: int) -> Option<
    PlayerEntityMapping,
> {
    match parse_u64_field(bytes, pos, end, 1) {
        None => None,
        Some((pid, p1)) => match parse_u64_field(bytes, p1, end, 2) {
            None => None,
            Some((eid, p2)) => if p2 == end && pid <= u32::MAX {
                Some(PlayerEntityMapping { player_id: pid as u32, entity_id: eid })
            } else {
                None
            },
        },
    }
}

/// Parsing an encoded mapping body yields it back.
pub proof fn lemma_parse_mapping_body(bytes: Seq<u8>, pos: int, v: PlayerEntityMapping)
    requires
        0 <= pos,
        pos + enc_mapping_body(v).len() <= bytes.len(),
        bytes.subrange(pos, pos + enc_mapping_body(v).len() as int) == enc_mapping_body(v),
    ensures
        parse_mapping_body(bytes, pos, pos + enc_mapping_body(v).len()) == Some(v),
{
    let e1 = enc_u64_field(1, v.player_id as u64);
    let e2 = enc_u64_field(2, v.entity_id);
    let end = pos + enc_mapping_body(v).len();
    assert(enc_mapping_body(v) =~= e1 + e2);
    lemma_subrange_of_concat(bytes, pos, e1, e2);
    lemma_parse_u64_field(bytes, pos, end, 1, v.player_id as u64);
    lemma_parse_u64_field(bytes, pos + e1.len(), end, 2, v.entity_id);
}

/// Append the encoded body of a mapping.
pub fn encode_mapping_body(out: &mut Vec<u8>, m: &PlayerEntityMapping)
    ensures
        final(out)@ == old(out)@ + enc_mapping_body(*m),
{
    encode_u64_field(out, 1, m.player_id as u64);
    encode_u64_field(out, 2, m.entity_id);
    assert(final(out)@ =~= old(out)@ + enc_mapping_body(*m));
}

/// Parse a mapping body, exactly as `parse_mapping_body` does.
pub fn decode_mapping_body(buf: &[u8], pos: usize, end: usize) -> (r: Option<
    (PlayerEntityMapping, usize),
>)
    requires
        end <= buf@.len(),
    ensures
        match r {
            Some((m, p)) => parse_mapping_body(buf@, pos as int, end as int) == Some(m) && p
                == end,
            None => parse_mapping_body(buf@, pos as int, end as int) is None,
        },
{
    let (pid, p1) = match decode_u64_field(buf, pos, end, 1) {
        Some(x) => x,
        None => { return None; },
    };
    let (eid, p2) = match decode_u64_field(buf, p1, end, 2) {
        Some(x) => x,
        None => { return None; },
    };
    if p2 == end && pid <= u32::MAX as u64 {
        Some((PlayerEntityMapping { player_id: pid as u32, entity_id: eid }, p2))
    } else {
        None
    }
}

/// The encoded body of a tuning parameter.
pub open spec fn enc_tuning_body(v: TuningParameterV) -> Seq<u8> {
    str_field(1, v.key) + enc_double_field(2, v.value)
}

/// Size bound for a tuning parameter body.
pub open spec fn tuning_wf(v: TuningParameterV) -> bool {
    vstd::utf8::encode_utf8(v.key).len() <= u64::MAX
}

/// Parse a tuning parameter body occupying exactly [pos, end).
pub open spec fn parse_tuning_body(bytes: Seq<u8>, pos: int, end: int) -> Option<
    TuningParameterV,
> {
    match parse_str_field(bytes, pos, end, 1) {
        None => None,
        Some((key, p1)) => match parse_double_field(bytes, p1, end, 2) {
            None => None,
            Some((value, p2)) => if p2 == end {
                Some(TuningParameterV { key, value })
            } else {
                None
            },
        },
    }
}

/// Parsing an encoded tuning parameter body yields it back.
pub proof fn lemma_parse_tuning_body(bytes: Seq<u8>, pos: int, v: TuningParameterV)
    requires
        0 <= pos,
        tuning_wf(v),
        pos + enc_tuning_body(v).len() <= bytes.len(),
        bytes.subrange(pos, pos + enc_tuning_body(v).len() as int) == enc_tuning_body(v),
    ensures
        parse_tuning_body(bytes, pos, pos + enc_tuning_body(v).len()) == Some(v),
{
    let s1 = str_field(1, v.key);
    let d2 = enc_double_field(2, v.value);
    let end = pos + enc_tuning_body(v).len();
    assert(enc_tuning_body(v) =~= s1 + d2);
    lemma_subrange_of_concat(bytes, pos, s1, d2);
    lemma_parse_str_field(bytes, pos, end, 1, v.key);
    lemma_parse_double_field(bytes, pos + s1.len(), end, 2, v.value);
}

/// Append the encoded body of a tuning parameter.
pub fn encode_tuning_body(out: &mut Vec<u8>, m: &TuningParameter)
    ensures
        final(out)@ == old(out)@ + enc_tuning_body(m@),
{
    encode_str_field(out, 1, &m.key);
    encode_double_field(out, 2, m.value);
    assert(final(out)@ =~= old(out)@ + enc_tuning_body(m@));
}

/// Parse a tuning parameter body, exactly as `parse_tuning_body` does.
pub fn decode_tuning_body(buf: &[u8], pos: usize, end: usize) -> (r: Option<
    (TuningParameter, usize),
>)
    requires
        end <= buf@.len(),
    ensures
        match r {
            Some((m, p)) => parse_tuning_body(buf@, pos as int, end as int) == Some(m@) && p
                == end,
            None => parse_tuning_body(buf@, pos as int, end as int) is None,
        },
{
    let (key, p1) = match decode_str_field(buf, pos, end, 1) {
        Some(x) => x,
        None => { return None; },
    };
    let (value, p2) = match decode_double_field(buf, p1, end, 2) {
        Some(x) => x,
        None => { return None; },
    };
    if p2 == end {
        Some((TuningParameter { key, value }, p2))
    } else {
        None
    }
}

/// The encoded body of a build fingerprint.
pub open spec fn enc_fingerprint_body(v: BuildFingerprintV) -> Seq<u8> {
    str_field(1, v.binary_sha256) + str_field(2, v.target_triple) + str_field(3, v.profile)
        + str_field(4, v.git_commit)
}

/// Size bounds for a build fingerprint body.
pub open spec fn fingerprint_wf(v: BuildFingerprintV) -> bool {
    &&& vstd::utf8::encode_utf8(v.binary_sha256).len() <= u64::MAX
    &&& vstd::utf8::encode_utf8(v.target_triple).len() <= u64::MAX
    &&& vstd::utf8::encode_utf8(v.profile).len() <= u64::MAX
    &&& vstd::utf8::encode_utf8(v.git_commit).len() <= u64::MAX
}

/// Parse a build fingerprint body occupying exactly [pos, end).
pub open spec fn parse_fingerprint_body(bytes: Seq<u8>, pos: int, end: int) -> Option<
    BuildFingerprintV,
> {
    match parse_str_field(bytes, pos, end, 1) {
        None => None,
        Some((sha, p1)) => match parse_str_field(bytes, p1, end, 2) {
            None => None,
            Some((triple, p2)) => match parse_str_field(bytes, p2, end, 3) {
                None => None,
                Some((profile, p3)) => match parse_str_field(bytes, p3, end, 4) {
                    None => None,
                    Some((commit, p4)) => if p4 == end {
                        Some(
                            BuildFingerprintV {
                                binary_sha256: sha,
                                target_triple: triple,
                                profile,
                                git_commit: commit,
                            },
                        )
                    } else {
                        None
                    },
                },
            },
        },
    }
}

/// Parsing an encoded build fingerprint body yields it back.
pub proof fn lemma_parse_fingerprint_body(bytes: Seq<u8>, pos: int, v: BuildFingerprintV)
    requires
        0 <= pos,
        fingerprint_wf(v),
        pos + enc_fingerprint_body(v).len() <= bytes.len(),
        bytes.subrange(pos, pos + enc_fingerprint_body(v).len() as int) == enc_fingerprint_body(
            v,
        ),
    ensures
        parse_fingerprint_body(bytes, pos, pos + enc_fingerprint_body(v).len()) == Some(v),
{
    let s1 = str_field(1, v.binary_sha256);
    let s2 = str_field(2, v.target_triple);
    let s3 = str_field(3, v.profile);
    let s4 = str_field(4, v.git_commit);
    let end = pos + enc_fingerprint_body(v).len();
    assert(enc_fingerprint_body(v) =~= s1 + (s2 + (s3 + s4)));
    lemma_subrange_of_concat(bytes, pos, s1, s2 + (s3 + s4));
    lemma_subrange_of_concat(bytes, pos + s1.len(), s2, s3 + s4);
    lemma_subrange_of_concat(bytes, pos + s1.len() + s2.len(), s3, s4);
    lemma_parse_str_field(bytes, pos, end, 1, v.binary_sha256);
    lemma_parse_str_field(bytes, pos + s1.len(), end, 2, v.target_triple);
    lemma_parse_str_field(bytes, pos + s1.len() + s2.len(), end, 3, v.profile);
    lemma_parse_str_field(bytes, pos + s1.len() + s2.len() + s3.len(), end, 4, v.git_commit);
}

/// Append the encoded body of a build fingerprint.
pub fn encode_fingerprint_body(out: &mut Vec<u8>, m: &BuildFingerprint)
    ensures
        final(out)@ == old(out)@ + enc_fingerprint_body(m@),
{
    encode_str_field(out, 1, &m.binary_sha256);
    encode_str_field(out, 2, &m.target_triple);
    encode_str_field(out, 3, &m.profile);
    encode_str_field(out, 4, &m.git_commit);
    assert(final(out)@ =~= old(out)@ + enc_fingerprint_body(m@));
}

/// Parse a build fingerprint body, exactly as `parse_fingerprint_body`.
pub fn decode_fingerprint_body(buf: &[u8], pos: usize, end: usize) -> (r: Option<
    (BuildFingerprint, usize),
>)
    requires
        end <= buf@.len(),
    ensures
        match r {
            Some((m, p)) => parse_fingerprint_body(buf@, pos as int, end as int) == Some(m@)
                && p == end,
            None => parse_fingerprint_body(buf@, pos as int, end as int) is None,
        },
{
    let (sha, p1) = match decode_str_field(buf, pos, end, 1) {
        Some(x) => x,
        None => { return None; },
    };
    let (triple, p2) = match decode_str_field(buf, p1, end, 2) {
        Some(x) => x,
        None => { return None; },
    };
    let (profile, p3) = match decode_str_field(buf, p2, end, 3) {
        Some(x) => x,
        None => { return None; },
    };
    let (commit, p4) = match decode_str_field(buf, p3, end, 4) {
        Some(x) => x,
        None => { return None; },
    };
    if p4 == end {
        Some(
            (
                BuildFingerprint {
                    binary_sha256: sha,
                    target_triple: triple,
                    profile,
                    git_commit: commit,
                },
                p4,
            ),
        )
    } else {
        None
    }
}


/// All mapping bodies of a repeated field are size-bounded.
pub open spec fn mappings_wf(s: Seq<PlayerEntityMapping>) -> bool {
    forall|i: int|
        0 <= i < s.len() ==> true && enc_mapping_body(#[trigger] s[i]).len() <= u64::MAX
}

/// A repeated mapping field: one length-delimited element each.
pub open spec fn rep_mapping_fields(tag: u64, s: Seq<PlayerEntityMapping>) -> Seq<u8>
    decreases s.len(),
{
    if s.len() == 0 {
        Seq::empty()
    } else {
        enc_len_header(tag, enc_mapping_body(s[0]).len() as u64) + enc_mapping_body(s[0]) + rep_mapping_fields(
            tag,
            s.subrange(1, s.len() as int),
        )
    }
}

/// Parse consecutive mapping elements with the given tag.
pub open spec fn parse_rep_mappings(bytes: Seq<u8>, pos: int, end: int, tag: u64) -> Option<
    (Seq<PlayerEntityMapping>, int),
>
    decreases end - pos,
{
    if !starts_with_key(bytes, pos, end, tag, 2) {
        Some((Seq::empty(), pos))
    } else {
        match parse_len_header(bytes, pos, end, tag) {
            None => None,
            Some((a, b)) => if b <= pos {
                None
            } else {
                match parse_mapping_body(bytes, a, b) {
                    None => None,
                    Some(e) => match parse_rep_mappings(bytes, b, end, tag) {
                        None => None,
                        Some((rest, p)) => Some((seq![e] + rest, p)),
                    },
                }
            },
        }
    }
}

/// Parsing an encoded repeated mapping field yields the elements, as long
/// as what follows does not begin with the same key.
pub proof fn lemma_parse_rep_mappings(bytes: Seq<u8>, pos: int, end: int, tag: u64, s: Seq<PlayerEntityMapping>)
    requires
        0 <= pos,
        mappings_wf(s),
        pos + rep_mapping_fields(tag, s).len() <= end <= bytes.len(),
        bytes.subrange(pos, pos + rep_mapping_fields(tag, s).len() as int) == rep_mapping_fields(
            tag,
            s,
        ),
        !starts_with_key(bytes, pos + rep_mapping_fields(tag, s).len(), end, tag, 2),
    ensures
        parse_rep_mappings(bytes, pos, end, tag) == Some(
            (s, pos + rep_mapping_fields(tag, s).len()),
        ),
    decreases s.len(),
{
    if s.len() == 0 {
        assert(s =~= Seq::<PlayerEntityMapping>::empty());
    } else {
        let body = enc_mapping_body(s[0]);
        let hdr = enc_len_header(tag, body.len() as u64);
        let rest = rep_mapping_fields(tag, s.subrange(1, s.len() as int));
        assert(rep_mapping_fields(tag, s) =~= hdr + (body + rest));
        lemma_subrange_of_concat(bytes, pos, hdr, body + rest);
        lemma_subrange_of_concat(bytes, pos + hdr.len(), body, rest);
        lemma_parse_len_header(bytes, pos, end, tag, body.len() as u64);
        lemma_parse_mapping_body(bytes, pos + hdr.len(), s[0]);
        lemma_parse_rep_mappings(
            bytes,
            pos + hdr.len() + body.len(),
            end,
            tag,
            s.subrange(1, s.len() as int),
        );
        assert(seq![s[0]] + s.subrange(1, s.len() as int) =~= s);
    }
}

/// One more mapping element appends its header and body.
pub proof fn lemma_rep_mapping_fields_snoc(tag: u64, s: Seq<PlayerEntityMapping>, v: PlayerEntityMapping)
    ensures
        rep_mapping_fields(tag, s.push(v)) == rep_mapping_fields(tag, s) + (enc_len_header(
            tag,
            enc_mapping_body(v).len() as u64,
        ) + enc_mapping_body(v)),
    decreases s.len(),
{
    let elem = enc_len_header(tag, enc_mapping_body(v).len() as u64) + enc_mapping_body(v);
    if s.len() == 0 {
        assert(s.push(v)[0] == v);
        assert(s.push(v).subrange(1, 1) =~= Seq::<PlayerEntityMapping>::empty());
        assert(rep_mapping_fields(tag, s.push(v).subrange(1, 1)) =~= Seq::<u8>::empty());
        assert(rep_mapping_fields(tag, s.push(v)) =~= elem);
        assert(rep_mapping_fields(tag, s) + elem =~= elem);
    } else {
        assert(s.push(v)[0] == s[0]);
        assert(s.push(v).subrange(1, s.len() as int + 1) =~= s.subrange(
            1,
            s.len() as int,
        ).push(v));
        lemma_rep_mapping_fields_snoc(tag, s.subrange(1, s.len() as int), v);
        let head = enc_len_header(tag, enc_mapping_body(s[0]).len() as u64) + enc_mapping_body(s[0]);
        assert(head + (rep_mapping_fields(tag, s.subrange(1, s.len() as int)) + elem) =~= (head
            + rep_mapping_fields(tag, s.subrange(1, s.len() as int))) + elem);
    }
}

/// Append a repeated mapping field.
pub fn encode_rep_mappings(out: &mut Vec<u8>, tag: u64, elems: &Vec<PlayerEntityMapping>)
    requires
        1 <= tag * 8 + 2 < 16384,
        mappings_wf(elems@),
    ensures
        final(out)@ == old(out)@ + rep_mapping_fields(tag, elems@),
{
    let ghost views = elems@;
    let n = elems.len();
    for i in 0..n
        invariant
            n == elems@.len(),
            views == elems@,
            mappings_wf(views),
            1 <= tag * 8 + 2 < 16384,
            out@ == old(out)@ + rep_mapping_fields(tag, views.subrange(0, i as int)),
    {
        proof {
            assert(views[i as int] == elems@[i as int]);
        }
        let mut body: Vec<u8> = Vec::new();
        encode_mapping_body(&mut body, &elems[i]);
        encode_len_header(out, tag, body.len() as u64);
        push_bytes(out, body.as_slice());
        proof {
            lemma_rep_mapping_fields_snoc(tag, views.subrange(0, i as int), views[i as int]);
            assert(views.subrange(0, i as int).push(views[i as int]) =~= views.subrange(
                0,
                i + 1,
            ));
            assert(out@ =~= old(out)@ + rep_mapping_fields(tag, views.subrange(0, i + 1)));
        }
    }
    proof {
        assert(views.subrange(0, n as int) =~= views);
    }
}

/// Parse a repeated mapping field, exactly as `parse_rep_mappings` does.
pub fn decode_rep_mappings(buf: &[u8], pos: usize, end: usize, tag: u64) -> (r: Option<
    (Vec<PlayerEntityMapping>, usize),
>)
    requires
        end <= buf@.len(),
        1 <= tag * 8 + 2 < 16384,
    ensures
        match r {
            Some((es, p)) => parse_rep_mappings(buf@, pos as int, end as int, tag) == Some(
                (es@, p as int),
            ),
            None => parse_rep_mappings(buf@, pos as int, end as int, tag) is None,
        },
{
    let mut acc: Vec<PlayerEntityMapping> = Vec::new();
    let mut cur = pos;
    loop
        invariant
            end <= buf@.len(),
            1 <= tag * 8 + 2 < 16384,
            parse_rep_mappings(buf@, pos as int, end as int, tag) == (match parse_rep_mappings(
                buf@,
                cur as int,
                end as int,
                tag,
            ) {
                Some((rest, p)) => Some((acc@ + rest, p)),
                None => None,
            }),
        decreases end - cur + 1,
    {
        match eat_key(buf, cur, end, tag, 2) {
            None => {
                proof {
                    assert(acc@ + Seq::<PlayerEntityMapping>::empty() =~= acc@);
                }
                return Some((acc, cur));
            },
            Some(_) => {
                let (a, b) = match decode_len_header(buf, cur, end, tag) {
                    Some(x) => x,
                    None => { return None; },
                };
                if b <= cur {
                    return None;
                }
                let (e, _) = match decode_mapping_body(buf, a, b) {
                    Some(x) => x,
                    None => { return None; },
                };
                proof {
                    if parse_rep_mappings(buf@, b as int, end as int, tag) is Some {
                        let (rest, p) = parse_rep_mappings(buf@, b as int, end as int, tag).unwrap();
                        assert(acc@ + (seq![e] + rest) =~= acc@.push(e) + rest);
                    }
                }
                acc.push(e);
                cur = b;
            },
        }
    }
}

/// All tuning bodies of a repeated field are size-bounded.
pub open spec fn tunings_wf(s: Seq<TuningParameterV>) -> bool {
    forall|i: int|
        0 <= i < s.len() ==> tuning_wf(s[i]) && enc_tuning_body(#[trigger] s[i]).len() <= u64::MAX
}

/// A repeated tuning field: one length-delimited element each.
pub open spec fn rep_tuning_fields(tag: u64, s: Seq<TuningParameterV>) -> Seq<u8>
    decreases s.len(),
{
    if s.len() == 0 {
        Seq::empty()
    } else {
        enc_len_header(tag, enc_tuning_body(s[0]).len() as u64) + enc_tuning_body(s[0]) + rep_tuning_fields(
            tag,
            s.subrange(1, s.len() as int),
        )
    }
}

/// Parse consecutive tuning elements with the given tag.
pub open spec fn parse_rep_tunings(bytes: Seq<u8>, pos: int, end: int, tag: u64) -> Option<
    (Seq<TuningParameterV>, int),
>
    decreases end - pos,
{
    if !starts_with_key(bytes, pos, end, tag, 2) {
        Some((Seq::empty(), pos))
    } else {
        match parse_len_header(bytes, pos, end, tag) {
            None => None,
            Some((a, b)) => if b <= pos {
                None
            } else {
                match parse_tuning_body(bytes, a, b) {
                    None => None,
                    Some(e) => match parse_rep_tunings(bytes, b, end, tag) {
                        None => None,
                        Some((rest, p)) => Some((seq![e] + rest, p)),
                    },
                }
            },
        }
    }
}

/// Parsing an encoded repeated tuning field yields the elements, as long
/// as what follows does not begin with the same key.
pub proof fn lemma_parse_rep_tunings(bytes: Seq<u8>, pos: int, end: int, tag: u64, s: Seq<TuningParameterV>)
    requires
        0 <= pos,
        tunings_wf(s),
        pos + rep_tuning_fields(tag, s).len() <= end <= bytes.len(),
        bytes.subrange(pos, pos + rep_tuning_fields(tag, s).len() as int) == rep_tuning_fields(
            tag,
            s,
        ),
        !starts_with_key(bytes, pos + rep_tuning_fields(tag, s).len(), end, tag, 2),
    ensures
        parse_rep_tunings(bytes, pos, end, tag) == Some(
            (s, pos + rep_tuning_fields(tag, s).len()),
        ),
    decreases s.len(),
{
    if s.len() == 0 {
        assert(s =~= Seq::<TuningParameterV>::empty());
    } else {
        let body = enc_tuning_body(s[0]);
        let hdr = enc_len_header(tag, body.len() as u64);
        let rest = rep_tuning_fields(tag, s.subrange(1, s.len() as int));
        assert(rep_tuning_fields(tag, s) =~= hdr + (body + rest));
        lemma_subrange_of_concat(bytes, pos, hdr, body + rest);
        lemma_subrange_of_concat(bytes, pos + hdr.len(), body, rest);
        lemma_parse_len_header(bytes, pos, end, tag, body.len() as u64);
        lemma_parse_tuning_body(bytes, pos + hdr.len(), s[0]);
        lemma_parse_rep_tunings(
            bytes,
            pos + hdr.len() + body.len(),
            end,
            tag,
            s.subrange(1, s.len() as int),
        );
        assert(seq![s[0]] + s.subrange(1, s.len() as int) =~= s);
    }
}

/// One more tuning element appends its header and body.
pub proof fn lemma_rep_tuning_fields_snoc(tag: u64, s: Seq<TuningParameterV>, v: TuningParameterV)
    ensures
        rep_tuning_fields(tag, s.push(v)) == rep_tuning_fields(tag, s) + (enc_len_header(
            tag,
            enc_tuning_body(v).len() as u64,
        ) + enc_tuning_body(v)),
    decreases s.len(),
{
    let elem = enc_len_header(tag, enc_tuning_body(v).len() as u64) + enc_tuning_body(v);
    if s.len() == 0 {
        assert(s.push(v)[0] == v);
        assert(s.push(v).subrange(1, 1) =~= Seq::<TuningParameterV>::empty());
        assert(rep_tuning_fields(tag, s.push(v).subrange(1, 1)) =~= Seq::<u8>::empty());
        assert(rep_tuning_fields(tag, s.push(v)) =~= elem);
        assert(rep_tuning_fields(tag, s) + elem =~= elem);
    } else {
        assert(s.push(v)[0] == s[0]);
        assert(s.push(v).subrange(1, s.len() as int + 1) =~= s.subrange(
            1,
            s.len() as int,
        ).push(v));
        lemma_rep_tuning_fields_snoc(tag, s.subrange(1, s.len() as int), v);
        let head = enc_len_header(tag, enc_tuning_body(s[0]).len() as u64) + enc_tuning_body(s[0]);
        assert(head + (rep_tuning_fields(tag, s.subrange(1, s.len() as int)) + elem) =~= (head
            + rep_tuning_fields(tag, s.subrange(1, s.len() as int))) + elem);
    }
}

/// Append a repeated tuning field.
pub fn encode_rep_tunings(out: &mut Vec<u8>, tag: u64, elems: &Vec<TuningParameter>)
    requires
        1 <= tag * 8 + 2 < 16384,
        tunings_wf(elems@.map_values(|e: TuningParameter| e@)),
    ensures
        final(out)@ == old(out)@ + rep_tuning_fields(tag, elems@.map_values(|e: TuningParameter| e@)),
{
    let ghost views = elems@.map_values(|e: TuningParameter| e@);
    let n = elems.len();
    for i in 0..n
        invariant
            n == elems@.len(),
            views == elems@.map_values(|e: TuningParameter| e@),
            tunings_wf(views),
            1 <= tag * 8 + 2 < 16384,
            out@ == old(out)@ + rep_tuning_fields(tag, views.subrange(0, i as int)),
    {
        proof {
            assert(views[i as int] == elems@[i as int]@);
        }
        let mut body: Vec<u8> = Vec::new();
        encode_tuning_body(&mut body, &elems[i]);
        encode_len_header(out, tag, body.len() as u64);
        push_bytes(out, body.as_slice());
        proof {
            lemma_rep_tuning_fields_snoc(tag, views.subrange(0, i as int), views[i as int]);
            assert(views.subrange(0, i as int).push(views[i as int]) =~= views.subrange(
                0,
                i + 1,
            ));
            assert(out@ =~= old(out)@ + rep_tuning_fields(tag, views.subrange(0, i + 1)));
        }
    }
    proof {
        assert(views.subrange(0, n as int) =~= views);
    }
}

/// Parse a repeated tuning field, exactly as `parse_rep_tunings` does.
pub fn decode_rep_tunings(buf: &[u8], pos: usize, end: usize, tag: u64) -> (r: Option<
    (Vec<TuningParameter>, usize),
>)
    requires
        end <= buf@.len(),
        1 <= tag * 8 + 2 < 16384,
    ensures
        match r {
            Some((es, p)) => parse_rep_tunings(buf@, pos as int, end as int, tag) == Some(
                (es@.map_values(|e: TuningParameter| e@), p as int),
            ),
            None => parse_rep_tunings(buf@, pos as int, end as int, tag) is None,
        },
{
    let mut acc: Vec<TuningParameter> = Vec::new();
    let mut cur = pos;
    loop
        invariant
            end <= buf@.len(),
            1 <= tag * 8 + 2 < 16384,
            parse_rep_tunings(buf@, pos as int, end as int, tag) == (match parse_rep_tunings(
                buf@,
                cur as int,
                end as int,
                tag,
            ) {
                Some((rest, p)) => Some((acc@.map_values(|e: TuningParameter| e@) + rest, p)),
                None => None,
            }),
        decreases end - cur + 1,
    {
        match eat_key(buf, cur, end, tag, 2) {
            None => {
                proof {
                    assert(acc@.map_values(|e: TuningParameter| e@) + Seq::<TuningParameterV>::empty() =~= acc@.map_values(|e: TuningParameter| e@));
                }
                return Some((acc, cur));
            },
            Some(_) => {
                let (a, b) = match decode_len_header(buf, cur, end, tag) {
                    Some(x) => x,
                    None => { return None; },
                };
                if b <= cur {
                    return None;
                }
                let (e, _) = match decode_tuning_body(buf, a, b) {
                    Some(x) => x,
                    None => { return None; },
                };
                proof {
                    if parse_rep_tunings(buf@, b as int, end as int, tag) is Some {
                        let (rest, p) = parse_rep_tunings(buf@, b as int, end as int, tag).unwrap();
                        assert(acc@.map_values(|x: TuningParameter| x@) + (seq![e@] + rest)
                            =~= acc@.push(e).map_values(|x: TuningParameter| x@) + rest);
                    }
                }
                acc.push(e);
                cur = b;
            },
        }
    }
}

/// All input bodies of a repeated field are size-bounded.
pub open spec fn inputs_wf(s: Seq<AppliedInputProtoV>) -> bool {
    forall|i: int|
        0 <= i < s.len() ==> applied_input_wf(s[i]) && enc_applied_input_body(#[trigger] s[i]).len() <= u64::MAX
}

/// A repeated input field: one length-delimited element each.
pub open spec fn rep_input_fields(tag: u64, s: Seq<AppliedInputProtoV>) -> Seq<u8>
    decreases s.len(),
{
    if s.len() == 0 {
        Seq::empty()
    } else {
        enc_len_header(tag, enc_applied_input_body(s[0]).len() as u64) + enc_applied_input_body(s[0]) + rep_input_fields(
            tag,
            s.subrange(1, s.len() as int),
        )
    }
}

/// Parse consecutive input elements with the given tag.
pub open spec fn parse_rep_inputs(bytes: Seq<u8>, pos: int, end: int, tag: u64) -> Option<
    (Seq<AppliedInputProtoV>, int),
>
    decreases end - pos,
{
    if !starts_with_key(bytes, pos, end, tag, 2) {
        Some((Seq::empty(), pos))
    } else {
        match parse_len_header(bytes, pos, end, tag) {
            None => None,
            Some((a, b)) => if b <= pos {
                None
            } else {
                match parse_applied_input_body(bytes, a, b) {
                    None => None,
                    Some(e) => match parse_rep_inputs(bytes, b, end, tag) {
                        None => None,
                        Some((rest, p)) => Some((seq![e] + rest, p)),
                    },
                }
            },
        }
    }
}

/// Parsing an encoded repeated input field yields the elements, as long
/// as what follows does not begin with the same key.
pub proof fn lemma_parse_rep_inputs(bytes: Seq<u8>, pos: int, end: int, tag: u64, s: Seq<AppliedInputProtoV>)
    requires
        0 <= pos,
        inputs_wf(s),
        pos + rep_input_fields(tag, s).len() <= end <= bytes.len(),
        bytes.subrange(pos, pos + rep_input_fields(tag, s).len() as int) == rep_input_fields(
            tag,
            s,
        ),
        !starts_with_key(bytes, pos + rep_input_fields(tag, s).len(), end, tag, 2),
    ensures
        parse_rep_inputs(bytes, pos, end, tag) == Some(
            (s, pos + rep_input_fields(tag, s).len()),
        ),
    decreases s.len(),
{
    if s.len() == 0 {
        assert(s =~= Seq::<AppliedInputProtoV>::empty());
    } else {
        let body = enc_applied_input_body(s[0]);
        let hdr = enc_len_header(tag, body.len() as u64);
        let rest = rep_input_fields(tag, s.subrange(1, s.len() as int));
        assert(rep_input_fields(tag, s) =~= hdr + (body + rest));
        lemma_subrange_of_concat(bytes, pos, hdr, body + rest);
        lemma_subrange_of_concat(bytes, pos + hdr.len(), body, rest);
        lemma_parse_len_header(bytes, pos, end, tag, body.len() as u64);
        lemma_parse_applied_input_body(bytes, pos + hdr.len(), s[0]);
        lemma_parse_rep_inputs(
            bytes,
            pos + hdr.len() + body.len(),
            end,
            tag,
            s.subrange(1, s.len() as int),
        );
        assert(seq![s[0]] + s.subrange(1, s.len() as int) =~= s);
    }
}

/// One more input element appends its header and body.
pub proof fn lemma_rep_input_fields_snoc(tag: u64, s: Seq<AppliedInputProtoV>, v: AppliedInputProtoV)
    ensures
        rep_input_fields(tag, s.push(v)) == rep_input_fields(tag, s) + (enc_len_header(
            tag,
            enc_applied_input_body(v).len() as u64,
        ) + enc_applied_input_body(v)),
    decreases s.len(),
{
    let elem = enc_len_header(tag, enc_applied_input_body(v).len() as u64) + enc_applied_input_body(v);
    if s.len() == 0 {
        assert(s.push(v)[0] == v);
        assert(s.push(v).subrange(1, 1) =~= Seq::<AppliedInputProtoV>::empty());
        assert(rep_input_fields(tag, s.push(v).subrange(1, 1)) =~= Seq::<u8>::empty());
        assert(rep_input_fields(tag, s.push(v)) =~= elem);
        assert(rep_input_fields(tag, s) + elem =~= elem);
    } else {
        assert(s.push(v)[0] == s[0]);
        assert(s.push(v).subrange(1, s.len() as int + 1) =~= s.subrange(
            1,
            s.len() as int,
        ).push(v));
        lemma_rep_input_fields_snoc(tag, s.subrange(1, s.len() as int), v);
        let head = enc_len_header(tag, enc_applied_input_body(s[0]).len() as u64) + enc_applied_input_body(s[0]);
        assert(head + (rep_input_fields(tag, s.subrange(1, s.len() as int)) + elem) =~= (head
            + rep_input_fields(tag, s.subrange(1, s.len() as int))) + elem);
    }
}

/// Append a repeated input field.
pub fn encode_rep_inputs(out: &mut Vec<u8>, tag: u64, elems: &Vec<AppliedInputProto>)
    requires
        1 <= tag * 8 + 2 < 16384,
        inputs_wf(elems@.map_values(|e: AppliedInputProto| e@)),
    ensures
        final(out)@ == old(out)@ + rep_input_fields(tag, elems@.map_values(|e: AppliedInputProto| e@)),
{
    let ghost views = elems@.map_values(|e: AppliedInputProto| e@);
    let n = elems.len();
    for i in 0..n
        invariant
            n == elems@.len(),
            views == elems@.map_values(|e: AppliedInputProto| e@),
            inputs_wf(views),
            1 <= tag * 8 + 2 < 16384,
            out@ == old(out)@ + rep_input_fields(tag, views.subrange(0, i as int)),
    {
        proof {
            assert(views[i as int] == elems@[i as int]@);
        }
        let mut body: Vec<u8> = Vec::new();
        encode_applied_input_body(&mut body, &elems[i]);
        encode_len_header(out, tag, body.len() as u64);
        push_bytes(out, body.as_slice());
        proof {
            lemma_rep_input_fields_snoc(tag, views.subrange(0, i as int), views[i as int]);
            assert(views.subrange(0, i as int).push(views[i as int]) =~= views.subrange(
                0,
                i + 1,
            ));
            assert(out@ =~= old(out)@ + rep_input_fields(tag, views.subrange(0, i + 1)));
        }
    }
    proof {
        assert(views.subrange(0, n as int) =~= views);
    }
}

/// Parse a repeated input field, exactly as `parse_rep_inputs` does.
pub fn decode_rep_inputs(buf: &[u8], pos: usize, end: usize, tag: u64) -> (r: Option<
    (Vec<AppliedInputProto>, usize),
>)
    requires
        end <= buf@.len(),
        1 <= tag * 8 + 2 < 16384,
    ensures
        match r {
            Some((es, p)) => parse_rep_inputs(buf@, pos as int, end as int, tag) == Some(
                (es@.map_values(|e: AppliedInputProto| e@), p as int),
            ),
            None => parse_rep_inputs(buf@, pos as int, end as int, tag) is None,
        },
{
    let mut acc: Vec<AppliedInputProto> = Vec::new();
    let mut cur = pos;
    loop
        invariant
            end <= buf@.len(),
            1 <= tag * 8 + 2 < 16384,
            parse_rep_inputs(buf@, pos as int, end as int, tag) == (match parse_rep_inputs(
                buf@,
                cur as int,
                end as int,
                tag,
            ) {
                Some((rest, p)) => Some((acc@.map_values(|e: AppliedInputProto| e@) + rest, p)),
                None => None,
            }),
        decreases end - cur + 1,
    {
        match eat_key(buf, cur, end, tag, 2) {
            None => {
                proof {
                    assert(acc@.map_values(|e: AppliedInputProto| e@) + Seq::<AppliedInputProtoV>::empty() =~= acc@.map_values(|e: AppliedInputProto| e@));
                }
                return Some((acc, cur));
            },
            Some(_) => {
                let (a, b) = match decode_len_header(buf, cur, end, tag) {
                    Some(x) => x,
                    None => { return None; },
                };
                if b <= cur {
                    return None;
                }
                let (e, _) = match decode_applied_input_body(buf, a, b) {
                    Some(x) => x,
                    None => { return None; },
                };
                proof {
                    if parse_rep_inputs(buf@, b as int, end as int, tag) is Some {
                        let (rest, p) = parse_rep_inputs(buf@, b as int, end as int, tag).unwrap();
                        assert(acc@.map_values(|x: AppliedInputProto| x@) + (seq![e@] + rest)
                            =~= acc@.push(e).map_values(|x: AppliedInputProto| x@) + rest);
                    }
                }
                acc.push(e);
                cur = b;
            },
        }
    }
}




/// An optional baseline field (tag 2): present exactly when `Some`.
pub open spec fn opt_baseline_field(o: Option<JoinBaselineV>) -> Seq<u8> {
    match o {
        None => Seq::empty(),
        Some(b) => enc_len_header(2, enc_join_baseline(b).len() as u64) + enc_join_baseline(b),
    }
}

/// Parse an optional baseline field at `pos`.
pub open spec fn parse_opt_baseline(bytes: Seq<u8>, pos: int, end: int) -> Option<
    (Option<JoinBaselineV>, int),
> {
    if !starts_with_key(bytes, pos, end, 2, 2) {
        Some((None, pos))
    } else {
        match parse_len_header(bytes, pos, end, 2) {
            None => None,
            Some((a, b)) => match parse_join_baseline(bytes, a, b) {
                None => None,
                Some(v) => Some((Some(v), b)),
            },
        }
    }
}

/// An optional fingerprint field (tag 11): present exactly when `Some`.
pub open spec fn opt_fingerprint_field(o: Option<BuildFingerprintV>) -> Seq<u8> {
    match o {
        None => Seq::empty(),
        Some(f) => enc_len_header(11, enc_fingerprint_body(f).len() as u64)
            + enc_fingerprint_body(f),
    }
}

/// Parse an optional fingerprint field at `pos`.
pub open spec fn parse_opt_fingerprint(bytes: Seq<u8>, pos: int, end: int) -> Option<
    (Option<BuildFingerprintV>, int),
> {
    if !starts_with_key(bytes, pos, end, 11, 2) {
        Some((None, pos))
    } else {
        match parse_len_header(bytes, pos, end, 11) {
            None => None,
            Some((a, b)) => match parse_fingerprint_body(bytes, a, b) {
                None => None,
                Some(v) => Some((Some(v), b)),
            },
        }
    }
}

/// A packed repeated u32 field: header, then the varints of the values.
pub open spec fn packed_u32_field(tag: u64, vals: Seq<u32>) -> Seq<u8> {
    enc_len_header(tag, packed_varints(vals).len() as u64) + packed_varints(vals)
}

/// Parse a packed repeated u32 field with the given tag.
pub open spec fn parse_packed_u32_field(bytes: Seq<u8>, pos: int, end: int, tag: u64) -> Option<
    (Seq<u32>, int),
> {
    match parse_len_header(bytes, pos, end, tag) {
        None => None,
        Some((a, b)) => match parse_packed_varints(bytes, a, b) {
            None => None,
            Some((vals, _)) => Some((vals, b)),
        },
    }
}

/// Parsing an encoded packed u32 field yields the values back.
pub proof fn lemma_parse_packed_u32_field(
    bytes: Seq<u8>,
    pos: int,
    end: int,
    tag: u64,
    vals: Seq<u32>,
)
    requires
        0 <= pos,
        packed_varints(vals).len() <= u64::MAX,
        pos + packed_u32_field(tag, vals).len() <= end <= bytes.len(),
        bytes.subrange(pos, pos + packed_u32_field(tag, vals).len() as int) == packed_u32_field(
            tag,
            vals,
        ),
    ensures
        parse_packed_u32_field(bytes, pos, end, tag) == Some(
            (vals, pos + packed_u32_field(tag, vals).len()),
        ),
{
    let hdr = enc_len_header(tag, packed_varints(vals).len() as u64);
    lemma_subrange_of_concat(bytes, pos, hdr, packed_varints(vals));
    lemma_parse_len_header(bytes, pos, end, tag, packed_varints(vals).len() as u64);
    lemma_parse_packed_varints(bytes, pos + hdr.len(), vals);
}

/// Append a packed repeated u32 field.
pub fn encode_packed_u32_field(out: &mut Vec<u8>, tag: u64, vals: &Vec<u32>)
    requires
        1 <= tag * 8 + 2 < 16384,
    ensures
        final(out)@ == old(out)@ + packed_u32_field(tag, vals@),
{
    let mut tmp: Vec<u8> = Vec::new();
    encode_packed_varints(&mut tmp, vals);
    encode_len_header(out, tag, tmp.len() as u64);
    push_bytes(out, tmp.as_slice());
    assert(final(out)@ =~= old(out)@ + packed_u32_field(tag, vals@));
}

/// Parse a packed u32 field, exactly as `parse_packed_u32_field` does.
pub fn decode_packed_u32_field(buf: &[u8], pos: usize, end: usize, tag: u64) -> (r: Option<
    (Vec<u32>, usize),
>)
    requires
        end <= buf@.len(),
        1 <= tag * 8 + 2 < 16384,
    ensures
        match r {
            Some((vals, p)) => parse_packed_u32_field(buf@, pos as int, end as int, tag)
                == Some((vals@, p as int)),
            None => parse_packed_u32_field(buf@, pos as int, end as int, tag) is None,
        },
{
    let (a, b) = match decode_len_header(buf, pos, end, tag) {
        Some(x) => x,
        None => { return None; },
    };
    match decode_packed_varints(buf, a, b) {
        Some((vals, _)) => Some((vals, b)),
        None => None,
    }
}

/// View of a replay artifact.
pub struct ReplayArtifactV {
    pub replay_format_version: u32,
    pub initial_baseline: Option<JoinBaselineV>,
    pub seed: u64,
    pub rng_algorithm: Seq<char>,
    pub tick_rate_hz: u32,
    pub state_digest_algo_id: Seq<char>,
    pub entity_spawn_order: Seq<u32>,
    pub player_entity_mapping: Seq<PlayerEntityMapping>,
    pub tuning_parameters: Seq<TuningParameterV>,
    pub inputs: Seq<AppliedInputProtoV>,
    pub build_fingerprint: Option<BuildFingerprintV>,
    pub final_digest: u64,
    pub checkpoint_tick: u64,
    pub end_reason: Seq<char>,
    pub test_mode: bool,
    pub test_player_ids: Seq<u32>,
}

impl View for ReplayArtifact {
    type V = ReplayArtifactV;

    open spec fn view(&self) -> ReplayArtifactV {
        ReplayArtifactV {
            replay_format_version: self.replay_format_version,
            initial_baseline: match self.initial_baseline {
                Some(b) => Some(b@),
                None => None,
            },
            seed: self.seed,
            rng_algorithm: self.rng_algorithm@,
            tick_rate_hz: self.tick_rate_hz,
            state_digest_algo_id: self.state_digest_algo_id@,
            entity_spawn_order: self.entity_spawn_order@,
            player_entity_mapping: self.player_entity_mapping@,
            tuning_parameters: self.tuning_parameters@.map_values(|t: TuningParameter| t@),
            inputs: self.inputs@.map_values(|i: AppliedInputProto| i@),
            build_fingerprint: match self.build_fingerprint {
                Some(f) => Some(f@),
                None => None,
            },
            final_digest: self.final_digest,
            checkpoint_tick: self.checkpoint_tick,
            end_reason: self.end_reason@,
            test_mode: self.test_mode,
            test_player_ids: self.test_player_ids@,
        }
    }
}

/// Size bounds under which a replay artifact encodes within 64-bit
/// lengths (machine limits; every artifact a program builds meets them).
pub open spec fn artifact_wf(v: ReplayArtifactV) -> bool {
    &&& match v.initial_baseline {
        Some(b) => entities_wf(b.entities) && enc_join_baseline(b).len() <= u64::MAX,
        None => true,
    }
    &&& vstd::utf8::encode_utf8(v.rng_algorithm).len() <= u64::MAX
    &&& vstd::utf8::encode_utf8(v.state_digest_algo_id).len() <= u64::MAX
    &&& packed_varints(v.entity_spawn_order).len() <= u64::MAX
    &&& mappings_wf(v.player_entity_mapping)
    &&& tunings_wf(v.tuning_parameters)
    &&& inputs_wf(v.inputs)
    &&& match v.build_fingerprint {
        Some(f) => fingerprint_wf(f) && enc_fingerprint_body(f).len() <= u64::MAX,
        None => true,
    }
    &&& vstd::utf8::encode_utf8(v.end_reason).len() <= u64::MAX
    &&& packed_varints(v.test_player_ids).len() <= u64::MAX
}

/// The encoded bytes of the first artifact fields.
pub open spec fn enc_artifact_head_bytes(v: ReplayArtifactV) -> Seq<u8> {
    enc_u64_field(1, v.replay_format_version as u64) + opt_baseline_field(v.initial_baseline)
        + enc_u64_field(3, v.seed) + str_field(4, v.rng_algorithm) + enc_u64_field(
        5,
        v.tick_rate_hz as u64,
    ) + str_field(6, v.state_digest_algo_id) + packed_u32_field(7, v.entity_spawn_order)
}

/// The encoded bytes of the closing artifact fields.
pub open spec fn enc_artifact_close_bytes(v: ReplayArtifactV) -> Seq<u8> {
    enc_u64_field(12, v.final_digest) + enc_u64_field(13, v.checkpoint_tick) + str_field(
        14,
        v.end_reason,
    ) + enc_u64_field(15, if v.test_mode { 1u64 } else { 0u64 }) + packed_u32_field(
        16,
        v.test_player_ids,
    )
}

/// The encoded bytes of the remaining artifact fields.
pub open spec fn enc_artifact_tail_bytes(v: ReplayArtifactV) -> Seq<u8> {
    rep_mapping_fields(8, v.player_entity_mapping) + rep_tuning_fields(9, v.tuning_parameters)
        + rep_input_fields(10, v.inputs) + opt_fingerprint_field(v.build_fingerprint)
        + enc_artifact_close_bytes(v)
}

/// The encoded bytes of a replay artifact.
pub open spec fn enc_replay_artifact(v: ReplayArtifactV) -> Seq<u8> {
    enc_artifact_head_bytes(v) + enc_artifact_tail_bytes(v)
}

/// The first fields of a replay artifact (through the spawn order).
pub struct ArtifactHeadV {
    pub replay_format_version: u32,
    pub initial_baseline: Option<JoinBaselineV>,
    pub seed: u64,
    pub rng_algorithm: Seq<char>,
    pub tick_rate_hz: u32,
    pub state_digest_algo_id: Seq<char>,
    pub entity_spawn_order: Seq<u32>,
}

/// Parse the first artifact fields at `pos`.
pub open spec fn parse_artifact_head(bytes: Seq<u8>, pos: int, end: int) -> Option<
    (ArtifactHeadV, int),
> {
    match parse_u64_field(bytes, pos, end, 1) {
        None => None,
        Some((ver, p1)) => match parse_opt_baseline(bytes, p1, end) {
            None => None,
            Some((baseline, p2)) => match parse_u64_field(bytes, p2, end, 3) {
                None => None,
                Some((seed, p3)) => match parse_str_field(bytes, p3, end, 4) {
                    None => None,
                    Some((rng, p4)) => match parse_u64_field(bytes, p4, end, 5) {
                        None => None,
                        Some((rate, p5)) => match parse_str_field(bytes, p5, end, 6) {
                            None => None,
                            Some((algo, p6)) => match parse_packed_u32_field(
                                bytes,
                                p6,
                                end,
                                7,
                            ) {
                                None => None,
                                Some((spawn, p7)) => if ver <= u32::MAX && rate <= u32::MAX {
                                    Some(
                                        (
                                            ArtifactHeadV {
                                                replay_format_version: ver as u32,
                                                initial_baseline: baseline,
                                                seed,
                                                rng_algorithm: rng,
                                                tick_rate_hz: rate as u32,
                                                state_digest_algo_id: algo,
                                                entity_spawn_order: spawn,
                                            },
                                            p7,
                                        ),
                                    )
                                } else {
                                    None
                                },
                            },
                        },
                    },
                },
            },
        },
    }
}

/// The closing fields of a replay artifact (digest through test ids).
pub struct ArtifactCloseV {
    pub final_digest: u64,
    pub checkpoint_tick: u64,
    pub end_reason: Seq<char>,
    pub test_mode: bool,
    pub test_player_ids: Seq<u32>,
}

/// Parse the closing artifact fields, which must reach exactly `end`.
pub open spec fn parse_artifact_close(bytes: Seq<u8>, pos: int, end: int) -> Option<
    ArtifactCloseV,
> {
    match parse_u64_field(bytes, pos, end, 12) {
        None => None,
        Some((digest, p12)) => match parse_u64_field(bytes, p12, end, 13) {
            None => None,
            Some((checkpoint, p13)) => match parse_str_field(bytes, p13, end, 14) {
                None => None,
                Some((reason, p14)) => match parse_u64_field(bytes, p14, end, 15) {
                    None => None,
                    Some((tm, p15)) => match parse_packed_u32_field(bytes, p15, end, 16) {
                        None => None,
                        Some((tids, p16)) => if p16 == end {
                            Some(
                                ArtifactCloseV {
                                    final_digest: digest,
                                    checkpoint_tick: checkpoint,
                                    end_reason: reason,
                                    test_mode: tm != 0,
                                    test_player_ids: tids,
                                },
                            )
                        } else {
                            None
                        },
                    },
                },
            },
        },
    }
}

/// The remaining fields of a replay artifact (from the mappings on).
pub struct ArtifactTailV {
    pub player_entity_mapping: Seq<PlayerEntityMapping>,
    pub tuning_parameters: Seq<TuningParameterV>,
    pub inputs: Seq<AppliedInputProtoV>,
    pub build_fingerprint: Option<BuildFingerprintV>,
    pub final_digest: u64,
    pub checkpoint_tick: u64,
    pub end_reason: Seq<char>,
    pub test_mode: bool,
    pub test_player_ids: Seq<u32>,
}

/// Parse the remaining artifact fields, which must reach exactly `end`.
pub open spec fn parse_artifact_tail(bytes: Seq<u8>, pos: int, end: int) -> Option<
    ArtifactTailV,
> {
    match parse_rep_mappings(bytes, pos, end, 8) {
        None => None,
        Some((mappings, p8)) => match parse_rep_tunings(bytes, p8, end, 9) {
            None => None,
            Some((tunings, p9)) => match parse_rep_inputs(bytes, p9, end, 10) {
                None => None,
                Some((inputs, p10)) => match parse_opt_fingerprint(bytes, p10, end) {
                    None => None,
                    Some((fp, p11)) => match parse_artifact_close(bytes, p11, end) {
                        None => None,
                        Some(c) => Some(
                            ArtifactTailV {
                                player_entity_mapping: mappings,
                                tuning_parameters: tunings,
                                inputs,
                                build_fingerprint: fp,
                                final_digest: c.final_digest,
                                checkpoint_tick: c.checkpoint_tick,
                                end_reason: c.end_reason,
                                test_mode: c.test_mode,
                                test_player_ids: c.test_player_ids,
                            },
                        ),
                    },
                },
            },
        },
    }
}

/// Parse a replay artifact occupying exactly [pos, end).
pub open spec fn parse_replay_artifact(bytes: Seq<u8>, pos: int, end: int) -> Option<
    ReplayArtifactV,
> {
    match parse_artifact_head(bytes, pos, end) {
        None => None,
        Some((h, p7)) => match parse_artifact_tail(bytes, p7, end) {
            None => None,
            Some(t) => Some(
                ReplayArtifactV {
                    replay_format_version: h.replay_format_version,
                    initial_baseline: h.initial_baseline,
                    seed: h.seed,
                    rng_algorithm: h.rng_algorithm,
                    tick_rate_hz: h.tick_rate_hz,
                    state_digest_algo_id: h.state_digest_algo_id,
                    entity_spawn_order: h.entity_spawn_order,
                    player_entity_mapping: t.player_entity_mapping,
                    tuning_parameters: t.tuning_parameters,
                    inputs: t.inputs,
                    build_fingerprint: t.build_fingerprint,
                    final_digest: t.final_digest,
                    checkpoint_tick: t.checkpoint_tick,
                    end_reason: t.end_reason,
                    test_mode: t.test_mode,
                    test_player_ids: t.test_player_ids,
                },
            ),
        },
    }
}

/// Parsing the encoded first artifact fields yields them back.
#[verifier::rlimit(100)]
#[verifier::spinoff_prover]
pub proof fn lemma_parse_artifact_head(bytes: Seq<u8>, pos: int, end: int, v: ReplayArtifactV)
    requires
        0 <= pos,
        artifact_wf(v),
        pos + enc_artifact_head_bytes(v).len() <= end <= bytes.len(),
        bytes.subrange(pos, pos + enc_artifact_head_bytes(v).len() as int)
            == enc_artifact_head_bytes(v),
    ensures
        parse_artifact_head(bytes, pos, end) matches Some((h, p)) && p == pos
            + enc_artifact_head_bytes(v).len() && h == (ArtifactHeadV {
            replay_format_version: v.replay_format_version,
            initial_baseline: v.initial_baseline,
            seed: v.seed,
            rng_algorithm: v.rng_algorithm,
            tick_rate_hz: v.tick_rate_hz,
            state_digest_algo_id: v.state_digest_algo_id,
            entity_spawn_order: v.entity_spawn_order,
        }),
{
    let e1 = enc_u64_field(1, v.replay_format_version as u64);
    let ob2 = opt_baseline_field(v.initial_baseline);
    let e3 = enc_u64_field(3, v.seed);
    let s4 = str_field(4, v.rng_algorithm);
    let e5 = enc_u64_field(5, v.tick_rate_hz as u64);
    let s6 = str_field(6, v.state_digest_algo_id);
    let p7 = packed_u32_field(7, v.entity_spawn_order);
    let t2 = ob2 + (e3 + (s4 + (e5 + (s6 + p7))));
    assert(enc_artifact_head_bytes(v) =~= e1 + t2);
    lemma_subrange_of_concat(bytes, pos, e1, t2);
    let q1 = pos + e1.len();
    lemma_subrange_of_concat(bytes, q1, ob2, e3 + (s4 + (e5 + (s6 + p7))));
    let q2 = q1 + ob2.len();
    lemma_subrange_of_concat(bytes, q2, e3, s4 + (e5 + (s6 + p7)));
    let q3 = q2 + e3.len();
    lemma_subrange_of_concat(bytes, q3, s4, e5 + (s6 + p7));
    let q4 = q3 + s4.len();
    lemma_subrange_of_concat(bytes, q4, e5, s6 + p7);
    let q5 = q4 + e5.len();
    lemma_subrange_of_concat(bytes, q5, s6, p7);
    let q6 = q5 + s6.len();

    lemma_parse_u64_field(bytes, pos, end, 1, v.replay_format_version as u64);
    assert(key_bytes(2, 2) =~= seq![18u8]);
    assert(key_bytes(3, 0) =~= seq![24u8]);
    match v.initial_baseline {
        None => {
            assert(ob2.len() == 0);
            assert(bytes[q1] == e3[0]);
            assert(e3[0] == key_bytes(3, 0)[0]);
            lemma_not_key(bytes, q1, end, 2, 2);
            assert(parse_opt_baseline(bytes, q1, end) == Some((None::<JoinBaselineV>, q1)));
        },
        Some(b) => {
            let hdr = enc_len_header(2, enc_join_baseline(b).len() as u64);
            assert(ob2 =~= hdr + enc_join_baseline(b));
            lemma_subrange_of_concat(bytes, q1, hdr, enc_join_baseline(b));
            lemma_parse_len_header(bytes, q1, end, 2, enc_join_baseline(b).len() as u64);
            lemma_parse_join_baseline(bytes, q1 + hdr.len(), b);
            assert(parse_opt_baseline(bytes, q1, end) == Some((Some(b), q2)));
        },
    }
    lemma_parse_u64_field(bytes, q2, end, 3, v.seed);
    lemma_parse_str_field(bytes, q3, end, 4, v.rng_algorithm);
    lemma_parse_u64_field(bytes, q4, end, 5, v.tick_rate_hz as u64);
    lemma_parse_str_field(bytes, q5, end, 6, v.state_digest_algo_id);
    lemma_parse_packed_u32_field(bytes, q6, end, 7, v.entity_spawn_order);
}

/// Parsing the encoded closing artifact fields yields them back.
#[verifier::rlimit(100)]
#[verifier::spinoff_prover]
pub proof fn lemma_parse_artifact_close(bytes: Seq<u8>, pos: int, v: ReplayArtifactV)
    requires
        0 <= pos,
        artifact_wf(v),
        pos + enc_artifact_close_bytes(v).len() <= bytes.len(),
        bytes.subrange(pos, pos + enc_artifact_close_bytes(v).len() as int)
            == enc_artifact_close_bytes(v),
    ensures
        parse_artifact_close(bytes, pos, pos + enc_artifact_close_bytes(v).len()) == Some(
            ArtifactCloseV {
                final_digest: v.final_digest,
                checkpoint_tick: v.checkpoint_tick,
                end_reason: v.end_reason,
                test_mode: v.test_mode,
                test_player_ids: v.test_player_ids,
            },
        ),
{
    let e12 = enc_u64_field(12, v.final_digest);
    let e13 = enc_u64_field(13, v.checkpoint_tick);
    let s14 = str_field(14, v.end_reason);
    let e15 = enc_u64_field(15, if v.test_mode { 1u64 } else { 0u64 });
    let p16 = packed_u32_field(16, v.test_player_ids);
    let end = pos + enc_artifact_close_bytes(v).len();
    assert(enc_artifact_close_bytes(v) =~= e12 + (e13 + (s14 + (e15 + p16))));
    lemma_subrange_of_concat(bytes, pos, e12, e13 + (s14 + (e15 + p16)));
    let q12 = pos + e12.len();
    lemma_subrange_of_concat(bytes, q12, e13, s14 + (e15 + p16));
    let q13 = q12 + e13.len();
    lemma_subrange_of_concat(bytes, q13, s14, e15 + p16);
    let q14 = q13 + s14.len();
    lemma_subrange_of_concat(bytes, q14, e15, p16);
    let q15 = q14 + e15.len();
    lemma_parse_u64_field(bytes, pos, end, 12, v.final_digest);
    lemma_parse_u64_field(bytes, q12, end, 13, v.checkpoint_tick);
    lemma_parse_str_field(bytes, q13, end, 14, v.end_reason);
    lemma_parse_u64_field(bytes, q14, end, 15, if v.test_mode { 1u64 } else { 0u64 });
    lemma_parse_packed_u32_field(bytes, q15, end, 16, v.test_player_ids);
}


/// A non-empty repeated tuning field begins with its key byte.
pub proof fn lemma_rep_tuning_first(s: Seq<TuningParameterV>)
    requires
        s.len() > 0,
    ensures
        rep_tuning_fields(9, s).len() > 0,
        rep_tuning_fields(9, s)[0] == 74u8,
{
    let body0 = enc_tuning_body(s[0]);
    let h = enc_len_header(9, body0.len() as u64);
    assert(rep_tuning_fields(9, s) == h + body0 + rep_tuning_fields(
        9,
        s.subrange(1, s.len() as int),
    ));
    assert(key_bytes(9, 2) =~= seq![74u8]);
    assert(h[0] == key_bytes(9, 2)[0]);
}

/// A non-empty repeated input field begins with its key byte.
pub proof fn lemma_rep_input_first(s: Seq<AppliedInputProtoV>)
    requires
        s.len() > 0,
    ensures
        rep_input_fields(10, s).len() > 0,
        rep_input_fields(10, s)[0] == 82u8,
{
    let body0 = enc_applied_input_body(s[0]);
    let h = enc_len_header(10, body0.len() as u64);
    assert(rep_input_fields(10, s) == h + body0 + rep_input_fields(
        10,
        s.subrange(1, s.len() as int),
    ));
    assert(key_bytes(10, 2) =~= seq![82u8]);
    assert(h[0] == key_bytes(10, 2)[0]);
}

/// A present fingerprint field begins with its key byte.
pub proof fn lemma_opt_fingerprint_first(o: Option<BuildFingerprintV>)
    requires
        o is Some,
    ensures
        opt_fingerprint_field(o).len() > 0,
        opt_fingerprint_field(o)[0] == 90u8,
{
    let f = o.unwrap();
    let body0 = enc_fingerprint_body(f);
    let h = enc_len_header(11, body0.len() as u64);
    assert(opt_fingerprint_field(o) == h + body0);
    assert(key_bytes(11, 2) =~= seq![90u8]);
    assert(h[0] == key_bytes(11, 2)[0]);
}

/// The closing artifact fields begin with the final-digest key byte.
pub proof fn lemma_close_first(v: ReplayArtifactV)
    ensures
        enc_artifact_close_bytes(v).len() > 0,
        enc_artifact_close_bytes(v)[0] == 96u8,
{
    let e12 = enc_u64_field(12, v.final_digest);
    assert(enc_artifact_close_bytes(v) == e12 + (enc_u64_field(13, v.checkpoint_tick) + (
    str_field(14, v.end_reason) + (enc_u64_field(15, if v.test_mode { 1u64 } else { 0u64 })
        + packed_u32_field(16, v.test_player_ids))))) by {
        assert(enc_artifact_close_bytes(v) =~= e12 + (enc_u64_field(13, v.checkpoint_tick) + (
        str_field(14, v.end_reason) + (enc_u64_field(
            15,
            if v.test_mode { 1u64 } else { 0u64 },
        ) + packed_u32_field(16, v.test_player_ids)))));
    }
    assert(key_bytes(12, 0) =~= seq![96u8]);
    assert(e12[0] == key_bytes(12, 0)[0]);
}

/// The parse facts for the three repeated tail fields.
#[verifier::rlimit(100)]
#[verifier::spinoff_prover]
pub proof fn lemma_parse_artifact_tail_reps(bytes: Seq<u8>, pos: int, v: ReplayArtifactV)
    requires
        0 <= pos,
        artifact_wf(v),
        pos + enc_artifact_tail_bytes(v).len() <= bytes.len(),
        bytes.subrange(pos, pos + enc_artifact_tail_bytes(v).len() as int)
            == enc_artifact_tail_bytes(v),
    ensures
        ({
            let end = pos + enc_artifact_tail_bytes(v).len();
            let q8 = pos + rep_mapping_fields(8, v.player_entity_mapping).len();
            let q9 = q8 + rep_tuning_fields(9, v.tuning_parameters).len();
            let q10 = q9 + rep_input_fields(10, v.inputs).len();
            &&& parse_rep_mappings(bytes, pos, end, 8) == Some((v.player_entity_mapping, q8))
            &&& parse_rep_tunings(bytes, q8, end, 9) == Some((v.tuning_parameters, q9))
            &&& parse_rep_inputs(bytes, q9, end, 10) == Some((v.inputs, q10))
        }),
{
    let r8 = rep_mapping_fields(8, v.player_entity_mapping);
    let r9 = rep_tuning_fields(9, v.tuning_parameters);
    let r10 = rep_input_fields(10, v.inputs);
    let of11 = opt_fingerprint_field(v.build_fingerprint);
    let cl = enc_artifact_close_bytes(v);
    let end = pos + enc_artifact_tail_bytes(v).len();

    let t11 = of11 + cl;
    let t10 = r10 + t11;
    let t9 = r9 + t10;
    assert(enc_artifact_tail_bytes(v) =~= r8 + t9);
    lemma_subrange_of_concat(bytes, pos, r8, t9);
    let q8 = pos + r8.len();
    lemma_subrange_of_concat(bytes, q8, r9, t10);
    let q9 = q8 + r9.len();
    lemma_subrange_of_concat(bytes, q9, r10, t11);
    let q10 = q9 + r10.len();

    assert(key_bytes(8, 2) =~= seq![66u8]);
    assert(key_bytes(9, 2) =~= seq![74u8]);
    assert(key_bytes(10, 2) =~= seq![82u8]);
    lemma_close_first(v);
    if v.tuning_parameters.len() > 0 {
        lemma_rep_tuning_first(v.tuning_parameters);
    }
    if v.inputs.len() > 0 {
        lemma_rep_input_first(v.inputs);
    }
    if v.build_fingerprint is Some {
        lemma_opt_fingerprint_first(v.build_fingerprint);
    }

    // After the mappings the next byte is 74, 82, 90 or 96: never 66.
    if v.tuning_parameters.len() > 0 {
        assert(bytes[q8] == 74u8) by {
            assert(bytes[q8] == t9[0]);
        }
    } else if v.inputs.len() > 0 {
        assert(bytes[q8] == 82u8) by {
            assert(r9.len() == 0);
            assert(bytes[q8] == t9[0]);
            assert(t9[0] == t10[0]);
        }
    } else if v.build_fingerprint is Some {
        assert(bytes[q8] == 90u8) by {
            assert(r9.len() == 0 && r10.len() == 0);
            assert(bytes[q8] == t9[0]);
            assert(t9[0] == t10[0] && t10[0] == t11[0]);
        }
    } else {
        assert(bytes[q8] == 96u8) by {
            assert(r9.len() == 0 && r10.len() == 0 && of11.len() == 0);
            assert(bytes[q8] == t9[0]);
            assert(t9[0] == t10[0] && t10[0] == t11[0] && t11[0] == cl[0]);
        }
    }
    lemma_not_key(bytes, q8, end, 8, 2);
    lemma_parse_rep_mappings(bytes, pos, end, 8, v.player_entity_mapping);

    // After the tunings the next byte is 82, 90 or 96: never 74.
    if v.inputs.len() > 0 {
        assert(bytes[q9] == 82u8) by {
            assert(bytes[q9] == t10[0]);
        }
    } else if v.build_fingerprint is Some {
        assert(bytes[q9] == 90u8) by {
            assert(r10.len() == 0);
            assert(bytes[q9] == t10[0]);
            assert(t10[0] == t11[0]);
        }
    } else {
        assert(bytes[q9] == 96u8) by {
            assert(r10.len() == 0 && of11.len() == 0);
            assert(bytes[q9] == t10[0]);
            assert(t10[0] == t11[0] && t11[0] == cl[0]);
        }
    }
    lemma_not_key(bytes, q9, end, 9, 2);
    lemma_parse_rep_tunings(bytes, q8, end, 9, v.tuning_parameters);

    // After the inputs the next byte is 90 or 96: never 82.
    if v.build_fingerprint is Some {
        assert(bytes[q10] == 90u8) by {
            assert(bytes[q10] == t11[0]);
        }
    } else {
        assert(bytes[q10] == 96u8) by {
            assert(of11.len() == 0);
            assert(bytes[q10] == t11[0]);
            assert(t11[0] == cl[0]);
        }
    }
    lemma_not_key(bytes, q10, end, 10, 2);
    lemma_parse_rep_inputs(bytes, q9, end, 10, v.inputs);
}

/// The parse facts for the fingerprint and closing tail fields.
#[verifier::rlimit(100)]
#[verifier::spinoff_prover]
pub proof fn lemma_parse_artifact_tail_fp_close(bytes: Seq<u8>, pos: int, v: ReplayArtifactV)
    requires
        0 <= pos,
        artifact_wf(v),
        pos + enc_artifact_tail_bytes(v).len() <= bytes.len(),
        bytes.subrange(pos, pos + enc_artifact_tail_bytes(v).len() as int)
            == enc_artifact_tail_bytes(v),
    ensures
        ({
            let end = pos + enc_artifact_tail_bytes(v).len();
            let q8 = pos + rep_mapping_fields(8, v.player_entity_mapping).len();
            let q9 = q8 + rep_tuning_fields(9, v.tuning_parameters).len();
            let q10 = q9 + rep_input_fields(10, v.inputs).len();
            let q11 = q10 + opt_fingerprint_field(v.build_fingerprint).len();
            &&& parse_opt_fingerprint(bytes, q10, end) == Some((v.build_fingerprint, q11))
            &&& parse_artifact_close(bytes, q11, end) == Some(
                ArtifactCloseV {
                    final_digest: v.final_digest,
                    checkpoint_tick: v.checkpoint_tick,
                    end_reason: v.end_reason,
                    test_mode: v.test_mode,
                    test_player_ids: v.test_player_ids,
                },
            )
        }),
{
    let r8 = rep_mapping_fields(8, v.player_entity_mapping);
    let r9 = rep_tuning_fields(9, v.tuning_parameters);
    let r10 = rep_input_fields(10, v.inputs);
    let of11 = opt_fingerprint_field(v.build_fingerprint);
    let cl = enc_artifact_close_bytes(v);
    let end = pos + enc_artifact_tail_bytes(v).len();

    let t11 = of11 + cl;
    let t10 = r10 + t11;
    let t9 = r9 + t10;
    assert(enc_artifact_tail_bytes(v) =~= r8 + t9);
    lemma_subrange_of_concat(bytes, pos, r8, t9);
    let q8 = pos + r8.len();
    lemma_subrange_of_concat(bytes, q8, r9, t10);
    let q9 = q8 + r9.len();
    lemma_subrange_of_concat(bytes, q9, r10, t11);
    let q10 = q9 + r10.len();
    lemma_subrange_of_concat(bytes, q10, of11, cl);
    let q11 = q10 + of11.len();

    assert(key_bytes(11, 2) =~= seq![90u8]);
    lemma_close_first(v);
    match v.build_fingerprint {
        None => {
            assert(of11.len() == 0);
            assert(bytes[q10] == 96u8) by {
                assert(bytes[q10] == cl[0]);
            }
            lemma_not_key(bytes, q10, end, 11, 2);
            assert(parse_opt_fingerprint(bytes, q10, end) == Some(
                (None::<BuildFingerprintV>, q10),
            ));
        },
        Some(f) => {
            let hdr = enc_len_header(11, enc_fingerprint_body(f).len() as u64);
            assert(of11 =~= hdr + enc_fingerprint_body(f));
            lemma_subrange_of_concat(bytes, q10, hdr, enc_fingerprint_body(f));
            lemma_parse_len_header(bytes, q10, end, 11, enc_fingerprint_body(f).len() as u64);
            lemma_parse_fingerprint_body(bytes, q10 + hdr.len(), f);
            assert(parse_opt_fingerprint(bytes, q10, end) == Some((Some(f), q11)));
        },
    }
    lemma_parse_artifact_close(bytes, q11, v);
}

/// Parsing the encoded remaining artifact fields yields them back.
#[verifier::rlimit(100)]
#[verifier::spinoff_prover]
pub proof fn lemma_parse_artifact_tail(bytes: Seq<u8>, pos: int, v: ReplayArtifactV)
    requires
        0 <= pos,
        artifact_wf(v),
        pos + enc_artifact_tail_bytes(v).len() <= bytes.len(),
        bytes.subrange(pos, pos + enc_artifact_tail_bytes(v).len() as int)
            == enc_artifact_tail_bytes(v),
    ensures
        parse_artifact_tail(bytes, pos, pos + enc_artifact_tail_bytes(v).len()) == Some(
            ArtifactTailV {
                player_entity_mapping: v.player_entity_mapping,
                tuning_parameters: v.tuning_parameters,
                inputs: v.inputs,
                build_fingerprint: v.build_fingerprint,
                final_digest: v.final_digest,
                checkpoint_tick: v.checkpoint_tick,
                end_reason: v.end_reason,
                test_mode: v.test_mode,
                test_player_ids: v.test_player_ids,
            },
        ),
{
    lemma_parse_artifact_tail_reps(bytes, pos, v);
    lemma_parse_artifact_tail_fp_close(bytes, pos, v);
}

/// Parsing an encoded replay artifact yields it back.
#[verifier::rlimit(100)]
#[verifier::spinoff_prover]
pub proof fn lemma_parse_replay_artifact(bytes: Seq<u8>, pos: int, v: ReplayArtifactV)
    requires
        0 <= pos,
        artifact_wf(v),
        pos + enc_replay_artifact(v).len() <= bytes.len(),
        bytes.subrange(pos, pos + enc_replay_artifact(v).len() as int) == enc_replay_artifact(v),
    ensures
        parse_replay_artifact(bytes, pos, pos + enc_replay_artifact(v).len()) == Some(v),
{
    let head = enc_artifact_head_bytes(v);
    let tail = enc_artifact_tail_bytes(v);
    let end = pos + enc_replay_artifact(v).len();
    lemma_subrange_of_concat(bytes, pos, head, tail);
    lemma_parse_artifact_head(bytes, pos, end, v);
    lemma_parse_artifact_tail(bytes, pos + head.len(), v);
}

impl ReplayArtifact {
    /// Encode to bytes.
    #[verifier::rlimit(100)]
    #[verifier::spinoff_prover]
    pub fn encode_to_vec(&self) -> (r: Vec<u8>)
        requires
            artifact_wf(self@),
        ensures
            r@ == enc_replay_artifact(self@),
    {
        let mut out: Vec<u8> = Vec::new();
        encode_u64_field(&mut out, 1, self.replay_format_version as u64);
        assert(out@ =~= enc_u64_field(1, self@.replay_format_version as u64));
        match &self.initial_baseline {
            Some(b) => {
                let body = b.encode_to_vec();
                encode_len_header(&mut out, 2, body.len() as u64);
                push_bytes(&mut out, body.as_slice());
            },
            None => {},
        }
        encode_u64_field(&mut out, 3, self.seed);
        encode_str_field(&mut out, 4, &self.rng_algorithm);
        encode_u64_field(&mut out, 5, self.tick_rate_hz as u64);
        encode_str_field(&mut out, 6, &self.state_digest_algo_id);
        encode_packed_u32_field(&mut out, 7, &self.entity_spawn_order);
        assert(out@ =~= enc_artifact_head_bytes(self@));
        let ghost head = out@;
        encode_rep_mappings(&mut out, 8, &self.player_entity_mapping);
        assert(out@ =~= head + rep_mapping_fields(8, self@.player_entity_mapping));
        encode_rep_tunings(&mut out, 9, &self.tuning_parameters);
        encode_rep_inputs(&mut out, 10, &self.inputs);
        match &self.build_fingerprint {
            Some(f) => {
                let mut body: Vec<u8> = Vec::new();
                encode_fingerprint_body(&mut body, f);
                encode_len_header(&mut out, 11, body.len() as u64);
                push_bytes(&mut out, body.as_slice());
            },
            None => {},
        }
        encode_u64_field(&mut out, 12, self.final_digest);
        encode_u64_field(&mut out, 13, self.checkpoint_tick);
        encode_str_field(&mut out, 14, &self.end_reason);
        encode_u64_field(&mut out, 15, if self.test_mode { 1u64 } else { 0u64 });
        encode_packed_u32_field(&mut out, 16, &self.test_player_ids);
        proof {
            assert(out@ =~= head + enc_artifact_tail_bytes(self@));
            assert(out@ =~= enc_replay_artifact(self@));
        }
        out
    }

    /// Decode from bytes, consuming the whole buffer.
    pub fn decode(buf: &[u8]) -> (r: Option<ReplayArtifact>)
        ensures
            match r {
                Some(m) => parse_replay_artifact(buf@, 0, buf@.len() as int) == Some(m@),
                None => parse_replay_artifact(buf@, 0, buf@.len() as int) is None,
            },
    {
        let end = buf.len();
        let (h, p7) = match decode_artifact_head(buf, 0, end) {
            Some(x) => x,
            None => { return None; },
        };
        let t = match decode_artifact_tail(buf, p7, end) {
            Some(x) => x,
            None => { return None; },
        };
        Some(
            ReplayArtifact {
                replay_format_version: h.replay_format_version,
                initial_baseline: h.initial_baseline,
                seed: h.seed,
                rng_algorithm: h.rng_algorithm,
                tick_rate_hz: h.tick_rate_hz,
                state_digest_algo_id: h.state_digest_algo_id,
                entity_spawn_order: h.entity_spawn_order,
                player_entity_mapping: t.player_entity_mapping,
                tuning_parameters: t.tuning_parameters,
                inputs: t.inputs,
                build_fingerprint: t.build_fingerprint,
                final_digest: t.final_digest,
                checkpoint_tick: t.checkpoint_tick,
                end_reason: t.end_reason,
                test_mode: t.test_mode,
                test_player_ids: t.test_player_ids,
            },
        )
    }
}

/// The first artifact fields in executable form.
pub struct ArtifactHead {
    pub replay_format_version: u32,
    pub initial_baseline: Option<JoinBaseline>,
    pub seed: u64,
    pub rng_algorithm: String,
    pub tick_rate_hz: u32,
    pub state_digest_algo_id: String,
    pub entity_spawn_order: Vec<u32>,
}

impl View for ArtifactHead {
    type V = ArtifactHeadV;

    open spec fn view(&self) -> ArtifactHeadV {
        ArtifactHeadV {
            replay_format_version: self.replay_format_version,
            initial_baseline: match self.initial_baseline {
                Some(b) => Some(b@),
                None => None,
            },
            seed: self.seed,
            rng_algorithm: self.rng_algorithm@,
            tick_rate_hz: self.tick_rate_hz,
            state_digest_algo_id: self.state_digest_algo_id@,
            entity_spawn_order: self.entity_spawn_order@,
        }
    }
}

/// The remaining artifact fields in executable form.
pub struct ArtifactTail {
    pub player_entity_mapping: Vec<PlayerEntityMapping>,
    pub tuning_parameters: Vec<TuningParameter>,
    pub inputs: Vec<AppliedInputProto>,
    pub build_fingerprint: Option<BuildFingerprint>,
    pub final_digest: u64,
    pub checkpoint_tick: u64,
    pub end_reason: String,
    pub test_mode: bool,
    pub test_player_ids: Vec<u32>,
}

impl View for ArtifactTail {
    type V = ArtifactTailV;

    open spec fn view(&self) -> ArtifactTailV {
        ArtifactTailV {
            player_entity_mapping: self.player_entity_mapping@,
            tuning_parameters: self.tuning_parameters@.map_values(|t: TuningParameter| t@),
            inputs: self.inputs@.map_values(|i: AppliedInputProto| i@),
            build_fingerprint: match self.build_fingerprint {
                Some(f) => Some(f@),
                None => None,
            },
            final_digest: self.final_digest,
            checkpoint_tick: self.checkpoint_tick,
            end_reason: self.end_reason@,
            test_mode: self.test_mode,
            test_player_ids: self.test_player_ids@,
        }
    }
}

/// Parse the first artifact fields, exactly as `parse_artifact_head`.
pub fn decode_artifact_head(buf: &[u8], pos: usize, end: usize) -> (r: Option<(ArtifactHead, usize)>)
    requires
        end <= buf@.len(),
    ensures
        match r {
            Some((h, p)) => parse_artifact_head(buf@, pos as int, end as int) == Some(
                (h@, p as int),
            ),
            None => parse_artifact_head(buf@, pos as int, end as int) is None,
        },
{
    let (ver, p1) = match decode_u64_field(buf, pos, end, 1) {
        Some(x) => x,
        None => { return None; },
    };
    let (baseline, p2) = match eat_key(buf, p1, end, 2, 2) {
        None => (None, p1),
        Some(_) => {
            let (a, b) = match decode_len_header(buf, p1, end, 2) {
                Some(x) => x,
                None => { return None; },
            };
            match JoinBaseline::decode_body(buf, a, b) {
                Some((m, _)) => (Some(m), b),
                None => { return None; },
            }
        },
    };
    let (seed, p3) = match decode_u64_field(buf, p2, end, 3) {
        Some(x) => x,
        None => { return None; },
    };
    let (rng, p4) = match decode_str_field(buf, p3, end, 4) {
        Some(x) => x,
        None => { return None; },
    };
    let (rate, p5) = match decode_u64_field(buf, p4, end, 5) {
        Some(x) => x,
        None => { return None; },
    };
    let (algo, p6) = match decode_str_field(buf, p5, end, 6) {
        Some(x) => x,
        None => { return None; },
    };
    let (spawn, p7) = match decode_packed_u32_field(buf, p6, end, 7) {
        Some(x) => x,
        None => { return None; },
    };
    if ver <= u32::MAX as u64 && rate <= u32::MAX as u64 {
        Some(
            (
                ArtifactHead {
                    replay_format_version: ver as u32,
                    initial_baseline: baseline,
                    seed,
                    rng_algorithm: rng,
                    tick_rate_hz: rate as u32,
                    state_digest_algo_id: algo,
                    entity_spawn_order: spawn,
                },
                p7,
            ),
        )
    } else {
        None
    }
}

/// Parse the remaining artifact fields, exactly as `parse_artifact_tail`.
#[verifier::rlimit(100)]
#[verifier::spinoff_prover]
pub fn decode_artifact_tail(buf: &[u8], pos: usize, end: usize) -> (r: Option<ArtifactTail>)
    requires
        end <= buf@.len(),
    ensures
        match r {
            Some(t) => parse_artifact_tail(buf@, pos as int, end as int) == Some(t@),
            None => parse_artifact_tail(buf@, pos as int, end as int) is None,
        },
{
    let (mappings, p8) = match decode_rep_mappings(buf, pos, end, 8) {
        Some(x) => x,
        None => { return None; },
    };
    let (tunings, p9) = match decode_rep_tunings(buf, p8, end, 9) {
        Some(x) => x,
        None => { return None; },
    };
    let (inputs, p10) = match decode_rep_inputs(buf, p9, end, 10) {
        Some(x) => x,
        None => { return None; },
    };
    let (fp, p11) = match eat_key(buf, p10, end, 11, 2) {
        None => (None, p10),
        Some(_) => {
            let (a, b) = match decode_len_header(buf, p10, end, 11) {
                Some(x) => x,
                None => { return None; },
            };
            match decode_fingerprint_body(buf, a, b) {
                Some((m, _)) => (Some(m), b),
                None => { return None; },
            }
        },
    };
    let (digest, p12) = match decode_u64_field(buf, p11, end, 12) {
        Some(x) => x,
        None => { return None; },
    };
    let (checkpoint, p13) = match decode_u64_field(buf, p12, end, 13) {
        Some(x) => x,
        None => { return None; },
    };
    let (reason, p14) = match decode_str_field(buf, p13, end, 14) {
        Some(x) => x,
        None => { return None; },
    };
    let (tm, p15) = match decode_u64_field(buf, p14, end, 15) {
        Some(x) => x,
        None => { return None; },
    };
    let (tids, p16) = match decode_packed_u32_field(buf, p15, end, 16) {
        Some(x) => x,
        None => { return None; },
    };
    if p16 == end {
        Some(
            ArtifactTail {
                player_entity_mapping: mappings,
                tuning_parameters: tunings,
                inputs,
                build_fingerprint: fp,
                final_digest: digest,
                checkpoint_tick: checkpoint,
                end_reason: reason,
                test_mode: tm != 0,
                test_player_ids: tids,
            },
        )
    } else {
        None
    }
}

/// Round trip: decoding an encoded replay artifact yields it back.
#[verifier::rlimit(100)]
#[verifier::spinoff_prover]
pub proof fn lemma_replay_artifact_roundtrip(v: ReplayArtifactV, bytes: Seq<u8>)
    requires
        artifact_wf(v),
        bytes == enc_replay_artifact(v),
    ensures
        parse_replay_artifact(bytes, 0, bytes.len() as int) == Some(v),
{
    assert(bytes.subrange(0, bytes.len() as int) =~= bytes);
    lemma_parse_replay_artifact(bytes, 0, v);
}

} // verus!
