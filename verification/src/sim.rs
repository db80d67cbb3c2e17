//! Deterministic fixed-timestep simulation kernel.
//!
//! The world advances one tick at a time under an ordered list of step
//! inputs and yields a bit-exact state digest on demand. All positions,
//! velocities and movement intents are binary64 bit patterns (`u64`),
//! so world state is plain data and the digest is a pure function of it.

use vstd::prelude::*;

use crate::digest::{fnv1a_seq, lemma_fnv1a_seq_concat, Fnv1a64, FNV1A_OFFSET_BASIS};
use crate::fp::{
    canonicalize_f64, canonicalize_f64_spec, f64_add, f64_add_bits, f64_bits_le, f64_div,
    f64_div_bits, f64_from_u32, f64_le_bits, f64_mul, f64_mul_bits, f64_of_u32, f64_sqrt,
    f64_sqrt_bits, F64_ONE,
};

verus! {

/// A single discrete simulation timestep; the atomic unit of game time.
pub type Tick = u64;

/// Per-match participant identifier, used only as a stable ordering key.
/// Not assumed contiguous or zero-based.
pub type PlayerId = u8;

/// Unique identifier for an entity within a match, allocated from 1 in
/// spawn order.
pub type EntityId = u64;

/// Movement speed in units per second (the bit pattern of 5.0).
pub const MOVE_SPEED_BITS: u64 = 0x4014000000000000;

/// State digest algorithm identifier.
pub const STATE_DIGEST_ALGO_ID: &'static str = "statedigest-v0-fnv1a64-le-f64canon-eidasc-posvel";

/// Simulation-plane input consumed by `advance`. `move_dir` holds the bit
/// patterns of the two direction components; magnitude is clamped to 1 at
/// the kernel boundary.
#[derive(Clone, Copy, Debug, PartialEq, Eq)]
pub struct StepInput {
    pub player_id: PlayerId,
    pub move_dir: [u64; 2],
}

/// Snapshot of a single entity's state, used in both baselines and
/// snapshots. Position and velocity components are binary64 bit patterns.
#[derive(Clone, Copy, Debug, PartialEq, Eq)]
pub struct EntitySnapshot {
    pub entity_id: EntityId,
    pub position: [u64; 2],
    pub velocity: [u64; 2],
}

/// Pre-step world state at tick T: entities sorted by entity id
/// ascending, and the state digest over the same state.
#[derive(Clone, Debug, PartialEq, Eq)]
pub struct Baseline {
    pub tick: Tick,
    pub entities: Vec<EntitySnapshot>,
    pub digest: u64,
}

/// Post-step world state at tick T+1: entities sorted by entity id
/// ascending, and the state digest over the same state.
#[derive(Clone, Debug, PartialEq, Eq)]
pub struct Snapshot {
    pub tick: Tick,
    pub entities: Vec<EntitySnapshot>,
    pub digest: u64,
}

/// A character entity: one per player.
#[derive(Clone, Copy, Debug, PartialEq, Eq)]
pub struct Character {
    pub entity_id: EntityId,
    pub player_id: PlayerId,
    pub position: [u64; 2],
    pub velocity: [u64; 2],
}

impl Character {
    /// A fresh character at the origin with zero velocity.
    pub fn new(entity_id: EntityId, player_id: PlayerId) -> (r: Self)
        ensures
            r == (Character {
                entity_id,
                player_id,
                position: [0u64, 0u64],
                velocity: [0u64, 0u64],
            }),
    {
        Character { entity_id, player_id, position: [0, 0], velocity: [0, 0] }
    }

    /// The wire-facing snapshot of this character.
    pub fn to_snapshot(&self) -> (r: EntitySnapshot)
        ensures
            r == snapshot_of_character(*self),
    {
        EntitySnapshot {
            entity_id: self.entity_id,
            position: self.position,
            velocity: self.velocity,
        }
    }
}

/// The snapshot a character contributes to a baseline or snapshot.
pub open spec fn snapshot_of_character(c: Character) -> EntitySnapshot {
    EntitySnapshot { entity_id: c.entity_id, position: c.position, velocity: c.velocity }
}

/// Clamp a direction vector's magnitude to at most 1, exactly as the
/// kernel computes it: compare the squared magnitude against 1*1 with
/// IEEE `<=`, and otherwise scale both components by 1/sqrt(mag_sq).
pub open spec fn clamp_dir_spec(v: [u64; 2]) -> [u64; 2] {
    let mag_sq = f64_add(f64_mul(v[0], v[0]), f64_mul(v[1], v[1]));
    let max_sq = f64_mul(F64_ONE, F64_ONE);
    if f64_bits_le(mag_sq, max_sq) {
        v
    } else {
        let mag = f64_sqrt(mag_sq);
        let scale = f64_div(F64_ONE, mag);
        [f64_mul(v[0], scale), f64_mul(v[1], scale)]
    }
}

/// Clamp a direction vector's magnitude to at most 1.
pub fn clamp_dir(v: [u64; 2]) -> (r: [u64; 2])
    ensures
        r == clamp_dir_spec(v),
{
    let mag_sq = f64_add_bits(f64_mul_bits(v[0], v[0]), f64_mul_bits(v[1], v[1]));
    let max_sq = f64_mul_bits(F64_ONE, F64_ONE);
    if f64_le_bits(mag_sq, max_sq) {
        v
    } else {
        let mag = f64_sqrt_bits(mag_sq);
        let scale = f64_div_bits(F64_ONE, mag);
        [f64_mul_bits(v[0], scale), f64_mul_bits(v[1], scale)]
    }
}

/// The character after one step of movement under the (already clamped)
/// direction: velocity = dir * MOVE_SPEED, position += velocity * dt.
pub open spec fn moved_character(c: Character, dir: [u64; 2], dt: u64) -> Character {
    let vx = f64_mul(dir[0], MOVE_SPEED_BITS);
    let vy = f64_mul(dir[1], MOVE_SPEED_BITS);
    Character {
        position: [
            f64_add(c.position[0], f64_mul(vx, dt)),
            f64_add(c.position[1], f64_mul(vy, dt)),
        ],
        velocity: [vx, vy],
        ..c
    }
}

/// First index holding the given player's character, if any.
pub open spec fn find_player_index(chars: Seq<Character>, pid: PlayerId) -> Option<int>
    decreases chars.len(),
{
    if chars.len() == 0 {
        None
    } else if chars[0].player_id == pid {
        Some(0)
    } else {
        match find_player_index(chars.subrange(1, chars.len() as int), pid) {
            Some(i) => Some(i + 1),
            None => None,
        }
    }
}

/// The character list after applying one step input: the first character
/// of that player (if any) moves under the clamped direction.
pub open spec fn apply_input_spec(chars: Seq<Character>, inp: StepInput, dt: u64) -> Seq<
    Character,
> {
    match find_player_index(chars, inp.player_id) {
        None => chars,
        Some(i) => chars.update(i, moved_character(chars[i], clamp_dir_spec(inp.move_dir), dt)),
    }
}

/// The character list after applying the step inputs in order.
pub open spec fn apply_inputs_spec(chars: Seq<Character>, inputs: Seq<StepInput>, dt: u64) -> Seq<
    Character,
>
    decreases inputs.len(),
{
    if inputs.len() == 0 {
        chars
    } else {
        apply_inputs_spec(
            apply_input_spec(chars, inputs[0], dt),
            inputs.subrange(1, inputs.len() as int),
            dt,
        )
    }
}

/// Applying one more input continues the left fold.
pub proof fn lemma_apply_inputs_snoc(
    chars: Seq<Character>,
    inputs: Seq<StepInput>,
    inp: StepInput,
    dt: u64,
)
    ensures
        apply_inputs_spec(chars, inputs.push(inp), dt) == apply_input_spec(
            apply_inputs_spec(chars, inputs, dt),
            inp,
            dt,
        ),
    decreases inputs.len(),
{
    if inputs.len() == 0 {
        let p = inputs.push(inp);
        assert(p[0] == inp);
        let rest = p.subrange(1, 1);
        assert(rest.len() == 0);
        assert(apply_inputs_spec(apply_input_spec(chars, inp, dt), rest, dt)
            == apply_input_spec(chars, inp, dt));
        assert(apply_inputs_spec(chars, p, dt) == apply_inputs_spec(
            apply_input_spec(chars, p[0], dt),
            rest,
            dt,
        ));
        assert(apply_inputs_spec(chars, inputs, dt) == chars);
    } else {
        assert(inputs.push(inp)[0] == inputs[0]);
        assert(inputs.push(inp).subrange(1, inputs.len() as int + 1) =~= inputs.subrange(
            1,
            inputs.len() as int,
        ).push(inp));
        lemma_apply_inputs_snoc(
            apply_input_spec(chars, inputs[0], dt),
            inputs.subrange(1, inputs.len() as int),
            inp,
            dt,
        );
    }
}

/// Applying inputs never changes which character sits at which index
/// identity-wise: entity and player ids are untouched.
pub proof fn lemma_apply_input_preserves_ids(chars: Seq<Character>, inp: StepInput, dt: u64)
    ensures
        apply_input_spec(chars, inp, dt).len() == chars.len(),
        forall|i: int|
            0 <= i < chars.len() ==> #[trigger] apply_input_spec(chars, inp, dt)[i].entity_id
                == chars[i].entity_id && apply_input_spec(chars, inp, dt)[i].player_id
                == chars[i].player_id,
{
    lemma_find_player_index_in_range(chars, inp.player_id);
}

/// A found index is in range.
pub proof fn lemma_find_player_index_in_range(chars: Seq<Character>, pid: PlayerId)
    ensures
        match find_player_index(chars, pid) {
            Some(i) => 0 <= i < chars.len() && chars[i].player_id == pid,
            None => forall|i: int| 0 <= i < chars.len() ==> chars[i].player_id != pid,
        },
    decreases chars.len(),
{
    if chars.len() > 0 {
        let rest = chars.subrange(1, chars.len() as int);
        lemma_find_player_index_in_range(rest, pid);
        if chars[0].player_id != pid {
            match find_player_index(rest, pid) {
                Some(i) => {
                    assert(0 <= i < rest.len());
                    assert(rest[i] == chars[i + 1]);
                },
                None => {
                    assert forall|i: int| 0 <= i < chars.len() implies chars[i].player_id != pid by {
                        if i > 0 {
                            assert(rest[i - 1] == chars[i]);
                        }
                    }
                },
            }
        }
    }
}

/// Identity preservation extended over a whole input list.
pub proof fn lemma_apply_inputs_preserves_ids(
    chars: Seq<Character>,
    inputs: Seq<StepInput>,
    dt: u64,
)
    ensures
        apply_inputs_spec(chars, inputs, dt).len() == chars.len(),
        forall|i: int|
            0 <= i < chars.len() ==> #[trigger] apply_inputs_spec(chars, inputs, dt)[i].entity_id
                == chars[i].entity_id && apply_inputs_spec(chars, inputs, dt)[i].player_id
                == chars[i].player_id,
    decreases inputs.len(),
{
    if inputs.len() > 0 {
        let mid = apply_input_spec(chars, inputs[0], dt);
        let rest = inputs.subrange(1, inputs.len() as int);
        lemma_apply_input_preserves_ids(chars, inputs[0], dt);
        lemma_apply_inputs_preserves_ids(mid, rest, dt);
        assert(apply_inputs_spec(chars, inputs, dt) == apply_inputs_spec(mid, rest, dt));
        assert forall|i: int|
            0 <= i < chars.len() implies #[trigger] apply_inputs_spec(chars, inputs, dt)[i].entity_id
            == chars[i].entity_id && apply_inputs_spec(chars, inputs, dt)[i].player_id
            == chars[i].player_id by {
            assert(apply_inputs_spec(mid, rest, dt)[i].entity_id == mid[i].entity_id);
            assert(mid[i].entity_id == chars[i].entity_id);
            assert(apply_inputs_spec(mid, rest, dt)[i].player_id == mid[i].player_id);
            assert(mid[i].player_id == chars[i].player_id);
        }
    }
}

/// The 34 bytes a character feeds into the state digest: entity id, then
/// canonicalized position and velocity components, each 8 bytes LE.
pub open spec fn character_digest_bytes(c: Character) -> Seq<u8> {
    vstd::bytes::spec_u64_to_le_bytes(c.entity_id) + vstd::bytes::spec_u64_to_le_bytes(
        canonicalize_f64_spec(c.position[0]),
    ) + vstd::bytes::spec_u64_to_le_bytes(canonicalize_f64_spec(c.position[1]))
        + vstd::bytes::spec_u64_to_le_bytes(canonicalize_f64_spec(c.velocity[0]))
        + vstd::bytes::spec_u64_to_le_bytes(canonicalize_f64_spec(c.velocity[1]))
}

/// Digest bytes of a character list, in order.
pub open spec fn characters_digest_bytes(chars: Seq<Character>) -> Seq<u8>
    decreases chars.len(),
{
    if chars.len() == 0 {
        Seq::empty()
    } else {
        character_digest_bytes(chars[0]) + characters_digest_bytes(
            chars.subrange(1, chars.len() as int),
        )
    }
}

/// One more character appends its bytes.
pub proof fn lemma_characters_digest_bytes_snoc(chars: Seq<Character>, c: Character)
    ensures
        characters_digest_bytes(chars.push(c)) == characters_digest_bytes(chars)
            + character_digest_bytes(c),
    decreases chars.len(),
{
    if chars.len() == 0 {
        assert(chars.push(c)[0] == c);
        assert(chars.push(c).subrange(1, 1).len() == 0);
        assert(characters_digest_bytes(chars.push(c).subrange(1, 1)) =~= Seq::<u8>::empty());
        assert(characters_digest_bytes(chars.push(c)) =~= character_digest_bytes(c));
        assert(characters_digest_bytes(chars) + character_digest_bytes(c) =~= character_digest_bytes(c));
    } else {
        assert(chars.push(c)[0] == chars[0]);
        assert(chars.push(c).subrange(1, chars.len() as int + 1) =~= chars.subrange(
            1,
            chars.len() as int,
        ).push(c));
        lemma_characters_digest_bytes_snoc(chars.subrange(1, chars.len() as int), c);
        assert(character_digest_bytes(chars[0]) + (characters_digest_bytes(
            chars.subrange(1, chars.len() as int),
        ) + character_digest_bytes(c)) =~= (character_digest_bytes(chars[0])
            + characters_digest_bytes(chars.subrange(1, chars.len() as int)))
            + character_digest_bytes(c));
    }
}

/// All bytes the state digest hashes: the tick, then every character in
/// entity-id-ascending order.
pub open spec fn world_digest_bytes(tick: Tick, chars: Seq<Character>) -> Seq<u8> {
    vstd::bytes::spec_u64_to_le_bytes(tick) + characters_digest_bytes(chars)
}

/// The state digest: FNV-1a 64 over the canonical world bytes.
pub open spec fn world_digest(tick: Tick, chars: Seq<Character>) -> u64 {
    fnv1a_seq(FNV1A_OFFSET_BASIS, world_digest_bytes(tick, chars))
}

/// The entity snapshots of a character list, in the same order.
pub open spec fn snapshots_of_characters(chars: Seq<Character>) -> Seq<EntitySnapshot> {
    chars.map(|i: int, c: Character| snapshot_of_character(c))
}

/// The authoritative simulation state container.
///
/// `characters[i].entity_id == i + 1`: entity ids are allocated densely
/// from 1 in spawn order, so the list is always sorted by entity id.
pub struct World {
    /// Current simulation tick.
    pub cur_tick: Tick,
    /// Configured tick rate (Hz), positive.
    pub rate_hz: u32,
    /// Bit pattern of the per-tick delta time 1/rate_hz in seconds.
    pub dt_bits: u64,
    /// Characters in entity-id-ascending (= spawn) order.
    pub characters: Vec<Character>,
    /// Next entity id to assign.
    pub next_entity_id: EntityId,
    /// Seed recorded for replay (unused by the movement model).
    pub seed: u64,
}

impl World {
    /// Well-formedness: dense entity ids from 1 in list order, the next id
    /// one past the end, and a positive tick rate with the matching dt.
    pub open spec fn wf(&self) -> bool {
        &&& forall|i: int|
            0 <= i < self.characters@.len() ==> #[trigger] self.characters@[i].entity_id == i + 1
        &&& self.next_entity_id == self.characters@.len() + 1
        &&& self.rate_hz > 0
        &&& self.dt_bits == f64_div(F64_ONE, f64_of_u32(self.rate_hz))
    }

    /// Create a new world at tick 0 with no entities.
    pub fn new(seed: u64, tick_rate_hz: u32) -> (r: Self)
        requires
            tick_rate_hz > 0,
        ensures
            r.wf(),
            r.cur_tick == 0,
            r.rate_hz == tick_rate_hz,
            r.characters@.len() == 0,
            r.next_entity_id == 1,
            r.seed == seed,
            r.dt_bits == f64_div(F64_ONE, f64_of_u32(tick_rate_hz)),
    {
        let dt_bits = f64_div_bits(F64_ONE, f64_from_u32(tick_rate_hz));
        World {
            cur_tick: 0,
            rate_hz: tick_rate_hz,
            dt_bits,
            characters: Vec::new(),
            next_entity_id: 1,
            seed,
        }
    }

    /// Spawn a character for the given player and return its entity id.
    /// Entity ids are allocated deterministically in spawn order: the
    /// N-th spawn returns N.
    pub fn spawn_character(&mut self, player_id: PlayerId) -> (r: EntityId)
        requires
            old(self).wf(),
            old(self).characters@.len() + 1 < u64::MAX,
        ensures
            final(self).wf(),
            r == old(self).next_entity_id,
            r == old(self).characters@.len() + 1,
            final(self).characters@ == old(self).characters@.push(
                Character { entity_id: r, player_id, position: [0u64, 0u64], velocity: [0u64, 0u64] },
            ),
            final(self).next_entity_id == old(self).next_entity_id + 1,
            final(self).cur_tick == old(self).cur_tick,
            final(self).rate_hz == old(self).rate_hz,
            final(self).dt_bits == old(self).dt_bits,
            final(self).seed == old(self).seed,
    {
        let entity_id = self.next_entity_id;
        self.next_entity_id = self.next_entity_id + 1;
        let character = Character::new(entity_id, player_id);
        self.characters.push(character);
        entity_id
    }

    /// The current simulation tick.
    pub fn tick(&self) -> (r: Tick)
        ensures
            r == self.cur_tick,
    {
        self.cur_tick
    }

    /// The configured tick rate in Hz.
    pub fn tick_rate_hz(&self) -> (r: u32)
        ensures
            r == self.rate_hz,
    {
        self.rate_hz
    }

    /// Entity snapshots in entity-id-ascending order.
    fn sorted_entity_snapshots(&self) -> (r: Vec<EntitySnapshot>)
        ensures
            r@ == snapshots_of_characters(self.characters@),
    {
        let mut out: Vec<EntitySnapshot> = Vec::new();
        let n = self.characters.len();
        for i in 0..n
            invariant
                n == self.characters@.len(),
                out@ =~= snapshots_of_characters(self.characters@.subrange(0, i as int)),
        {
            out.push(self.characters[i].to_snapshot());
            proof {
                assert(self.characters@.subrange(0, i + 1) =~= self.characters@.subrange(
                    0,
                    i as int,
                ).push(self.characters@[i as int]));
                assert(snapshots_of_characters(self.characters@.subrange(0, i + 1))
                    =~= snapshots_of_characters(self.characters@.subrange(0, i as int)).push(
                    snapshot_of_character(self.characters@[i as int]),
                ));
            }
        }
        proof {
            assert(self.characters@.subrange(0, n as int) =~= self.characters@);
        }
        out
    }

    /// Compute the state digest of the current world state.
    pub fn state_digest(&self) -> (r: u64)
        ensures
            r == world_digest(self.cur_tick, self.characters@),
    {
        let mut hasher = Fnv1a64::new();
        let tick_bytes = vstd::bytes::u64_to_le_bytes(self.cur_tick);
        hasher.update(tick_bytes.as_slice());
        let n = self.characters.len();
        for i in 0..n
            invariant
                n == self.characters@.len(),
                hasher@ == fnv1a_seq(
                    FNV1A_OFFSET_BASIS,
                    vstd::bytes::spec_u64_to_le_bytes(self.cur_tick) + characters_digest_bytes(
                        self.characters@.subrange(0, i as int),
                    ),
                ),
        {
            let c = &self.characters[i];
            let ghost pre = vstd::bytes::spec_u64_to_le_bytes(self.cur_tick)
                + characters_digest_bytes(self.characters@.subrange(0, i as int));
            let eid_bytes = vstd::bytes::u64_to_le_bytes(c.entity_id);
            hasher.update(eid_bytes.as_slice());
            let p0 = vstd::bytes::u64_to_le_bytes(canonicalize_f64(c.position[0]));
            hasher.update(p0.as_slice());
            let p1 = vstd::bytes::u64_to_le_bytes(canonicalize_f64(c.position[1]));
            hasher.update(p1.as_slice());
            let v0 = vstd::bytes::u64_to_le_bytes(canonicalize_f64(c.velocity[0]));
            hasher.update(v0.as_slice());
            let v1 = vstd::bytes::u64_to_le_bytes(canonicalize_f64(c.velocity[1]));
            hasher.update(v1.as_slice());
            proof {
                let cb = character_digest_bytes(self.characters@[i as int]);
                lemma_fnv1a_seq_concat(FNV1A_OFFSET_BASIS, pre, cb);
                lemma_fnv1a_seq_concat(
                    fnv1a_seq(FNV1A_OFFSET_BASIS, pre),
                    vstd::bytes::spec_u64_to_le_bytes(self.characters@[i as int].entity_id),
                    vstd::bytes::spec_u64_to_le_bytes(
                        canonicalize_f64_spec(self.characters@[i as int].position[0]),
                    ) + vstd::bytes::spec_u64_to_le_bytes(
                        canonicalize_f64_spec(self.characters@[i as int].position[1]),
                    ) + vstd::bytes::spec_u64_to_le_bytes(
                        canonicalize_f64_spec(self.characters@[i as int].velocity[0]),
                    ) + vstd::bytes::spec_u64_to_le_bytes(
                        canonicalize_f64_spec(self.characters@[i as int].velocity[1]),
                    ),
                );
                lemma_hash_character_chain(
                    fnv1a_seq(FNV1A_OFFSET_BASIS, pre),
                    self.characters@[i as int],
                );
                lemma_characters_digest_bytes_snoc(
                    self.characters@.subrange(0, i as int),
                    self.characters@[i as int],
                );
                assert(self.characters@.subrange(0, i + 1) =~= self.characters@.subrange(
                    0,
                    i as int,
                ).push(self.characters@[i as int]));
                assert(pre + cb =~= vstd::bytes::spec_u64_to_le_bytes(self.cur_tick)
                    + characters_digest_bytes(self.characters@.subrange(0, i + 1)));
            }
        }
        proof {
            assert(self.characters@.subrange(0, n as int) =~= self.characters@);
        }
        hasher.finish()
    }

    /// The pre-step view of the world at the current tick.
    pub fn baseline(&self) -> (r: Baseline)
        ensures
            r.tick == self.cur_tick,
            r.entities@ == snapshots_of_characters(self.characters@),
            r.digest == world_digest(self.cur_tick, self.characters@),
    {
        let entities = self.sorted_entity_snapshots();
        let digest = self.state_digest();
        Baseline { tick: self.cur_tick, entities, digest }
    }

    /// Apply movement for one step input: find the player's character (skip
    /// silently if absent), clamp the direction, set velocity, advance
    /// position by one dt.
    fn apply_movement(&mut self, input: &StepInput)
        ensures
            final(self).characters@ == apply_input_spec(
                old(self).characters@,
                *input,
                old(self).dt_bits,
            ),
            final(self).cur_tick == old(self).cur_tick,
            final(self).rate_hz == old(self).rate_hz,
            final(self).dt_bits == old(self).dt_bits,
            final(self).next_entity_id == old(self).next_entity_id,
            final(self).seed == old(self).seed,
    {
        let n = self.characters.len();
        let mut idx: usize = 0;
        let mut found: bool = false;
        while idx < n && !found
            invariant
                n == self.characters@.len(),
                0 <= idx <= n,
                found ==> idx < n && self.characters@[idx as int].player_id == input.player_id
                    && find_player_index(self.characters@, input.player_id) == Some(idx as int),
                !found ==> forall|j: int|
                    0 <= j < idx ==> self.characters@[j].player_id != input.player_id,
            decreases n - idx + (if found { 0int } else { 1int }),
        {
            if self.characters[idx].player_id == input.player_id {
                found = true;
                proof {
                    lemma_find_player_first(self.characters@, input.player_id, idx as int);
                }
            } else {
                idx = idx + 1;
            }
        }
        if !found {
            proof {
                lemma_find_player_index_in_range(self.characters@, input.player_id);
                if find_player_index(self.characters@, input.player_id) is Some {
                    let i = find_player_index(self.characters@, input.player_id).unwrap();
                    assert(self.characters@[i].player_id == input.player_id);
                }
            }
            return ;
        }
        let dir = clamp_dir(input.move_dir);
        let vx = f64_mul_bits(dir[0], MOVE_SPEED_BITS);
        let vy = f64_mul_bits(dir[1], MOVE_SPEED_BITS);
        let px = f64_add_bits(self.characters[idx].position[0], f64_mul_bits(vx, self.dt_bits));
        let py = f64_add_bits(self.characters[idx].position[1], f64_mul_bits(vy, self.dt_bits));
        let c = self.characters[idx];
        let updated = Character { position: [px, py], velocity: [vx, vy], ..c };
        self.characters.set(idx, updated);
    }

    /// Advance the world from tick `tick` to `tick + 1` under the given
    /// step inputs, applied in list order, and return the post-step
    /// snapshot.
    pub fn advance(&mut self, tick: Tick, step_inputs: &Vec<StepInput>) -> (r: Snapshot)
        requires
            tick == old(self).cur_tick,
            old(self).cur_tick < u64::MAX,
        ensures
            final(self).cur_tick == old(self).cur_tick + 1,
            final(self).characters@ == apply_inputs_spec(
                old(self).characters@,
                step_inputs@,
                old(self).dt_bits,
            ),
            final(self).rate_hz == old(self).rate_hz,
            final(self).dt_bits == old(self).dt_bits,
            final(self).next_entity_id == old(self).next_entity_id,
            final(self).seed == old(self).seed,
            r.tick == old(self).cur_tick + 1,
            r.entities@ == snapshots_of_characters(final(self).characters@),
            r.digest == world_digest(final(self).cur_tick, final(self).characters@),
            old(self).wf() ==> final(self).wf(),
    {
        let ghost chars0 = self.characters@;
        let ghost dt = self.dt_bits;
        let n = step_inputs.len();
        for i in 0..n
            invariant
                n == step_inputs@.len(),
                self.characters@ == apply_inputs_spec(
                    chars0,
                    step_inputs@.subrange(0, i as int),
                    dt,
                ),
                self.cur_tick == old(self).cur_tick,
                self.rate_hz == old(self).rate_hz,
                self.dt_bits == dt,
                self.next_entity_id == old(self).next_entity_id,
                self.seed == old(self).seed,
                old(self).cur_tick < u64::MAX,
        {
            self.apply_movement(&step_inputs[i]);
            proof {
                lemma_apply_inputs_snoc(chars0, step_inputs@.subrange(0, i as int), step_inputs@[i as int], dt);
                assert(step_inputs@.subrange(0, i as int).push(step_inputs@[i as int])
                    =~= step_inputs@.subrange(0, i + 1));
            }
        }
        proof {
            assert(step_inputs@.subrange(0, n as int) =~= step_inputs@);
        }
        self.cur_tick = self.cur_tick + 1;
        let entities = self.sorted_entity_snapshots();
        let digest = self.state_digest();
        proof {
            lemma_apply_inputs_preserves_ids(chars0, step_inputs@, dt);
        }
        Snapshot { tick: self.cur_tick, entities, digest }
    }
}

/// If the prefix before `idx` misses the player and `idx` hits, `idx` is
/// the found index.
proof fn lemma_find_player_first(chars: Seq<Character>, pid: PlayerId, idx: int)
    requires
        0 <= idx < chars.len(),
        chars[idx].player_id == pid,
        forall|j: int| 0 <= j < idx ==> chars[j].player_id != pid,
    ensures
        find_player_index(chars, pid) == Some(idx),
    decreases chars.len(),
{
    if idx == 0 {
    } else {
        lemma_find_player_first(chars.subrange(1, chars.len() as int), pid, idx - 1);
    }
}

/// Hashing a character's five 8-byte groups in sequence hashes its
/// digest bytes.
proof fn lemma_hash_character_chain(state: u64, c: Character)
    ensures
        fnv1a_seq(state, character_digest_bytes(c)) == fnv1a_seq(
            fnv1a_seq(
                fnv1a_seq(
                    fnv1a_seq(
                        fnv1a_seq(state, vstd::bytes::spec_u64_to_le_bytes(c.entity_id)),
                        vstd::bytes::spec_u64_to_le_bytes(canonicalize_f64_spec(c.position[0])),
                    ),
                    vstd::bytes::spec_u64_to_le_bytes(canonicalize_f64_spec(c.position[1])),
                ),
                vstd::bytes::spec_u64_to_le_bytes(canonicalize_f64_spec(c.velocity[0])),
            ),
            vstd::bytes::spec_u64_to_le_bytes(canonicalize_f64_spec(c.velocity[1])),
        ),
{
    let e = vstd::bytes::spec_u64_to_le_bytes(c.entity_id);
    let p0 = vstd::bytes::spec_u64_to_le_bytes(canonicalize_f64_spec(c.position[0]));
    let p1 = vstd::bytes::spec_u64_to_le_bytes(canonicalize_f64_spec(c.position[1]));
    let v0 = vstd::bytes::spec_u64_to_le_bytes(canonicalize_f64_spec(c.velocity[0]));
    let v1 = vstd::bytes::spec_u64_to_le_bytes(canonicalize_f64_spec(c.velocity[1]));
    lemma_fnv1a_seq_concat(state, e, p0 + p1 + v0 + v1);
    lemma_fnv1a_seq_concat(fnv1a_seq(state, e), p0, p1 + v0 + v1);
    lemma_fnv1a_seq_concat(fnv1a_seq(fnv1a_seq(state, e), p0), p1, v0 + v1);
    lemma_fnv1a_seq_concat(fnv1a_seq(fnv1a_seq(fnv1a_seq(state, e), p0), p1), v0, v1);
    assert(character_digest_bytes(c) =~= e + (p0 + p1 + v0 + v1));
    assert(p0 + p1 + v0 + v1 =~= p0 + (p1 + v0 + v1));
    assert(p1 + v0 + v1 =~= p1 + (v0 + v1));
}


/// Insert an input into a player-id-sorted list, after every element
/// whose player id is not greater (a stable insertion).
pub open spec fn insert_sorted_spec(s: Seq<StepInput>, x: StepInput) -> Seq<StepInput>
    decreases s.len(),
{
    if s.len() == 0 {
        seq![x]
    } else if s.last().player_id <= x.player_id {
        s.push(x)
    } else {
        insert_sorted_spec(s.drop_last(), x).push(s.last())
    }
}

/// Stable insertion sort of step inputs by player id ascending: the one
/// canonical order both the live path and the verifier use.
pub open spec fn sort_step_inputs_spec(s: Seq<StepInput>) -> Seq<StepInput>
    decreases s.len(),
{
    if s.len() == 0 {
        Seq::empty()
    } else {
        insert_sorted_spec(sort_step_inputs_spec(s.drop_last()), s.last())
    }
}

/// Inserting at the boundary position equals the spec insertion.
proof fn lemma_insert_sorted_at(s: Seq<StepInput>, x: StepInput, j: int)
    requires
        0 <= j <= s.len(),
        forall|k: int| j <= k < s.len() ==> s[k].player_id > x.player_id,
        j > 0 ==> s[j - 1].player_id <= x.player_id,
    ensures
        insert_sorted_spec(s, x) == s.subrange(0, j).push(x) + s.subrange(j, s.len() as int),
    decreases s.len(),
{
    if s.len() == 0 {
        assert(insert_sorted_spec(s, x) =~= s.subrange(0, j).push(x) + s.subrange(
            j,
            s.len() as int,
        ));
    } else if j == s.len() {
        assert(s.last().player_id <= x.player_id);
        assert(insert_sorted_spec(s, x) == s.push(x));
        assert(s.subrange(0, j) =~= s);
        assert(s.subrange(j, s.len() as int).len() == 0);
        assert(s.push(x) =~= s.subrange(0, j).push(x) + s.subrange(j, s.len() as int));
    } else {
        assert(s.last().player_id > x.player_id);
        lemma_insert_sorted_at(s.drop_last(), x, j);
        assert(s.drop_last().subrange(0, j) =~= s.subrange(0, j));
        assert(s.drop_last().subrange(j, s.len() - 1) =~= s.subrange(j, s.len() - 1));
        assert((s.subrange(0, j).push(x) + s.subrange(j, s.len() - 1)).push(s.last())
            =~= s.subrange(0, j).push(x) + s.subrange(j, s.len() as int));
    }
}

/// Sort step inputs by player id ascending, stably.
pub fn sort_step_inputs(v: &Vec<StepInput>) -> (r: Vec<StepInput>)
    ensures
        r@ == sort_step_inputs_spec(v@),
{
    let mut out: Vec<StepInput> = Vec::new();
    let n = v.len();
    for i in 0..n
        invariant
            n == v@.len(),
            out@ == sort_step_inputs_spec(v@.subrange(0, i as int)),
            out@.len() == i,
    {
        let x = v[i];
        let mut j: usize = out.len();
        while j > 0 && out[j - 1].player_id > x.player_id
            invariant
                0 <= j <= out@.len(),
                forall|k: int| j <= k < out@.len() ==> out@[k].player_id > x.player_id,
            decreases j,
        {
            j = j - 1;
        }
        let ghost out0 = out@;
        out.insert(j, x);
        proof {
            lemma_insert_sorted_at(out0, x, j as int);
            assert(out@ =~= out0.subrange(0, j as int).push(x) + out0.subrange(
                j as int,
                out0.len() as int,
            ));
            assert(v@.subrange(0, i + 1).drop_last() =~= v@.subrange(0, i as int));
            assert(v@.subrange(0, i + 1).last() == v@[i as int]);
            assert(out@ == insert_sorted_spec(out0, x));
        }
        proof {
            lemma_sort_len(v@.subrange(0, i + 1));
        }
    }
    proof {
        assert(v@.subrange(0, n as int) =~= v@);
    }
    out
}

/// The sorted list keeps the length.
pub proof fn lemma_sort_len(s: Seq<StepInput>)
    ensures
        sort_step_inputs_spec(s).len() == s.len(),
    decreases s.len(),
{
    if s.len() > 0 {
        lemma_sort_len(s.drop_last());
        lemma_insert_len(sort_step_inputs_spec(s.drop_last()), s.last());
    }
}

/// Insertion grows the list by one.
pub proof fn lemma_insert_len(s: Seq<StepInput>, x: StepInput)
    ensures
        insert_sorted_spec(s, x).len() == s.len() + 1,
    decreases s.len(),
{
    if s.len() > 0 && !(s.last().player_id <= x.player_id) {
        lemma_insert_len(s.drop_last(), x);
    }
}


/// Determinism of the kernel: the post-step character state and the
/// state digest of an advance are functions of the pre-step observable
/// state and the ordered input list alone, so two independent runs from
/// equal state under equal inputs agree bit for bit, tick after tick.
pub proof fn lemma_advance_deterministic(w1: World, w2: World, inputs: Seq<StepInput>)
    requires
        w1.cur_tick == w2.cur_tick,
        w1.characters@ == w2.characters@,
        w1.dt_bits == w2.dt_bits,
    ensures
        apply_inputs_spec(w1.characters@, inputs, w1.dt_bits) == apply_inputs_spec(
            w2.characters@,
            inputs,
            w2.dt_bits,
        ),
        world_digest(
            (w1.cur_tick + 1) as u64,
            apply_inputs_spec(w1.characters@, inputs, w1.dt_bits),
        ) == world_digest(
            (w2.cur_tick + 1) as u64,
            apply_inputs_spec(w2.characters@, inputs, w2.dt_bits),
        ),
        snapshots_of_characters(apply_inputs_spec(w1.characters@, inputs, w1.dt_bits))
            == snapshots_of_characters(apply_inputs_spec(w2.characters@, inputs, w2.dt_bits)),
{
}

/// Dense entity ids: spawning N characters yields entity ids 1..=N in
/// spawn order, whatever player ids were spawned and in whatever order.
/// In a well-formed world the i-th character holds entity id i+1.
pub proof fn lemma_spawn_ids_dense(w: World, i: int)
    requires
        w.wf(),
        0 <= i < w.characters@.len(),
    ensures
        w.characters@[i].entity_id == i + 1,
        1 <= w.characters@[i].entity_id <= w.characters@.len(),
{
}

} // verus!


