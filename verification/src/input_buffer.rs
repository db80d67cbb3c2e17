//! Input buffering for the server edge.
//!
//! One slot per (player, tick). Within a slot the greatest input
//! sequence number wins; an exact tie marks the slot tied, and a tied
//! slot yields nothing (the orchestrator falls back to last known
//! intent). Admissions per slot are rate-limited, and the selected
//! direction is clamped to unit magnitude on admission.

use vstd::prelude::*;

use crate::fp::{f64_add, f64_add_bits, f64_bits_gt, f64_div, f64_div_bits, f64_gt_bits, f64_mul,
    f64_mul_bits, f64_sqrt, f64_sqrt_bits, F64_ONE};
use crate::sim::{PlayerId, Tick};
use crate::validation::{BufferResult, ValidationConfig};
use crate::wire::{InputCmdProto, InputCmdProtoV};

verus! {

/// One buffered slot: the winning command so far for (player, tick).
pub struct BufferSlot {
    /// The player this slot belongs to.
    pub player_id: PlayerId,
    /// The tick this slot targets (same as `selected.tick`).
    pub tick: Tick,
    /// Selected command: the one with the greatest sequence number so far.
    pub selected: InputCmdProto,
    /// Greatest input sequence number observed.
    pub max_input_seq: u64,
    /// Whether the greatest sequence number was observed more than once.
    pub max_seq_tied: bool,
    /// Inputs received for this slot.
    pub receive_count: u32,
}

/// The model of a buffered slot.
pub struct BufferSlotV {
    pub player_id: PlayerId,
    pub tick: Tick,
    pub selected: InputCmdProtoV,
    pub max_input_seq: u64,
    pub max_seq_tied: bool,
    pub receive_count: u32,
}

impl View for BufferSlot {
    type V = BufferSlotV;

    open spec fn view(&self) -> BufferSlotV {
        BufferSlotV {
            player_id: self.player_id,
            tick: self.tick,
            selected: self.selected@,
            max_input_seq: self.max_input_seq,
            max_seq_tied: self.max_seq_tied,
            receive_count: self.receive_count,
        }
    }
}

/// The squared magnitude of a two-component direction, as the kernel and
/// the buffer both compute it.
pub open spec fn mag_sq_bits(x: u64, y: u64) -> u64 {
    f64_add(f64_mul(x, x), f64_mul(y, y))
}

/// Whether a direction needs clamping: exactly two components and a
/// squared magnitude IEEE-greater than one.
pub open spec fn needs_clamp_spec(v: Seq<u64>) -> bool {
    v.len() == 2 && f64_bits_gt(mag_sq_bits(v[0], v[1]), F64_ONE)
}

/// The direction after the buffer's in-place clamp: both components
/// divided by the magnitude.
pub open spec fn clamp_move_dir_spec(v: Seq<u64>) -> Seq<u64> {
    if needs_clamp_spec(v) {
        let mag = f64_sqrt(mag_sq_bits(v[0], v[1]));
        seq![f64_div(v[0], mag), f64_div(v[1], mag)]
    } else {
        v
    }
}

/// Whether the direction's magnitude exceeds one (two components only).
pub fn needs_magnitude_clamp(v: &Vec<u64>) -> (r: bool)
    ensures
        r == needs_clamp_spec(v@),
{
    if v.len() != 2 {
        return false;
    }
    let mag_sq = f64_add_bits(f64_mul_bits(v[0], v[0]), f64_mul_bits(v[1], v[1]));
    f64_gt_bits(mag_sq, F64_ONE)
}

/// Clamp the direction to unit magnitude, as the buffer does.
pub fn clamp_magnitude(v: &Vec<u64>) -> (r: Vec<u64>)
    ensures
        r@ == clamp_move_dir_spec(v@),
{
    if !needs_magnitude_clamp(v) {
        let mut out: Vec<u64> = Vec::new();
        let n = v.len();
        for i in 0..n
            invariant
                n == v@.len(),
                out@ == v@.subrange(0, i as int),
        {
            out.push(v[i]);
            assert(out@ =~= v@.subrange(0, i + 1));
        }
        proof {
            assert(v@.subrange(0, n as int) =~= v@);
        }
        out
    } else {
        let mag = f64_sqrt_bits(f64_add_bits(f64_mul_bits(v[0], v[0]), f64_mul_bits(v[1], v[1])));
        let mut out: Vec<u64> = Vec::new();
        out.push(f64_div_bits(v[0], mag));
        out.push(f64_div_bits(v[1], mag));
        proof {
            assert(out@ =~= clamp_move_dir_spec(v@));
        }
        out
    }
}

/// First slot index for (player, tick), if any.
pub open spec fn find_slot(slots: Seq<BufferSlotV>, pid: PlayerId, tick: Tick) -> Option<int>
    decreases slots.len(),
{
    if slots.len() == 0 {
        None
    } else if slots[0].player_id == pid && slots[0].tick == tick {
        Some(0)
    } else {
        match find_slot(slots.subrange(1, slots.len() as int), pid, tick) {
            Some(i) => Some(i + 1),
            None => None,
        }
    }
}

/// A found slot index is in range and matches; `None` means no match.
pub proof fn lemma_find_slot(slots: Seq<BufferSlotV>, pid: PlayerId, tick: Tick)
    ensures
        match find_slot(slots, pid, tick) {
            Some(i) => 0 <= i < slots.len() && slots[i].player_id == pid && slots[i].tick
                == tick,
            None => forall|i: int|
                0 <= i < slots.len() ==> !(slots[i].player_id == pid && slots[i].tick == tick),
        },
    decreases slots.len(),
{
    if slots.len() > 0 {
        let rest = slots.subrange(1, slots.len() as int);
        lemma_find_slot(rest, pid, tick);
        if !(slots[0].player_id == pid && slots[0].tick == tick) {
            match find_slot(rest, pid, tick) {
                Some(i) => {
                    assert(rest[i] == slots[i + 1]);
                },
                None => {
                    assert forall|i: int|
                        0 <= i < slots.len() implies !(slots[i].player_id == pid
                        && slots[i].tick == tick) by {
                        if i > 0 {
                            assert(rest[i - 1] == slots[i]);
                        }
                    }
                },
            }
        }
    }
}

/// The slot after one admission: rate check, sequence selection, clamp.
pub open spec fn admit_to_slot_spec(e: BufferSlotV, input: InputCmdProtoV) -> BufferSlotV {
    let e1 = BufferSlotV { receive_count: (e.receive_count + 1) as u32, ..e };
    let e2 = if input.input_seq > e1.max_input_seq {
        BufferSlotV { selected: input, max_input_seq: input.input_seq, max_seq_tied: false, ..e1 }
    } else if input.input_seq == e1.max_input_seq {
        BufferSlotV { max_seq_tied: true, ..e1 }
    } else {
        e1
    };
    BufferSlotV {
        selected: InputCmdProtoV {
            move_dir: clamp_move_dir_spec(e2.selected.move_dir),
            ..e2.selected
        },
        ..e2
    }
}

/// A fresh slot for the first admitted input.
pub open spec fn fresh_slot_spec(pid: PlayerId, input: InputCmdProtoV) -> BufferSlotV {
    BufferSlotV {
        player_id: pid,
        tick: input.tick,
        selected: InputCmdProtoV { move_dir: clamp_move_dir_spec(input.move_dir), ..input },
        max_input_seq: input.input_seq,
        max_seq_tied: false,
        receive_count: 1u32,
    }
}

/// The buffer transition for one admission attempt: the new slots and
/// the result handed back to validation.
pub open spec fn try_buffer_spec(
    slots: Seq<BufferSlotV>,
    limit: u32,
    pid: PlayerId,
    input: InputCmdProtoV,
) -> (Seq<BufferSlotV>, BufferResult) {
    match find_slot(slots, pid, input.tick) {
        Some(i) => {
            if slots[i].receive_count >= limit {
                (slots, BufferResult::RateLimited)
            } else {
                let e2 = admit_to_slot_spec(slots[i], input);
                (
                    slots.update(i, e2),
                    BufferResult::Accepted {
                        clamped: needs_clamp_spec(
                            (if input.input_seq > slots[i].max_input_seq {
                                input.move_dir
                            } else {
                                slots[i].selected.move_dir
                            }),
                        ),
                    },
                )
            }
        },
        None => (
            slots.push(fresh_slot_spec(pid, input)),
            BufferResult::Accepted { clamped: needs_clamp_spec(input.move_dir) },
        ),
    }
}

/// Per-tick ceiling of the rate limit: ceil(per second / tick rate).
pub open spec fn per_tick_limit_spec(rate: u32, hz: u32) -> u32
    recommends
        hz > 0,
{
    if rate % hz == 0 {
        (rate / hz) as u32
    } else {
        (rate / hz + 1) as u32
    }
}

/// Input buffer for the server edge: one slot per (player, tick).
pub struct InputBuffer {
    /// Validation configuration the buffer was made with.
    pub config: ValidationConfig,
    /// Buffered slots, in order of first admission.
    pub entries: Vec<BufferSlot>,
    /// Per-tick admission limit: ceil(input_rate_limit_per_sec / tick_rate_hz).
    pub per_tick_limit: u32,
}

impl InputBuffer {
    /// The buffer's slot models, in order.
    pub open spec fn slots(&self) -> Seq<BufferSlotV> {
        self.entries@.map_values(|s: BufferSlot| s@)
    }

    /// Create a new input buffer.
    pub fn new(config: ValidationConfig) -> (r: Self)
        requires
            config.tick_rate_hz > 0,
        ensures
            r.config == config,
            r.per_tick_limit == per_tick_limit_spec(
                config.input_rate_limit_per_sec,
                config.tick_rate_hz,
            ),
            r.slots() == Seq::<BufferSlotV>::empty(),
    {
        let rate = config.input_rate_limit_per_sec;
        let hz = config.tick_rate_hz;
        let per_tick_limit: u32 = if rate % hz == 0 {
            rate / hz
        } else {
            proof {
                assert(rate / hz + 1 <= u32::MAX) by (nonlinear_arith)
                    requires
                        hz > 0,
                        rate % hz != 0,
                        rate <= u32::MAX,
                ;
            }
            rate / hz + 1
        };
        let r = InputBuffer { config, entries: Vec::new(), per_tick_limit };
        proof {
            assert(r.slots() =~= Seq::<BufferSlotV>::empty());
        }
        r
    }

    /// The configuration the buffer was made with.
    pub fn config(&self) -> (r: &ValidationConfig)
        ensures
            r == self.config,
    {
        &self.config
    }

    /// Try to buffer an input for the player, applying rate limiting,
    /// sequence selection and magnitude clamping.
    pub fn try_buffer(&mut self, player_id: PlayerId, input: &InputCmdProto) -> (r: BufferResult)
        ensures
            final(self).config == old(self).config,
            final(self).per_tick_limit == old(self).per_tick_limit,
            (final(self).slots(), r) == try_buffer_spec(
                old(self).slots(),
                old(self).per_tick_limit,
                player_id,
                input@,
            ),
    {
        proof {
            lemma_find_slot(self.slots(), player_id, input@.tick);
        }
        let n = self.entries.len();
        let mut idx: usize = 0;
        let mut found: bool = false;
        while idx < n && !found
            invariant
                n == self.entries@.len(),
                0 <= idx <= n,
                found ==> idx < n && find_slot(self.slots(), player_id, input@.tick) == Some(
                    idx as int,
                ),
                !found ==> forall|j: int|
                    0 <= j < idx ==> !(self.slots()[j].player_id == player_id
                        && self.slots()[j].tick == input@.tick),
            decreases n - idx + (if found { 0int } else { 1int }),
        {
            if self.entries[idx].player_id == player_id && self.entries[idx].tick == input.tick {
                found = true;
                proof {
                    lemma_find_slot_first(self.slots(), player_id, input@.tick, idx as int);
                }
            } else {
                idx = idx + 1;
            }
        }
        if !found {
            let clamped = needs_magnitude_clamp(&input.move_dir);
            let move_dir = clamp_magnitude(&input.move_dir);
            let slot = BufferSlot {
                player_id,
                tick: input.tick,
                selected: InputCmdProto { tick: input.tick, input_seq: input.input_seq, move_dir },
                max_input_seq: input.input_seq,
                max_seq_tied: false,
                receive_count: 1,
            };
            self.entries.push(slot);
            proof {
                assert(self.slots() =~= old(self).slots().push(
                    fresh_slot_spec(player_id, input@),
                ));
            }
            return BufferResult::Accepted { clamped };
        }
        let count = self.entries[idx].receive_count;
        if count >= self.per_tick_limit {
            return BufferResult::RateLimited;
        }
        let cur_max = self.entries[idx].max_input_seq;
        let cur_tied = self.entries[idx].max_seq_tied;
        let (sel_tick, sel_seq, sel_dir, new_max, new_tied): (u64, u64, Vec<u64>, u64, bool) = if
            input.input_seq > cur_max {
            let dir = copy_dir(&input.move_dir);
            (input.tick, input.input_seq, dir, input.input_seq, false)
        } else if input.input_seq == cur_max {
            let dir = copy_dir(&self.entries[idx].selected.move_dir);
            (
                self.entries[idx].selected.tick,
                self.entries[idx].selected.input_seq,
                dir,
                cur_max,
                true,
            )
        } else {
            let dir = copy_dir(&self.entries[idx].selected.move_dir);
            (
                self.entries[idx].selected.tick,
                self.entries[idx].selected.input_seq,
                dir,
                cur_max,
                cur_tied,
            )
        };
        let clamped = needs_magnitude_clamp(&sel_dir);
        let clamped_dir = clamp_magnitude(&sel_dir);
        let slot = BufferSlot {
            player_id,
            tick: self.entries[idx].tick,
            selected: InputCmdProto { tick: sel_tick, input_seq: sel_seq, move_dir: clamped_dir },
            max_input_seq: new_max,
            max_seq_tied: new_tied,
            receive_count: count + 1,
        };
        self.entries.set(idx, slot);
        proof {
            let e2 = admit_to_slot_spec(old(self).slots()[idx as int], input@);
            assert(slot@ == e2);
            assert(self.slots() =~= old(self).slots().update(idx as int, e2));
        }
        BufferResult::Accepted { clamped }
    }

    /// Take the selected input for (player, tick), removing the slot.
    /// `None` when no slot exists or the sequence number was tied: the
    /// caller then falls back to last known intent.
    pub fn take_input(&mut self, player_id: PlayerId, tick: Tick) -> (r: Option<InputCmdProto>)
        ensures
            final(self).config == old(self).config,
            final(self).per_tick_limit == old(self).per_tick_limit,
            match find_slot(old(self).slots(), player_id, tick) {
                None => final(self).slots() == old(self).slots() && r is None,
                Some(i) => {
                    &&& final(self).slots() == old(self).slots().remove(i)
                    &&& if old(self).slots()[i].max_seq_tied {
                        r is None
                    } else {
                        r matches Some(cmd) && cmd@ == old(self).slots()[i].selected
                    }
                },
            },
    {
        proof {
            lemma_find_slot(self.slots(), player_id, tick);
        }
        let n = self.entries.len();
        let mut idx: usize = 0;
        let mut found: bool = false;
        while idx < n && !found
            invariant
                n == self.entries@.len(),
                0 <= idx <= n,
                found ==> idx < n && find_slot(self.slots(), player_id, tick) == Some(idx as int),
                !found ==> forall|j: int|
                    0 <= j < idx ==> !(self.slots()[j].player_id == player_id
                        && self.slots()[j].tick == tick),
            decreases n - idx + (if found { 0int } else { 1int }),
        {
            if self.entries[idx].player_id == player_id && self.entries[idx].tick == tick {
                found = true;
                proof {
                    lemma_find_slot_first(self.slots(), player_id, tick, idx as int);
                }
            } else {
                idx = idx + 1;
            }
        }
        if !found {
            return None;
        }
        let slot = self.entries.remove(idx);
        proof {
            assert(self.slots() =~= old(self).slots().remove(idx as int));
        }
        if slot.max_seq_tied {
            None
        } else {
            Some(slot.selected)
        }
    }

    /// Evict every slot targeting a tick before the given one.
    pub fn evict_before(&mut self, tick: Tick)
        ensures
            final(self).config == old(self).config,
            final(self).per_tick_limit == old(self).per_tick_limit,
            final(self).slots() == old(self).slots().filter(|s: BufferSlotV| s.tick >= tick),
    {
        let mut kept: Vec<BufferSlot> = Vec::new();
        let n = self.entries.len();
        let mut i: usize = 0;
        while i < n
            invariant
                n == self.entries@.len(),
                0 <= i <= n,
                self.entries@ == old(self).entries@,
                kept@.map_values(|s: BufferSlot| s@) == self.slots().subrange(0, i as int).filter(
                    |s: BufferSlotV| s.tick >= tick,
                ),
            decreases n - i,
        {
            proof {
                lemma_slots_filter_push(
                    self.slots().subrange(0, i as int),
                    self.slots()[i as int],
                    |s: BufferSlotV| s.tick >= tick,
                );
                assert(self.slots().subrange(0, i + 1) =~= self.slots().subrange(
                    0,
                    i as int,
                ).push(self.slots()[i as int]));
            }
            if self.entries[i].tick >= tick {
                let slot = take_slot(&self.entries, i);
                kept.push(slot);
                proof {
                    assert(kept@.map_values(|s: BufferSlot| s@) =~= self.slots().subrange(
                        0,
                        i + 1,
                    ).filter(|s: BufferSlotV| s.tick >= tick));
                }
            } else {
                proof {
                    assert(kept@.map_values(|s: BufferSlot| s@) =~= self.slots().subrange(
                        0,
                        i + 1,
                    ).filter(|s: BufferSlotV| s.tick >= tick));
                }
            }
            i = i + 1;
        }
        proof {
            assert(self.slots().subrange(0, n as int) =~= self.slots());
        }
        self.entries = kept;
    }

    /// Whether a slot exists for (player, tick).
    pub fn has_entry(&self, player_id: PlayerId, tick: Tick) -> (r: bool)
        ensures
            r == (find_slot(self.slots(), player_id, tick) is Some),
    {
        proof {
            lemma_find_slot(self.slots(), player_id, tick);
        }
        let n = self.entries.len();
        let mut i: usize = 0;
        while i < n
            invariant
                n == self.entries@.len(),
                0 <= i <= n,
                forall|j: int|
                    0 <= j < i ==> !(self.slots()[j].player_id == player_id
                        && self.slots()[j].tick == tick),
            decreases n - i,
        {
            if self.entries[i].player_id == player_id && self.entries[i].tick == tick {
                proof {
                    lemma_find_slot_first(self.slots(), player_id, tick, i as int);
                }
                return true;
            }
            i = i + 1;
        }
        return false;
    }
}

/// Copy a direction vector.
fn copy_dir(v: &Vec<u64>) -> (r: Vec<u64>)
    ensures
        r@ == v@,
{
    let mut out: Vec<u64> = Vec::new();
    let n = v.len();
    for i in 0..n
        invariant
            n == v@.len(),
            out@ == v@.subrange(0, i as int),
    {
        out.push(v[i]);
        assert(out@ =~= v@.subrange(0, i + 1));
    }
    proof {
        assert(v@.subrange(0, n as int) =~= v@);
    }
    out
}

/// Duplicate the slot at an index.
fn take_slot(entries: &Vec<BufferSlot>, i: usize) -> (r: BufferSlot)
    requires
        i < entries@.len(),
    ensures
        r@ == entries@[i as int]@,
{
    let e = &entries[i];
    BufferSlot {
        player_id: e.player_id,
        tick: e.tick,
        selected: InputCmdProto {
            tick: e.selected.tick,
            input_seq: e.selected.input_seq,
            move_dir: copy_dir(&e.selected.move_dir),
        },
        max_input_seq: e.max_input_seq,
        max_seq_tied: e.max_seq_tied,
        receive_count: e.receive_count,
    }
}

/// Filtering one more element keeps it exactly when it satisfies the
/// predicate.
proof fn lemma_slots_filter_push(s: Seq<BufferSlotV>, e: BufferSlotV, pred: spec_fn(BufferSlotV) -> bool)
    ensures
        s.push(e).filter(pred) == (if pred(e) {
            s.filter(pred).push(e)
        } else {
            s.filter(pred)
        }),
{
    reveal(Seq::filter);
    assert(s.push(e).drop_last() =~= s);
    assert(s.push(e).last() == e);
}

/// If the earlier slots miss and this one matches, it is the found one.
proof fn lemma_find_slot_first(slots: Seq<BufferSlotV>, pid: PlayerId, tick: Tick, idx: int)
    requires
        0 <= idx < slots.len(),
        slots[idx].player_id == pid && slots[idx].tick == tick,
        forall|j: int| 0 <= j < idx ==> !(slots[j].player_id == pid && slots[j].tick == tick),
    ensures
        find_slot(slots, pid, tick) == Some(idx),
    decreases slots.len(),
{
    if idx == 0 {
    } else {
        lemma_find_slot_first(slots.subrange(1, slots.len() as int), pid, tick, idx - 1);
    }
}

} // verus!
