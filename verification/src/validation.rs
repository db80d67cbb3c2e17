//! Input validation for the server edge.
//!
//! The pipeline, first failure short-circuiting: malformed or non-finite
//! direction, tick below the session's floor, tick late, tick too far in
//! the future, then buffering (which may rate-limit or clamp).

use vstd::prelude::*;

use crate::fp::{f64_bits_is_infinite, f64_bits_is_nan, f64_is_infinite_bits, f64_is_nan_bits};
use crate::input_buffer::{try_buffer_spec, InputBuffer};
use crate::sim::{PlayerId, Tick};
use crate::wire::InputCmdProto;

verus! {

/// Validation configuration.
#[derive(Clone, Copy, Debug, PartialEq, Eq, Structural)]
pub struct ValidationConfig {
    pub max_future_ticks: u64,
    pub input_rate_limit_per_sec: u32,
    pub tick_rate_hz: u32,
}

impl Default for ValidationConfig {
    /// The normative defaults: a 120-tick future window, 120 inputs per
    /// second, 60 Hz.
    fn default() -> (r: Self)
        ensures
            r == (ValidationConfig {
                max_future_ticks: 120u64,
                input_rate_limit_per_sec: 120u32,
                tick_rate_hz: 60u32,
            }),
    {
        ValidationConfig { max_future_ticks: 120, input_rate_limit_per_sec: 120, tick_rate_hz: 60 }
    }
}

/// Result of input validation.
#[derive(Clone, Copy, Debug, PartialEq, Eq, Structural)]
pub enum ValidationResult {
    /// Input accepted and buffered.
    Accepted,
    /// Input accepted with its magnitude clamped.
    AcceptedWithClamp,
    /// Dropped: NaN or infinity in the direction, or not two components.
    DroppedNanInf,
    /// Dropped: tick below the target tick floor.
    DroppedBelowFloor { tick: Tick, floor: Tick },
    /// Dropped: tick below the current tick.
    DroppedLate { tick: Tick, current: Tick },
    /// Dropped: tick too far in the future.
    DroppedTooFuture { tick: Tick, max: Tick },
    /// Dropped: rate limit exceeded.
    DroppedRateLimit,
    /// Dropped: tied input sequence number for this player and tick.
    DroppedInputSeqTie,
    /// Dropped: received before the server welcome.
    DroppedPreWelcome,
    /// Dropped: unknown session.
    DroppedUnknownSession,
}

impl ValidationResult {
    /// Whether the input was admitted into the buffer.
    pub fn is_accepted(&self) -> (r: bool)
        ensures
            r == (*self is Accepted || *self is AcceptedWithClamp),
    {
        match self {
            Self::Accepted | Self::AcceptedWithClamp => true,
            _ => false,
        }
    }
}

/// Result of attempting to buffer an input.
#[derive(Clone, Copy, Debug, PartialEq, Eq, Structural)]
pub enum BufferResult {
    Accepted { clamped: bool },
    RateLimited,
    InputSeqTie,
}

/// A direction component is malformed when it is NaN or infinite.
pub open spec fn bad_component(b: u64) -> bool {
    f64_bits_is_nan(b) || f64_bits_is_infinite(b)
}

/// The whole direction is malformed when it is not two components or any
/// component is NaN or infinite.
pub open spec fn bad_move_dir(v: Seq<u64>) -> bool {
    v.len() != 2 || bad_component(v[0]) || bad_component(v[1])
}

/// What validation decides for an input, before the buffering step:
/// `None` means the input reaches the buffer.
pub open spec fn validate_precheck_spec(
    input: crate::wire::InputCmdProtoV,
    current_tick: Tick,
    target_tick_floor: Tick,
    max_future_ticks: u64,
) -> Option<ValidationResult> {
    if bad_move_dir(input.move_dir) {
        Some(ValidationResult::DroppedNanInf)
    } else if input.tick < target_tick_floor {
        Some(
            ValidationResult::DroppedBelowFloor { tick: input.tick, floor: target_tick_floor },
        )
    } else if input.tick < current_tick {
        Some(ValidationResult::DroppedLate { tick: input.tick, current: current_tick })
    } else if input.tick > current_tick + max_future_ticks {
        Some(
            ValidationResult::DroppedTooFuture {
                tick: input.tick,
                max: (current_tick + max_future_ticks) as u64,
            },
        )
    } else {
        None
    }
}

/// The validation result when the buffer has decided.
pub open spec fn buffer_result_to_validation(r: BufferResult) -> ValidationResult {
    match r {
        BufferResult::Accepted { clamped } => if clamped {
            ValidationResult::AcceptedWithClamp
        } else {
            ValidationResult::Accepted
        },
        BufferResult::RateLimited => ValidationResult::DroppedRateLimit,
        BufferResult::InputSeqTie => ValidationResult::DroppedInputSeqTie,
    }
}

/// Validate an input command bound to `player_id`, buffering it when it
/// passes every check. The buffer changes exactly when the input reaches
/// it and is not rate-limited.
pub fn validate_input(
    input: &InputCmdProto,
    current_tick: Tick,
    target_tick_floor: Tick,
    buffer: &mut InputBuffer,
    player_id: PlayerId,
) -> (r: ValidationResult)
    requires
        current_tick + old(buffer).config.max_future_ticks <= u64::MAX,
    ensures
        final(buffer).config == old(buffer).config,
        final(buffer).per_tick_limit == old(buffer).per_tick_limit,
        match validate_precheck_spec(
            input@,
            current_tick,
            target_tick_floor,
            old(buffer).config.max_future_ticks,
        ) {
            Some(dropped) => r == dropped && final(buffer).slots() == old(buffer).slots(),
            None => {
                let (slots2, br) = try_buffer_spec(
                    old(buffer).slots(),
                    old(buffer).per_tick_limit,
                    player_id,
                    input@,
                );
                r == buffer_result_to_validation(br) && final(buffer).slots() == slots2
            },
        },
{
    if input.move_dir.len() != 2 {
        return ValidationResult::DroppedNanInf;
    }
    let x = input.move_dir[0];
    let y = input.move_dir[1];
    if f64_is_nan_bits(x) || f64_is_infinite_bits(x) || f64_is_nan_bits(y) || f64_is_infinite_bits(
        y,
    ) {
        return ValidationResult::DroppedNanInf;
    }
    if input.tick < target_tick_floor {
        return ValidationResult::DroppedBelowFloor { tick: input.tick, floor: target_tick_floor };
    }
    if input.tick < current_tick {
        return ValidationResult::DroppedLate { tick: input.tick, current: current_tick };
    }
    let max_tick = current_tick + buffer.config.max_future_ticks;
    if input.tick > max_tick {
        return ValidationResult::DroppedTooFuture { tick: input.tick, max: max_tick };
    }
    match buffer.try_buffer(player_id, input) {
        BufferResult::Accepted { clamped } => if clamped {
            ValidationResult::AcceptedWithClamp
        } else {
            ValidationResult::Accepted
        },
        BufferResult::RateLimited => ValidationResult::DroppedRateLimit,
        BufferResult::InputSeqTie => ValidationResult::DroppedInputSeqTie,
    }
}

} // verus!
