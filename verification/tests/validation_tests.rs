use flowstate::input_buffer::InputBuffer;
use flowstate::validation::{validate_input, ValidationConfig, ValidationResult};
use flowstate::wire::InputCmdProto;

fn b(x: f64) -> u64 {
    x.to_bits()
}

fn default_config() -> ValidationConfig {
    ValidationConfig { max_future_ticks: 120, input_rate_limit_per_sec: 120, tick_rate_hz: 60 }
}

fn make_valid_input(tick: u64, seq: u64) -> InputCmdProto {
    InputCmdProto { tick, input_seq: seq, move_dir: vec![b(1.0), b(0.0)] }
}

#[test]
fn test_nan_rejection() {
    let mut buffer = InputBuffer::new(default_config());
    let input = InputCmdProto {
        tick: 5,
        input_seq: 1,
        move_dir: vec![f64::NAN.to_bits(), b(0.0)],
    };

    let result = validate_input(&input, 0, 0, &mut buffer, 0);
    assert_eq!(result, ValidationResult::DroppedNanInf);
}

#[test]
fn test_inf_rejection() {
    let mut buffer = InputBuffer::new(default_config());
    let input = InputCmdProto {
        tick: 5,
        input_seq: 1,
        move_dir: vec![b(0.0), f64::INFINITY.to_bits()],
    };

    let result = validate_input(&input, 0, 0, &mut buffer, 0);
    assert_eq!(result, ValidationResult::DroppedNanInf);
}

#[test]
fn test_below_floor_rejection() {
    let mut buffer = InputBuffer::new(default_config());
    let input = make_valid_input(5, 1);

    let result = validate_input(&input, 0, 10, &mut buffer, 0);
    assert!(matches!(result, ValidationResult::DroppedBelowFloor { .. }));
}

#[test]
fn test_late_rejection() {
    let mut buffer = InputBuffer::new(default_config());
    let input = make_valid_input(5, 1);

    let result = validate_input(&input, 10, 0, &mut buffer, 0);
    assert!(matches!(result, ValidationResult::DroppedLate { .. }));
}

#[test]
fn test_too_future_rejection() {
    let config = ValidationConfig {
        max_future_ticks: 10,
        input_rate_limit_per_sec: 120,
        tick_rate_hz: 60,
    };
    let mut buffer = InputBuffer::new(config);
    let input = make_valid_input(100, 1);

    let result = validate_input(&input, 0, 0, &mut buffer, 0);
    assert!(matches!(result, ValidationResult::DroppedTooFuture { .. }));
}

#[test]
fn test_future_window_boundary() {
    let config = ValidationConfig {
        max_future_ticks: 10,
        input_rate_limit_per_sec: 120,
        tick_rate_hz: 60,
    };
    let mut buffer = InputBuffer::new(config);

    // Exactly at current + max_future_ticks: accepted.
    let at_limit = make_valid_input(10, 1);
    let result = validate_input(&at_limit, 0, 0, &mut buffer, 0);
    assert!(result.is_accepted());

    // One past the window: dropped.
    let past_limit = make_valid_input(11, 2);
    let result = validate_input(&past_limit, 0, 0, &mut buffer, 0);
    assert!(matches!(result, ValidationResult::DroppedTooFuture { .. }));
}

#[test]
fn test_valid_input_accepted() {
    let mut buffer = InputBuffer::new(default_config());
    let input = make_valid_input(5, 1);

    let result = validate_input(&input, 0, 0, &mut buffer, 0);
    assert!(result.is_accepted());
}

#[test]
fn test_t0_07_malformed_inputs_no_crash() {
    let mut buffer = InputBuffer::new(default_config());

    let input1 = InputCmdProto { tick: 5, input_seq: 1, move_dir: vec![] };
    let _ = validate_input(&input1, 0, 0, &mut buffer, 0);

    let input2 = InputCmdProto { tick: 5, input_seq: 2, move_dir: vec![b(1.0)] };
    let _ = validate_input(&input2, 0, 0, &mut buffer, 0);

    let input3 = InputCmdProto {
        tick: 5,
        input_seq: 3,
        move_dir: vec![f64::NAN.to_bits(), f64::NAN.to_bits()],
    };
    let _ = validate_input(&input3, 0, 0, &mut buffer, 0);

    let input4 = InputCmdProto {
        tick: 5,
        input_seq: 4,
        move_dir: vec![f64::NEG_INFINITY.to_bits(), f64::NEG_INFINITY.to_bits()],
    };
    let _ = validate_input(&input4, 0, 0, &mut buffer, 0);

    let input5 = InputCmdProto {
        tick: 5,
        input_seq: 5,
        move_dir: vec![b(1e308), b(1e308)],
    };
    let _ = validate_input(&input5, 0, 0, &mut buffer, 0);
}
