use flowstate::input_buffer::InputBuffer;
use flowstate::validation::{BufferResult, ValidationConfig};
use flowstate::wire::InputCmdProto;

fn b(x: f64) -> u64 {
    x.to_bits()
}

fn make_input(tick: u64, seq: u64, x: f64, y: f64) -> InputCmdProto {
    InputCmdProto { tick, input_seq: seq, move_dir: vec![b(x), b(y)] }
}

fn default_config() -> ValidationConfig {
    ValidationConfig { max_future_ticks: 120, input_rate_limit_per_sec: 120, tick_rate_hz: 60 }
}

#[test]
fn test_first_input_accepted() {
    let mut buffer = InputBuffer::new(default_config());
    let input = make_input(5, 1, 1.0, 0.0);

    let result = buffer.try_buffer(0, &input);
    assert_eq!(result, BufferResult::Accepted { clamped: false });
    assert!(buffer.has_entry(0, 5));
}

#[test]
fn test_higher_seq_replaces() {
    let mut buffer = InputBuffer::new(default_config());

    buffer.try_buffer(0, &make_input(5, 1, 1.0, 0.0));
    buffer.try_buffer(0, &make_input(5, 2, 0.0, 1.0));

    let taken = buffer.take_input(0, 5).unwrap();
    assert_eq!(taken.input_seq, 2);
    assert_eq!(taken.move_dir, vec![b(0.0), b(1.0)]);
}

#[test]
fn test_lower_seq_ignored() {
    let mut buffer = InputBuffer::new(default_config());

    buffer.try_buffer(0, &make_input(5, 5, 1.0, 0.0));
    buffer.try_buffer(0, &make_input(5, 3, 0.0, 1.0));

    let taken = buffer.take_input(0, 5).unwrap();
    assert_eq!(taken.input_seq, 5);
    assert_eq!(taken.move_dir, vec![b(1.0), b(0.0)]);
}

#[test]
fn test_equal_seq_causes_tie() {
    let mut buffer = InputBuffer::new(default_config());

    buffer.try_buffer(0, &make_input(5, 5, 1.0, 0.0));
    buffer.try_buffer(0, &make_input(5, 5, 0.0, 1.0));

    let taken = buffer.take_input(0, 5);
    assert!(taken.is_none());
}

#[test]
fn test_tie_cleared_by_higher_seq() {
    let config = ValidationConfig {
        max_future_ticks: 120,
        input_rate_limit_per_sec: 180,
        tick_rate_hz: 60,
    };
    let mut buffer = InputBuffer::new(config);

    buffer.try_buffer(0, &make_input(5, 5, 1.0, 0.0));
    buffer.try_buffer(0, &make_input(5, 5, 0.0, 1.0));

    buffer.try_buffer(0, &make_input(5, 8, 0.5, 0.5));

    let taken = buffer.take_input(0, 5).unwrap();
    assert_eq!(taken.input_seq, 8);
}

#[test]
fn test_rate_limiting() {
    let config = ValidationConfig {
        max_future_ticks: 120,
        input_rate_limit_per_sec: 120,
        tick_rate_hz: 60,
    };
    let mut buffer = InputBuffer::new(config);

    let mut accepted = 0;
    let mut dropped = 0;

    for seq in 1..=5 {
        let result = buffer.try_buffer(0, &make_input(5, seq, 1.0, 0.0));
        if result == BufferResult::RateLimited {
            dropped += 1;
        } else {
            accepted += 1;
        }
    }

    assert_eq!(accepted, 2);
    assert_eq!(dropped, 3);
}

#[test]
fn test_per_tick_limit_rounds_up() {
    let config = ValidationConfig {
        max_future_ticks: 120,
        input_rate_limit_per_sec: 125,
        tick_rate_hz: 60,
    };
    let buffer = InputBuffer::new(config);
    assert_eq!(buffer.per_tick_limit, 3);
}

#[test]
fn test_magnitude_clamping() {
    let mut buffer = InputBuffer::new(default_config());

    let input = make_input(5, 1, 2.0, 0.0);
    let result = buffer.try_buffer(0, &input);

    assert_eq!(result, BufferResult::Accepted { clamped: true });

    let taken = buffer.take_input(0, 5).unwrap();
    let x = f64::from_bits(taken.move_dir[0]);
    let y = f64::from_bits(taken.move_dir[1]);
    let mag = (x.powi(2) + y.powi(2)).sqrt();
    assert!((mag - 1.0).abs() < 1e-10);
}

#[test]
fn test_eviction() {
    let mut buffer = InputBuffer::new(default_config());

    buffer.try_buffer(0, &make_input(5, 1, 1.0, 0.0));
    buffer.try_buffer(0, &make_input(10, 1, 1.0, 0.0));
    buffer.try_buffer(0, &make_input(15, 1, 1.0, 0.0));

    buffer.evict_before(10);

    assert!(!buffer.has_entry(0, 5));
    assert!(buffer.has_entry(0, 10));
    assert!(buffer.has_entry(0, 15));
}

#[test]
fn test_t0_11_future_input_buffered() {
    let mut buffer = InputBuffer::new(default_config());

    buffer.try_buffer(0, &make_input(5, 1, 1.0, 0.0));

    assert!(buffer.has_entry(0, 5));

    assert!(buffer.take_input(0, 0).is_none());

    assert!(buffer.take_input(0, 5).is_some());
}

#[test]
fn test_t0_13_inputseq_tie_uses_lki() {
    let mut buffer = InputBuffer::new(default_config());

    buffer.try_buffer(0, &make_input(5, 10, 1.0, 0.0));
    buffer.try_buffer(0, &make_input(5, 10, 0.0, 1.0));

    let result = buffer.take_input(0, 5);
    assert!(result.is_none());
}
