use agent_resume::clock::timestamp;
use agent_resume::{Checkpoint, ResumeError};
use serde_json::Value;
use std::time::{Duration, SystemTime, UNIX_EPOCH};

fn nested(levels: usize) -> Value {
    let mut value = Value::from(1u64);
    for _ in 0..levels {
        value = Value::from(vec![value]);
    }
    value
}

fn with_state(value: Value) -> Checkpoint {
    let mut state = serde_json::Map::new();
    state.insert("v".to_string(), value);
    Checkpoint { turn: 1, state, completed_items: vec![], timestamp: Value::from(0.5) }
}

#[test]
fn checkpoint_to_from_json() {
    let mut m = serde_json::Map::new();
    m.insert("x".to_string(), Value::from(1));
    let ckpt = Checkpoint {
        turn: 3,
        state: m,
        completed_items: vec![Value::from(0)],
        timestamp: Value::from(42.0),
    };
    let line = ckpt.to_json();
    let restored = Checkpoint::from_json(&line).unwrap();
    assert_eq!(restored.turn, 3);
    assert_eq!(restored.state["x"], Value::from(1));
    assert_eq!(restored.completed_items, vec![Value::from(0)]);
    assert_eq!(restored, ckpt);
}

#[test]
fn checkpoint_json_roundtrip_via_public_api() {
    let mut state = serde_json::Map::new();
    state.insert("phase".to_string(), Value::from("retrieval"));
    let ckpt = Checkpoint::new(7, state, vec![Value::from("doc-1"), Value::from("doc-2")]);

    let line = ckpt.to_json();
    assert!(!line.contains('\n'), "JSONL line must be single-line");

    let restored = Checkpoint::from_json(&line).unwrap();
    assert_eq!(restored.turn, 7);
    assert_eq!(restored.state["phase"], Value::from("retrieval"));
    assert_eq!(restored.completed_items, vec![Value::from("doc-1"), Value::from("doc-2")]);
}

#[test]
fn checkpoint_from_json_bad() {
    assert!(matches!(Checkpoint::from_json("not json"), Err(ResumeError::Json(_))));
}

#[test]
fn a_row_is_written_as_one_object() {
    let mut state = serde_json::Map::new();
    state.insert("x".to_string(), Value::from(1));
    let ckpt = Checkpoint {
        turn: 3,
        state,
        completed_items: vec![Value::from(0), Value::from("a")],
        timestamp: Value::from(42.0),
    };
    assert_eq!(
        ckpt.to_json(),
        "{\"completed_items\":[0,\"a\"],\"state\":{\"x\":1},\"timestamp\":42.0,\"turn\":3}"
    );
}

#[test]
fn control_characters_are_escaped() {
    let ckpt = with_state(Value::from("two\nlines\u{1}"));
    let line = ckpt.to_json();
    assert!(line.chars().all(|c| c >= ' '));
    assert_eq!(Checkpoint::from_json(&line).unwrap().state["v"], Value::from("two\nlines\u{1}"));
}

#[test]
fn missing_fields_are_empty() {
    let ckpt = Checkpoint::from_json("{\"turn\":9}").unwrap();
    assert_eq!(ckpt.turn, 9);
    assert!(ckpt.state.is_empty());
    assert!(ckpt.completed_items.is_empty());
    assert_eq!(ckpt.timestamp, Value::from(0.0));
}

#[test]
fn fields_of_another_kind_are_empty() {
    let raw = "{\"turn\":9,\"state\":[1],\"completed_items\":{\"a\":1},\"timestamp\":\"now\"}";
    let ckpt = Checkpoint::from_json(raw).unwrap();
    assert!(ckpt.state.is_empty());
    assert!(ckpt.completed_items.is_empty());
    assert_eq!(ckpt.timestamp, Value::from(0.0));
}

#[test]
fn an_integer_timestamp_becomes_a_float() {
    let ckpt = Checkpoint::from_json("{\"turn\":1,\"timestamp\":17}").unwrap();
    assert_eq!(ckpt.timestamp, Value::from(17.0));
    let ckpt = Checkpoint::from_json("{\"turn\":1,\"timestamp\":-2.5}").unwrap();
    assert_eq!(ckpt.timestamp, Value::from(-2.5));
}

#[test]
fn a_row_needs_a_turn() {
    assert!(Checkpoint::try_from_json("{}").is_none());
    assert!(Checkpoint::try_from_json("null").is_none());
    assert!(Checkpoint::try_from_json("{\"turn\":-1}").is_none());
    assert!(Checkpoint::try_from_json("{\"turn\":1.0}").is_none());
    assert!(Checkpoint::try_from_json("[{\"turn\":1}]").is_none());
    assert!(matches!(Checkpoint::try_from_json("{"), Some(Err(ResumeError::Json(_)))));
    assert_eq!(Checkpoint::try_from_json("{\"turn\":4}").unwrap().unwrap().turn, 4);
    assert!(Checkpoint::from_value(&Value::Null).is_none());
}

#[test]
fn the_largest_turn_comes_back() {
    let ckpt = Checkpoint::new(u64::MAX, serde_json::Map::new(), vec![]);
    assert_eq!(Checkpoint::from_json(&ckpt.to_json()).unwrap().turn, u64::MAX);
}

#[test]
fn numbers_without_fraction_come_back() {
    for value in [
        Value::from(0u64),
        Value::from(u64::MAX),
        Value::from(i64::MIN),
        Value::from(-1),
    ] {
        let line = with_state(value.clone()).to_json();
        assert_eq!(Checkpoint::from_json(&line).unwrap().state["v"], value);
    }
}

#[test]
fn nesting_has_a_limit() {
    let line = with_state(nested(125)).to_json();
    assert_eq!(Checkpoint::from_json(&line).unwrap().state["v"], nested(125));
    let line = with_state(nested(126)).to_json();
    assert!(matches!(Checkpoint::from_json(&line), Err(ResumeError::Json(_))));
}

#[test]
fn a_float_of_moderate_size_is_read_again() {
    let large = f64::from_bits(0x7E6F_FFFF_FFFF_FFFF);
    for x in [0.1, -0.0, 1.0e21, 5.0e-324, 123456789.123456, large, -large, f64::MAX] {
        let line = with_state(Value::from(x)).to_json();
        let again = Checkpoint::from_json(&line).unwrap();
        assert!(again.state["v"].is_f64());
    }
}

#[test]
fn a_float_may_come_back_changed() {
    let line = with_state(Value::from(1706915968.2183661)).to_json();
    let again = Checkpoint::from_json(&line).unwrap();
    assert_eq!(again.state["v"], Value::from(1706915968.218366));
}

#[test]
fn a_new_checkpoint_has_the_time() {
    let before = SystemTime::now().duration_since(UNIX_EPOCH).unwrap().as_secs_f64();
    let ckpt = Checkpoint::new(1, serde_json::Map::new(), vec![]);
    let after = SystemTime::now().duration_since(UNIX_EPOCH).unwrap().as_secs_f64();
    let time = ckpt.timestamp.as_f64().unwrap();
    assert!(before <= time && time <= after);
}

#[test]
fn a_timestamp_counts_seconds() {
    assert_eq!(timestamp(Ok(Duration::from_millis(1500))), Value::from(1.5));
    assert_eq!(timestamp(Ok(Duration::MAX)), Value::from(18446744073709551616.0));
    assert_eq!(timestamp(UNIX_EPOCH.duration_since(SystemTime::now())), Value::from(0.0));
}

#[test]
fn a_clone_is_equal() {
    let ckpt = with_state(nested(3));
    assert_eq!(ckpt.clone(), ckpt);
}

#[test]
fn a_whole_number_comes_back_as_it_is() {
    let top: f64 = 562949953421312.0;
    let mut numbers = vec![0.0, -0.0, 1.0, 42.0, 1706915968.0, 999999999999.0, 1.0e12, top - 1.0];
    let mut n = 1.0;
    while n < top {
        numbers.push(n);
        numbers.push(n - 1.0);
        n *= 2.0;
    }
    let mut n = 3.0;
    while n < top {
        numbers.push(n);
        n *= 7.0;
    }
    for x in numbers {
        for x in [x, -x] {
            let mut ckpt = with_state(Value::from(vec![Value::from(x)]));
            ckpt.completed_items.push(Value::from(x));
            ckpt.timestamp = Value::from(x);
            let again = Checkpoint::from_json(&ckpt.to_json()).unwrap();
            assert_eq!(again, ckpt);
            assert_eq!(again.timestamp.as_f64().unwrap().to_bits(), x.to_bits());
        }
    }
}
