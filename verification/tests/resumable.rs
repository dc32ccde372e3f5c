use agent_resume::{Checkpoint, InMemoryStore, ItemKeyFn, Resumable, ResumeError, Sink};
use serde_json::Value;

fn items(n: u64) -> Vec<Value> {
    (0..n).map(Value::from).collect()
}

fn mem_store() -> InMemoryStore {
    InMemoryStore::new()
}

fn no_key() -> Option<ItemKeyFn> {
    None
}

fn object(entries: Vec<(&str, Value)>) -> Value {
    let mut map = serde_json::Map::new();
    for (key, value) in entries {
        map.insert(key.to_string(), value);
    }
    Value::from(map)
}

/// A store that takes nothing and has nothing.
struct Refusing;

impl Sink for Refusing {
    fn append(&mut self, _checkpoint: &Checkpoint) -> Result<(), ResumeError> {
        Err(ResumeError::NewlineInPayload)
    }

    fn load_latest(&self) -> Result<Checkpoint, ResumeError> {
        Err(ResumeError::NewlineInPayload)
    }
}

#[test]
fn in_memory_store_basic() {
    let mut store = mem_store();
    assert!(store.load_latest().is_err());
    let ckpt = Checkpoint::new(1, serde_json::Map::new(), vec![]);
    store.append(&ckpt).unwrap();
    assert_eq!(store.load_latest().unwrap().turn, 1);
    assert_eq!(store.len(), 1);
}

#[test]
fn fresh_run_not_resumed() {
    let store = mem_store();
    let r = Resumable::new(store, None, items(3), no_key());
    assert!(!r.resumed());
    assert_eq!(r.turn(), 0);
}

#[test]
fn iterates_all_items() {
    let store = mem_store();
    let mut r = Resumable::new(store, None, items(3), no_key());
    let mut seen = vec![];
    while let Some(item) = r.next_item() {
        seen.push(item.as_u64().unwrap());
        r.checkpoint(None).unwrap();
    }
    assert_eq!(seen, vec![0, 1, 2]);
    assert_eq!(r.turn(), 3);
}

#[test]
fn resume_skips_completed() {
    let store = mem_store();
    let mut r = Resumable::new(store, None, items(5), no_key());
    for _ in 0..3 {
        r.next_item().unwrap();
        r.checkpoint(None).unwrap();
    }
    let mut r2 = Resumable::new(r.into_store(), None, items(5), no_key());
    assert!(r2.resumed());
    let remaining: Vec<u64> =
        std::iter::from_fn(|| r2.next_item()).map(|v| v.as_u64().unwrap()).collect();
    assert_eq!(remaining, vec![3, 4]);
}

#[test]
fn state_preserved_across_resume() {
    let store = mem_store();
    let mut r = Resumable::new(store, None, items(3), no_key());
    r.next_item();
    let mut st = serde_json::Map::new();
    st.insert("count".to_string(), Value::from(42));
    r.checkpoint(Some(st)).unwrap();
    let r2 = Resumable::new(r.into_store(), None, items(3), no_key());
    assert_eq!(r2.state()["count"], Value::from(42));
}

#[test]
fn remaining_items() {
    let store = mem_store();
    let mut r = Resumable::new(store, None, items(4), no_key());
    r.next_item();
    r.checkpoint(None).unwrap();
    let rem = r.remaining_items();
    assert_eq!(rem, vec![Value::from(1), Value::from(2), Value::from(3)]);
}

#[test]
fn turn_increments() {
    let store = mem_store();
    let mut r = Resumable::new(store, None, items(3), no_key());
    for _ in 0..3 {
        r.next_item();
        r.checkpoint(None).unwrap();
    }
    assert_eq!(r.turn(), 3);
}

#[test]
fn no_items_nothing_to_do() {
    let store = mem_store();
    let mut r = Resumable::new(store, None, vec![], no_key());
    assert!(r.next_item().is_none());
}

#[test]
fn all_items_already_done_resume() {
    let store = mem_store();
    let mut r = Resumable::new(store, None, items(2), no_key());
    while let Some(_) = r.next_item() {
        r.checkpoint(None).unwrap();
    }
    let mut r2 = Resumable::new(r.into_store(), None, items(2), no_key());
    assert!(r2.next_item().is_none());
}

#[test]
fn custom_item_key() {
    let store = mem_store();
    let work_items = vec![
        object(vec![("id", Value::from(1)), ("data", Value::from("a"))]),
        object(vec![("id", Value::from(2)), ("data", Value::from("b"))]),
        object(vec![("id", Value::from(3)), ("data", Value::from("c"))]),
    ];
    let key_fn: ItemKeyFn = Box::new(|v| v["id"].clone());
    let mut r = Resumable::new(store, None, work_items.clone(), Some(key_fn));
    r.next_item();
    r.checkpoint(None).unwrap();
    let key_fn2: ItemKeyFn = Box::new(|v| v["id"].clone());
    let mut r2 = Resumable::new(r.into_store(), None, work_items, Some(key_fn2));
    let ids: Vec<u64> =
        std::iter::from_fn(|| r2.next_item()).map(|v| v["id"].as_u64().unwrap()).collect();
    assert_eq!(ids, vec![2, 3]);
}

#[test]
fn completed_items_accessible() {
    let store = mem_store();
    let mut r = Resumable::new(store, None, items(3), no_key());
    r.next_item();
    r.checkpoint(None).unwrap();
    assert_eq!(r.completed_items().len(), 1);
}

#[test]
fn full_run_completes_every_item_once() {
    let store = mem_store();
    let mut r = Resumable::new(store, None, items(5), no_key());
    assert!(!r.resumed());

    let mut processed = Vec::new();
    while let Some(item) = r.next_item() {
        processed.push(item.as_u64().unwrap());
        r.checkpoint(None).unwrap();
    }

    assert_eq!(processed, vec![0, 1, 2, 3, 4]);
    assert_eq!(r.turn(), 5);
    assert_eq!(r.store().len(), 5);
}

#[test]
fn resume_after_simulated_crash_skips_done_items() {
    let store = mem_store();
    let mut r = Resumable::new(store, None, items(5), no_key());
    r.next_item();
    r.checkpoint(None).unwrap();
    r.next_item();
    r.checkpoint(None).unwrap();

    let mut r2 = Resumable::new(r.into_store(), None, items(5), no_key());
    assert!(r2.resumed());
    let remaining: Vec<u64> =
        std::iter::from_fn(|| r2.next_item()).map(|v| v.as_u64().unwrap()).collect();
    assert_eq!(remaining, vec![2, 3, 4]);
}

#[test]
fn state_survives_resume() {
    let store = mem_store();
    let mut r = Resumable::new(store, None, items(3), no_key());
    r.next_item();
    let mut st = serde_json::Map::new();
    st.insert("tokens_used".to_string(), Value::from(1234));
    r.checkpoint(Some(st)).unwrap();
    let r2 = Resumable::new(r.into_store(), None, items(3), no_key());
    assert_eq!(r2.state()["tokens_used"], Value::from(1234));
}

#[test]
fn custom_item_key_dedupes_on_id() {
    let work = vec![
        object(vec![("id", Value::from("a")), ("payload", Value::from(1))]),
        object(vec![("id", Value::from("b")), ("payload", Value::from(2))]),
        object(vec![("id", Value::from("c")), ("payload", Value::from(3))]),
    ];
    let store = mem_store();

    let key_fn: ItemKeyFn = Box::new(|v| v["id"].clone());
    let mut r = Resumable::new(store, None, work.clone(), Some(key_fn));
    r.next_item();
    r.checkpoint(None).unwrap();

    let key_fn2: ItemKeyFn = Box::new(|v| v["id"].clone());
    let mut r2 = Resumable::new(r.into_store(), None, work, Some(key_fn2));
    let ids: Vec<String> = std::iter::from_fn(|| r2.next_item())
        .map(|v| v["id"].as_str().unwrap().to_string())
        .collect();
    assert_eq!(ids, vec!["b", "c"]);
}

#[test]
fn empty_work_list_has_nothing_to_do() {
    let store = mem_store();
    let mut r = Resumable::new(store, None, vec![], no_key());
    assert!(r.next_item().is_none());
    assert_eq!(r.remaining_items().len(), 0);
}

#[test]
fn remaining_items_reflects_progress() {
    let store = mem_store();
    let mut r = Resumable::new(store, None, items(4), no_key());
    assert_eq!(r.remaining_items(), items(4));
    r.next_item();
    r.checkpoint(None).unwrap();
    assert_eq!(r.remaining_items(), vec![Value::from(1), Value::from(2), Value::from(3)]);
}

#[test]
fn an_item_without_a_checkpoint_is_retried() {
    let mut r = Resumable::new(mem_store(), None, items(3), no_key());
    r.next_item();
    r.checkpoint(None).unwrap();
    assert_eq!(r.next_item(), Some(Value::from(1)));
    let mut r2 = Resumable::new(r.into_store(), None, items(3), no_key());
    assert_eq!(r2.next_item(), Some(Value::from(1)));
}

#[test]
fn the_initial_state_counts_for_a_fresh_job_only() {
    let mut first = serde_json::Map::new();
    first.insert("a".to_string(), Value::from(1));
    let mut second = serde_json::Map::new();
    second.insert("b".to_string(), Value::from(2));
    let mut r = Resumable::new(mem_store(), Some(first.clone()), items(1), no_key());
    assert_eq!(r.state(), &first);
    r.checkpoint(None).unwrap();
    let r2 = Resumable::new(r.into_store(), Some(second), items(1), no_key());
    assert_eq!(r2.state(), &first);
    assert_eq!(r2.turn(), 1);
}

#[test]
fn a_checkpoint_before_any_item_completes_none() {
    let mut r = Resumable::new(mem_store(), None, items(2), no_key());
    let ckpt = r.checkpoint(None).unwrap();
    assert_eq!(ckpt.turn, 1);
    assert!(ckpt.completed_items.is_empty());
    assert_eq!(r.remaining_items(), items(2));
}

#[test]
fn a_key_is_completed_once() {
    let work = vec![Value::from(7), Value::from(7)];
    let mut r = Resumable::new(mem_store(), None, work, no_key());
    r.next_item();
    r.next_item();
    r.checkpoint(None).unwrap();
    r.checkpoint(None).unwrap();
    assert_eq!(r.completed_items(), &[Value::from(7)]);
    assert_eq!(r.turn(), 2);
}

#[test]
fn the_item_given_out_last_is_the_one_completed() {
    let mut store = mem_store();
    store.append(&Checkpoint::new(1, serde_json::Map::new(), vec![Value::from(1)])).unwrap();
    let mut r = Resumable::new(store, None, items(2), no_key());
    assert_eq!(r.next_item(), Some(Value::from(0)));
    assert_eq!(r.next_item(), None);
    let ckpt = r.checkpoint(None).unwrap();
    assert_eq!(ckpt.completed_items, vec![Value::from(1), Value::from(0)]);
    assert!(r.remaining_items().is_empty());
}

#[test]
fn keys_are_compared_by_their_texts() {
    let work = vec![Value::from(1), Value::from("1"), Value::from(1.0), Value::from(vec![1])];
    let mut r = Resumable::new(mem_store(), None, work.clone(), no_key());
    r.next_item();
    r.checkpoint(None).unwrap();
    assert_eq!(r.remaining_items(), work[1..].to_vec());
}

#[test]
fn a_refusing_store_does_not_undo_progress() {
    let mut r = Resumable::new(Refusing, None, items(2), no_key());
    assert!(!r.resumed());
    r.next_item();
    assert!(matches!(r.checkpoint(None), Err(ResumeError::NewlineInPayload)));
    assert_eq!(r.turn(), 1);
    assert_eq!(r.completed_items(), &[Value::from(0)]);
}

#[test]
fn a_store_in_memory_keeps_every_row() {
    let mut store = InMemoryStore::default();
    assert!(store.is_empty());
    match store.load_latest() {
        Err(error) => assert_eq!(error.to_string(), "no checkpoint: no checkpoints in memory"),
        Ok(_) => panic!("loaded"),
    }
    let one = Checkpoint::new(1, serde_json::Map::new(), vec![]);
    let two = Checkpoint::new(2, serde_json::Map::new(), vec![Value::from(0)]);
    store.append(&one).unwrap();
    store.append(&two).unwrap();
    assert!(!store.is_empty());
    assert_eq!(store.all(), vec![one, two.clone()]);
    assert_eq!(store.load_latest().unwrap(), two);
}

#[test]
fn a_job_starts_from_what_the_store_gave() {
    let latest = Checkpoint::new(5, serde_json::Map::new(), vec![Value::from(0)]);
    let r = Resumable::start(mem_store(), None, items(2), no_key(), Ok(latest));
    assert!(r.resumed());
    assert_eq!(r.turn(), 5);
    assert_eq!(r.remaining_items(), vec![Value::from(1)]);
}
