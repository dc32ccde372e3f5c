use agent_resume::jsonl::{frame, split_lines};
use agent_resume::{Checkpoint, ItemKeyFn, JsonlFile, JsonlStore, Resumable, ResumeError, Sink};
use serde_json::Value;
use std::io::{Error, ErrorKind};

/// A file that is held in memory.
struct FileSink {
    store: JsonlStore,
    bytes: Option<Vec<u8>>,
}

impl FileSink {
    fn new(path: &str) -> Self {
        FileSink { store: JsonlStore::new(path.to_string()).no_fsync(), bytes: None }
    }

    fn file(&self) -> Option<JsonlFile> {
        self.bytes.as_ref().map(|bytes| JsonlFile::new(bytes.clone(), None).unwrap())
    }
}

impl Sink for FileSink {
    fn append(&mut self, checkpoint: &Checkpoint) -> Result<(), ResumeError> {
        let bytes = self.store.append(checkpoint)?;
        self.bytes.get_or_insert_with(Vec::new).extend(bytes);
        Ok(())
    }

    fn load_latest(&self) -> Result<Checkpoint, ResumeError> {
        self.store.load_latest(self.bytes.as_ref().map(|b| b.len() as u64), self.file())
    }
}

fn items(n: u64) -> Vec<Value> {
    (0..n).map(Value::from).collect()
}

fn no_key() -> Option<ItemKeyFn> {
    None
}

fn read(text: &str) -> Option<JsonlFile> {
    Some(JsonlFile::new(text.as_bytes().to_vec(), None).unwrap())
}

fn turns(text: &str) -> Vec<u64> {
    let store = JsonlStore::new("f".to_string());
    store.iter_checkpoints(read(text)).unwrap().iter().map(|c| c.turn).collect()
}

#[test]
fn jsonl_store_roundtrip() {
    let store = FileSink::new("agent_resume_test.jsonl");
    let mut r = Resumable::new(store, None, items(4), no_key());
    for _ in 0..2 {
        r.next_item();
        r.checkpoint(None).unwrap();
    }
    let mut r2 = Resumable::new(r.into_store(), None, items(4), no_key());
    assert!(r2.resumed());
    let remaining: Vec<u64> =
        std::iter::from_fn(|| r2.next_item()).map(|v| v.as_u64().unwrap()).collect();
    assert_eq!(remaining, vec![2, 3]);
}

#[test]
fn jsonl_store_len() {
    let store = FileSink::new("agent_resume_len.jsonl");
    let mut r = Resumable::new(store, None, items(3), no_key());
    while let Some(_) = r.next_item() {
        r.checkpoint(None).unwrap();
    }
    let js = r.into_store();
    assert_eq!(js.store.len(js.file()).unwrap(), 3);
}

#[test]
fn jsonl_store_missing_file() {
    let store = JsonlStore::new("/tmp/no_such_agent_resume.jsonl".to_string());
    assert!(matches!(store.load_latest(None, None), Err(ResumeError::NoCheckpoint(_))));
}

#[test]
fn jsonl_store_durably_resumes_across_instances() {
    let store = FileSink::new("durable");
    let mut r = Resumable::new(store, None, items(4), no_key());
    r.next_item();
    r.checkpoint(None).unwrap();

    let mut store = FileSink::new("durable");
    store.bytes = r.into_store().bytes;
    let mut r = Resumable::new(store, None, items(4), no_key());
    assert!(r.resumed());
    let remaining: Vec<u64> =
        std::iter::from_fn(|| r.next_item()).map(|v| v.as_u64().unwrap()).collect();
    assert_eq!(remaining, vec![1, 2, 3]);
}

#[test]
fn jsonl_store_len_and_is_empty() {
    let empty = FileSink::new("len");
    assert_eq!(empty.store.len(empty.file()).unwrap(), 0);
    assert!(empty.store.is_empty(empty.file()).unwrap());

    let mut r = Resumable::new(empty, None, items(3), no_key());
    while r.next_item().is_some() {
        r.checkpoint(None).unwrap();
    }

    let store = r.into_store();
    assert_eq!(store.store.len(store.file()).unwrap(), 3);
    assert!(!store.store.is_empty(store.file()).unwrap());
}

#[test]
fn jsonl_store_reports_no_checkpoint_for_missing_file() {
    let store = FileSink::new("missing");
    assert!(matches!(store.load_latest(), Err(ResumeError::NoCheckpoint(_))));
}

#[test]
fn jsonl_store_detects_corrupt_line() {
    let mut store = FileSink::new("corrupt");
    store.bytes = Some(b"this is not json\n".to_vec());
    match store.load_latest() {
        Err(ResumeError::CheckpointCorrupt { line_number, .. }) => {
            assert_eq!(line_number, Some(1));
        }
        other => panic!("expected CheckpointCorrupt, got {other:?}"),
    }
}

#[test]
fn a_new_store_syncs() {
    let store = JsonlStore::new("f".to_string());
    assert!(store.fsync);
    let store = store.no_fsync();
    assert!(!store.fsync);
    assert_eq!(store.path, "f");
}

#[test]
fn no_checkpoint_names_the_file() {
    let store = JsonlStore::new("dir/f".to_string());
    match store.load_latest(Some(0), read("")) {
        Err(e) => assert_eq!(e.to_string(), "no checkpoint: dir/f is empty or missing"),
        Ok(_) => panic!("loaded"),
    }
    match store.load_latest(Some(2), read(" \n")) {
        Err(e) => assert_eq!(e.to_string(), "no checkpoint: dir/f contains no checkpoints"),
        Ok(_) => panic!("loaded"),
    }
}

#[test]
fn the_last_row_is_the_latest() {
    let store = JsonlStore::new("f".to_string());
    let text = "{\"turn\":1}\n{\"turn\":2}\n";
    assert_eq!(store.load_latest(Some(22), read(text)).unwrap().turn, 2);
}

#[test]
fn lines_end_in_line_feeds() {
    assert_eq!(turns("{\"turn\":1}\n{\"turn\":2}\n"), vec![1, 2]);
    assert_eq!(turns("{\"turn\":1}\r\n{\"turn\":2}\r\n"), vec![1, 2]);
    assert_eq!(turns("{\"turn\":1}\n{\"turn\":2}"), vec![1, 2]);
    assert_eq!(turns("\n \n{\"turn\":1}\n\u{3000}\n\n"), vec![1]);
    assert_eq!(turns(""), Vec::<u64>::new());
}

#[test]
fn lines_are_split() {
    let lines = split_lines(&b"a\r\nb\r".to_vec(), false);
    assert_eq!(lines, vec![b"a".to_vec(), b"b\r".to_vec()]);
    let lines = split_lines(&b"a\n\nb".to_vec(), true);
    assert_eq!(lines, vec![b"a".to_vec(), b"".to_vec()]);
}

#[test]
fn a_corrupt_line_is_counted_with_blank_ones() {
    let store = JsonlStore::new("f".to_string());
    match store.iter_checkpoints(read("{\"turn\":1}\n\nnot json\nnor this\n")) {
        Err(error) => assert_eq!(
            error.to_string(),
            "checkpoint corrupt at line 3: JSON error: expected ident at line 1 column 2"
        ),
        Ok(_) => panic!("read"),
    }
}

#[test]
fn a_line_that_is_not_text_is_an_io_error() {
    let store = JsonlStore::new("f".to_string());
    let file = JsonlFile::new(b"{\"turn\":1}\n\xff\n{\n".to_vec(), None);
    match store.iter_checkpoints(file) {
        Err(ResumeError::Io(error)) => {
            assert_eq!(error.kind(), ErrorKind::InvalidData);
            assert_eq!(error.to_string(), "stream did not contain valid UTF-8");
        }
        other => panic!("expected Io, got {other:?}"),
    }
}

#[test]
fn a_reading_that_breaks_off_is_an_io_error() {
    let store = JsonlStore::new("f".to_string());
    let failure = || Some(Error::new(ErrorKind::Other, "no disk"));
    let file = JsonlFile::new(b"{\"turn\":1}\n{\"tu".to_vec(), failure());
    match store.iter_checkpoints(file) {
        Err(error) => assert_eq!(error.to_string(), "IO error: no disk"),
        Ok(_) => panic!("read"),
    }
    let file = JsonlFile::new(b"{\n{\"turn\":1}\n".to_vec(), failure());
    assert!(matches!(
        store.len(file),
        Err(ResumeError::CheckpointCorrupt { line_number: Some(1), .. })
    ));
}

#[test]
fn a_row_without_a_turn_is_not_read() {
    assert!(JsonlFile::new(b"{\"turn\":1}\n{}\n".to_vec(), None).is_none());
    assert!(JsonlFile::new(b"not json\n{}\n".to_vec(), None).is_some());
    assert!(JsonlFile::new(b"{}".to_vec(), Some(Error::new(ErrorKind::Other, "x"))).is_some());
}

#[test]
fn an_appended_row_is_read_last() {
    let store = JsonlStore::new("f".to_string());
    let mut bytes = b"{\"turn\":1}\n".to_vec();
    let mut state = serde_json::Map::new();
    state.insert("text".to_string(), Value::from("gr\u{fc}n\n\u{1f600}"));
    let row = Checkpoint::new(2, state, vec![Value::from("a")]);
    bytes.extend(store.append(&row).unwrap());
    assert_eq!(bytes.last(), Some(&10));
    let rows = store.iter_checkpoints(JsonlFile::new(bytes, None)).unwrap();
    assert_eq!(rows.len(), 2);
    assert_eq!(rows[0].turn, 1);
    assert_eq!(rows[1].turn, 2);
    assert_eq!(rows[1].state, row.state);
    assert_eq!(rows[1].completed_items, row.completed_items);
}

#[test]
fn a_line_with_a_line_feed_is_refused() {
    assert!(matches!(frame("a\nb"), Err(ResumeError::NewlineInPayload)));
    assert_eq!(frame("\u{e9}").unwrap(), vec![0xc3, 0xa9, 10]);
}

#[test]
fn every_question_meets_the_same_error() {
    let store = JsonlStore::new("f".to_string());
    for bytes in [&b"{\"turn\":1}\n\xff\n"[..], b"\n{\n", b"\xc3"] {
        let file = || JsonlFile::new(bytes.to_vec(), None);
        let error = store.iter_checkpoints(file()).unwrap_err().to_string();
        assert_eq!(store.len(file()).unwrap_err().to_string(), error);
        assert_eq!(store.is_empty(file()).unwrap_err().to_string(), error);
        let size = Some(bytes.len() as u64);
        assert_eq!(store.load_latest(size, file()).unwrap_err().to_string(), error);
    }
}

#[test]
fn no_fsync_only_stops_the_syncing() {
    let store = JsonlStore::new("f".to_string());
    let unsynced = JsonlStore::new("f".to_string()).no_fsync();
    let row = Checkpoint::new(1, serde_json::Map::new(), vec![]);
    assert_eq!(store.append(&row).unwrap(), unsynced.append(&row).unwrap());
    assert_eq!(
        store.load_latest(None, None).unwrap_err().to_string(),
        unsynced.load_latest(None, None).unwrap_err().to_string()
    );
    let twice = unsynced.no_fsync();
    assert!(!twice.fsync);
    assert_eq!(twice.path, "f");
}
