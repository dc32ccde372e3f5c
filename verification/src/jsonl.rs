//! A checkpoint store in a file: one row of JSON per line, each new row at the
//! end.
//!
//! The file itself is read and written elsewhere. Here stands what its bytes mean,
//! and which bytes a row adds to it.
use crate::checkpoint::{Checkpoint, Row};
use crate::error::ResumeError;
use crate::json::json_parse;
use crate::text::{blank, decode, has_newline, is_blank};
use vstd::prelude::*;
use vstd::utf8::{decode_utf8, encode_utf8, valid_utf8};

verus! {

/// The lines of a file that end in a line feed, without it.
pub open spec fn ended_lines(bytes: Seq<u8>) -> Seq<Seq<u8>>
    decreases bytes.len(),
{
    if bytes.len() == 0 {
        Seq::empty()
    } else if bytes.last() == 10 {
        ended_lines(bytes.drop_last()).push(open_line(bytes.drop_last()))
    } else {
        ended_lines(bytes.drop_last())
    }
}

/// What follows the last line feed of a file.
pub open spec fn open_line(bytes: Seq<u8>) -> Seq<u8>
    decreases bytes.len(),
{
    if bytes.len() == 0 || bytes.last() == 10 {
        Seq::empty()
    } else {
        open_line(bytes.drop_last()).push(bytes.last())
    }
}

/// A line without the carriage return at its end.
pub open spec fn trimmed(line: Seq<u8>) -> Seq<u8> {
    if line.len() > 0 && line.last() == 13 {
        line.drop_last()
    } else {
        line
    }
}

/// The lines of a file. The last one need not end in a line feed; where the
/// reading broke off, it does not count without one.
pub open spec fn lines_of(bytes: Seq<u8>, broke_off: bool) -> Seq<Seq<u8>> {
    let ended = ended_lines(bytes).map_values(|line: Seq<u8>| trimmed(line));
    if broke_off || open_line(bytes).len() == 0 {
        ended
    } else {
        ended.push(open_line(bytes))
    }
}

/// What a line means.
pub enum Line {
    /// It is not UTF-8.
    Undecodable,
    /// It is nothing but white space.
    Blank,
    /// It is not JSON, for the reason given.
    Unreadable(Seq<char>),
    /// It is JSON without a turn.
    Turnless,
    /// It is a row.
    Row(Row),
}

/// What a line means.
pub open spec fn meaning(line: Seq<u8>) -> Line {
    if !valid_utf8(line) {
        Line::Undecodable
    } else if blank(decode_utf8(line)) {
        Line::Blank
    } else {
        match json_parse(decode_utf8(line)) {
            Err(words) => Line::Unreadable(words),
            Ok(json) => match Row::of(json) {
                Some(row) => Line::Row(row),
                None => Line::Turnless,
            },
        }
    }
}

/// Whether a line stops the reading of a file.
pub open spec fn is_fault(line: Line) -> bool {
    !(line is Blank || line is Row)
}

/// The first line that stops the reading.
pub open spec fn first_fault(lines: Seq<Seq<u8>>) -> Option<int>
    decreases lines.len(),
{
    if lines.len() == 0 {
        None
    } else {
        match first_fault(lines.drop_last()) {
            Some(i) => Some(i),
            None => if is_fault(meaning(lines.last())) {
                Some(lines.len() - 1)
            } else {
                None
            },
        }
    }
}

/// The rows of a file in their order.
pub open spec fn rows_of(lines: Seq<Seq<u8>>) -> Seq<Row>
    decreases lines.len(),
{
    if lines.len() == 0 {
        Seq::empty()
    } else {
        match meaning(lines.last()) {
            Line::Row(row) => rows_of(lines.drop_last()).push(row),
            _ => rows_of(lines.drop_last()),
        }
    }
}

/// What checkpoints hold.
pub open spec fn views(checkpoints: Seq<Checkpoint>) -> Seq<Row> {
    checkpoints.map_values(|checkpoint: Checkpoint| checkpoint@)
}

/// The contents of vectors of bytes.
pub open spec fn contents(lines: Seq<Vec<u8>>) -> Seq<Seq<u8>> {
    lines.map_values(|line: Vec<u8>| line@)
}

/// Takes the carriage return off the end of a line.
fn trim_line(mut line: Vec<u8>) -> (trimmed_line: Vec<u8>)
    ensures
        trimmed_line@ == trimmed(line@),
{
    if line.len() > 0 && line[line.len() - 1] == 13 {
        line.pop();
    }
    line
}

/// Splits the bytes of a file into its lines.
pub fn split_lines(bytes: &Vec<u8>, broke_off: bool) -> (lines: Vec<Vec<u8>>)
    ensures
        contents(lines@) == lines_of(bytes@, broke_off),
{
    let mut lines: Vec<Vec<u8>> = Vec::new();
    let mut line: Vec<u8> = Vec::new();
    assert(bytes@.take(0) =~= Seq::<u8>::empty());
    assert(contents(lines@) =~= ended_lines(bytes@.take(0)).map_values(
        |line: Seq<u8>| trimmed(line),
    ));
    for i in 0..bytes.len()
        invariant
            contents(lines@) == ended_lines(bytes@.take(i as int)).map_values(
                |line: Seq<u8>| trimmed(line),
            ),
            line@ == open_line(bytes@.take(i as int)),
    {
        let ghost before = lines@;
        assert(bytes@.take(i + 1).drop_last() =~= bytes@.take(i as int));
        let byte: u8 = bytes[i];
        if byte == 10 {
            lines.push(trim_line(line));
            line = Vec::new();
            assert(contents(lines@) =~= contents(before).push(lines@.last()@));
            assert(ended_lines(bytes@.take(i + 1)).map_values(|line: Seq<u8>| trimmed(line))
                =~= ended_lines(bytes@.take(i as int)).map_values(
                |line: Seq<u8>| trimmed(line),
            ).push(trimmed(open_line(bytes@.take(i as int)))));
        } else {
            line.push(byte);
        }
    }
    assert(bytes@.take(bytes@.len() as int) =~= bytes@);
    if !broke_off && line.len() > 0 {
        let ghost before = lines@;
        lines.push(line);
        assert(contents(lines@) =~= contents(before).push(lines@.last()@));
    }
    lines
}

/// A checkpoint file as it was read: its bytes, what broke the reading off, if
/// anything did, and the error of the line that stops the reading of rows, if that
/// line is not UTF-8. The line that stops it is not JSON without a turn.
pub struct JsonlFile {
    bytes: Vec<u8>,
    failure: Option<std::io::Error>,
    undecodable: Option<std::io::Error>,
}

impl JsonlFile {
    #[verifier::type_invariant]
    spec fn readable(self) -> bool {
        &&& !stops_turnless(self.lines())
        &&& self.undecodable is Some <==> stops_undecodable(self.lines())
    }

    /// The bytes of the file.
    pub closed spec fn bytes(self) -> Seq<u8> {
        self.bytes@
    }

    /// What broke the reading off.
    pub closed spec fn failure(self) -> Option<std::io::Error> {
        self.failure
    }

    /// What the decoding of the line that stops the reading gave, where that line
    /// is not UTF-8.
    pub closed spec fn undecodable(self) -> Option<std::io::Error> {
        self.undecodable
    }

    /// The lines of the file.
    pub open spec fn lines(self) -> Seq<Seq<u8>> {
        lines_of(self.bytes(), self.failure() is Some)
    }
}

/// Whether the line that stops the reading is JSON without a turn.
pub open spec fn stops_turnless(lines: Seq<Seq<u8>>) -> bool {
    first_fault(lines) matches Some(i) && meaning(lines[i]) is Turnless
}

/// Whether the line that stops the reading is not UTF-8.
pub open spec fn stops_undecodable(lines: Seq<Seq<u8>>) -> bool {
    first_fault(lines) matches Some(i) && meaning(lines[i]) is Undecodable
}

/// The rows before a point of the file count no matter what follows.
proof fn lemma_fault_of_prefix(lines: Seq<Seq<u8>>, n: int)
    requires
        0 <= n <= lines.len(),
    ensures
        first_fault(lines.take(n)) matches Some(i) ==> 0 <= i < n && first_fault(lines) == Some(i)
            && is_fault(meaning(lines[i])),
    decreases lines.len() - n, n,
{
    if n < lines.len() {
        lemma_fault_of_prefix(lines, n + 1);
        assert(lines.take(n + 1).drop_last() =~= lines.take(n));
        lemma_fault_index(lines.take(n));
    } else {
        assert(lines.take(n) =~= lines);
        lemma_fault_index(lines);
    }
}

/// The line that stops the reading is one of the lines, and a fault.
proof fn lemma_fault_index(lines: Seq<Seq<u8>>)
    ensures
        first_fault(lines) matches Some(i) ==> 0 <= i < lines.len() && is_fault(meaning(lines[i])),
    decreases lines.len(),
{
    if lines.len() > 0 {
        lemma_fault_index(lines.drop_last());
    }
}

impl JsonlFile {
    /// The file with these bytes, of which the reading may have broken off. Gives
    /// nothing where the line that stops the reading of rows is JSON without a turn.
    pub fn new(bytes: Vec<u8>, failure: Option<std::io::Error>) -> (file: Option<JsonlFile>)
        ensures
            file is Some <==> !stops_turnless(lines_of(bytes@, failure is Some)),
            file matches Some(f) ==> {
                &&& f.bytes() == bytes@
                &&& f.failure() == failure
                &&& f.undecodable() is Some <==> stops_undecodable(f.lines())
            },
    {
        let lines = split_lines(&bytes, failure.is_some());
        let ghost all = lines_of(bytes@, failure is Some);
        proof {
            assert(all.take(0) =~= Seq::<Seq<u8>>::empty());
            assert(all.len() == 0 ==> all.take(0) =~= all);
        }
        let mut undecodable: Option<std::io::Error> = None;
        let mut i: usize = 0;
        while i < lines.len()
            invariant_except_break
                undecodable is None,
            invariant
                i <= lines.len(),
                contents(lines@) == all,
                first_fault(all.take(i as int)) is None,
                i == lines.len() ==> all.take(i as int) == all,
                all == lines_of(bytes@, failure is Some),
            ensures
                !stops_turnless(all),
                undecodable is Some <==> stops_undecodable(all),
            decreases lines.len() - i,
        {
            proof {
                assert(lines@[i as int]@ == all[i as int]);
                assert(all.take(i + 1).drop_last() =~= all.take(i as int));
                assert(all.take(i + 1).last() == all[i as int]);
                lemma_fault_of_prefix(all, i + 1);
                assert(i + 1 == all.len() ==> all.take(i + 1) =~= all);
            }
            match decode(lines[i].as_slice()) {
                Err(error) => {
                    undecodable = Some(error);
                    break;
                },
                Ok(text) => {
                    if !is_blank(text.as_str()) {
                        match Checkpoint::try_from_json(text.as_str()) {
                            None => {
                                return None;
                            },
                            Some(Err(_)) => {
                                break;
                            },
                            Some(Ok(_)) => {},
                        }
                    }
                },
            }
            i += 1;
        }
        Some(JsonlFile { bytes, failure, undecodable })
    }
}

/// A store in a file, one checkpoint per line.
pub struct JsonlStore {
    /// The path of the file, as it is shown.
    pub path: String,
    /// Whether every write is synced to the disk.
    pub fsync: bool,
}

/// What a checkpoint file gives: its rows, or what stops their reading.
pub open spec fn gives_rows(
    file: Option<JsonlFile>,
    result: Result<Seq<Row>, ResumeError>,
) -> bool {
    match file {
        None => result == Result::<Seq<Row>, ResumeError>::Ok(Seq::empty()),
        Some(f) => match first_fault(f.lines()) {
            Some(i) => match meaning(f.lines()[i]) {
                Line::Unreadable(words) => {
                    &&& result matches Err(
                        ResumeError::CheckpointCorrupt { message, line_number },
                    )
                    &&& message@ == "JSON error: "@ + words
                    &&& line_number == Some((i + 1) as usize)
                },
                Line::Undecodable => {
                    &&& f.undecodable() matches Some(error)
                    &&& result == Result::<Seq<Row>, ResumeError>::Err(ResumeError::Io(error))
                },
                _ => false,
            },
            None => match f.failure() {
                Some(error) => result == Result::<Seq<Row>, ResumeError>::Err(
                    ResumeError::Io(error),
                ),
                None => result == Result::<Seq<Row>, ResumeError>::Ok(rows_of(f.lines())),
            },
        },
    }
}

/// How many rows a checkpoint file gives, or what stops their reading.
pub open spec fn gives_length(
    file: Option<JsonlFile>,
    length: Result<usize, ResumeError>,
) -> bool {
    exists|rows: Result<Seq<Row>, ResumeError>| #[trigger]
        gives_rows(file, rows) && match rows {
            Ok(r) => length is Ok && length->Ok_0 == r.len(),
            Err(error) => length == Result::<usize, ResumeError>::Err(error),
        }
}

/// Whether a checkpoint file gives no rows, or what stops their reading.
pub open spec fn gives_emptiness(
    file: Option<JsonlFile>,
    empty: Result<bool, ResumeError>,
) -> bool {
    exists|rows: Result<Seq<Row>, ResumeError>| #[trigger]
        gives_rows(file, rows) && match rows {
            Ok(r) => empty is Ok && empty->Ok_0 == (r.len() == 0),
            Err(error) => empty == Result::<bool, ResumeError>::Err(error),
        }
}

impl JsonlStore {
    /// The same store, without the syncing.
    pub open spec fn unsynced(self) -> Self {
        JsonlStore { path: self.path, fsync: false }
    }

    /// Whether the store gives `latest` as its latest checkpoint.
    pub open spec fn loads(
        self,
        size: Option<u64>,
        file: Option<JsonlFile>,
        latest: Result<Checkpoint, ResumeError>,
    ) -> bool {
        gives_latest(self.path@, size, file, latest)
    }

    /// Whether `bytes` are what a row adds to the end of the file: its line and a
    /// line feed.
    pub open spec fn adds(self, row: Row, bytes: Seq<u8>) -> bool {
        exists|line: Seq<char>| #[trigger]
            row.written_as(line) && bytes == encode_utf8(line).push(10)
    }

    /// The store in the file at `path`. Every write is synced to the disk.
    pub fn new(path: String) -> (store: Self)
        ensures
            store.path == path,
            store.fsync,
    {
        JsonlStore { path, fsync: true }
    }

    /// The same store, without the syncing.
    pub fn no_fsync(self) -> (store: Self)
        ensures
            store == self.unsynced(),
    {
        JsonlStore { path: self.path, fsync: false }
    }

    /// The checkpoints of the file in the order in which they were written. A file
    /// that is not there holds none.
    pub fn iter_checkpoints(&self, file: Option<JsonlFile>) -> (rows: Result<
        Vec<Checkpoint>,
        ResumeError,
    >)
        ensures
            gives_rows(file, rows_result(rows)),
    {
        let read = match file {
            None => {
                let rows: Vec<Checkpoint> = Vec::new();
                assert(views(rows@) =~= Seq::<Row>::empty());
                return Ok(rows);
            },
            Some(read) => read,
        };
        proof {
            use_type_invariant(&read);
        }
        let lines = split_lines(&read.bytes, read.failure.is_some());
        let ghost all = read.lines();
        let mut rows: Vec<Checkpoint> = Vec::new();
        proof {
            assert(all.take(0) =~= Seq::<Seq<u8>>::empty());
            assert(views(rows@) =~= Seq::<Row>::empty());
        }
        for i in 0..lines.len()
            invariant
                contents(lines@) == all,
                all == read.lines(),
                file == Some(read),
                !stops_turnless(all),
                read.undecodable is Some <==> stops_undecodable(all),
                first_fault(all.take(i as int)) is None,
                views(rows@) == rows_of(all.take(i as int)),
        {
            proof {
                assert(lines@[i as int]@ == all[i as int]);
                assert(all.take(i + 1).drop_last() =~= all.take(i as int));
                assert(all.take(i + 1).last() == all[i as int]);
                lemma_fault_of_prefix(all, i + 1);
            }
            let text = match decode(lines[i].as_slice()) {
                Ok(text) => text,
                Err(_) => {
                    return Err(ResumeError::from(read.undecodable.unwrap()));
                },
            };
            if !is_blank(text.as_str()) {
                match Checkpoint::from_json(text.as_str()) {
                    Ok(checkpoint) => {
                        let ghost before = rows@;
                        rows.push(checkpoint);
                        assert(views(rows@) =~= views(before).push(checkpoint@));
                    },
                    Err(error) => {
                        return Err(
                            ResumeError::CheckpointCorrupt {
                                message: error.to_string(),
                                line_number: Some(i + 1),
                            },
                        );
                    },
                }
            }
        }
        assert(all.take(all.len() as int) =~= all);
        match read.failure {
            Some(error) => Err(ResumeError::from(error)),
            None => Ok(rows),
        }
    }

    /// How many checkpoints the file holds.
    pub fn len(&self, file: Option<JsonlFile>) -> (n: Result<usize, ResumeError>)
        ensures
            gives_length(file, n),
    {
        let rows = self.iter_checkpoints(file);
        let ghost result = rows_result(rows);
        assert(gives_rows(file, result));
        match rows {
            Ok(rows) => Ok(rows.len()),
            Err(error) => Err(error),
        }
    }

    /// Whether the file holds no checkpoint.
    pub fn is_empty(&self, file: Option<JsonlFile>) -> (b: Result<bool, ResumeError>)
        ensures
            gives_emptiness(file, b),
    {
        let rows = self.iter_checkpoints(file);
        let ghost result = rows_result(rows);
        assert(gives_rows(file, result));
        match rows {
            Ok(rows) => Ok(rows.len() == 0),
            Err(error) => Err(error),
        }
    }

    /// The checkpoint that was written last. `size` is the length of the file,
    /// where the file is there and its length can be told.
    pub fn load_latest(&self, size: Option<u64>, file: Option<JsonlFile>) -> (latest: Result<
        Checkpoint,
        ResumeError,
    >)
        ensures
            self.loads(size, file, latest),
    {
        let present = match size {
            Some(n) => n != 0,
            None => false,
        };
        if !present {
            return Err(
                ResumeError::NoCheckpoint(self.path.clone().concat(" is empty or missing")),
            );
        }
        let rows = self.iter_checkpoints(file);
        let ghost result = rows_result(rows);
        assert(gives_rows(file, result));
        match rows {
            Ok(mut rows) => match rows.pop() {
                Some(checkpoint) => Ok(checkpoint),
                None => Err(
                    ResumeError::NoCheckpoint(
                        self.path.clone().concat(" contains no checkpoints"),
                    ),
                ),
            },
            Err(error) => Err(error),
        }
    }

    /// The bytes that a checkpoint adds to the end of the file: its line and a line
    /// feed. There always are such bytes, because the line of a checkpoint holds no
    /// line feed.
    pub fn append(&self, checkpoint: &Checkpoint) -> (bytes: Result<Vec<u8>, ResumeError>)
        ensures
            bytes is Ok,
            self.adds(checkpoint@, bytes->Ok_0@),
    {
        let line = checkpoint.to_json();
        assert(checkpoint@.written_as(line@));
        frame(line.as_str())
    }
}

/// The bytes of a line and of the line feed that ends it. A line that holds a line
/// feed of its own is refused.
pub fn frame(line: &str) -> (bytes: Result<Vec<u8>, ResumeError>)
    ensures
        match bytes {
            Ok(b) => !line@.contains('\n') && b@ == encode_utf8(line@).push(10),
            Err(error) => line@.contains('\n') && error is NewlineInPayload,
        },
{
    if has_newline(line) {
        return Err(ResumeError::NewlineInPayload);
    }
    let mut bytes = line.as_bytes_vec();
    bytes.push(10);
    Ok(bytes)
}

/// What a result of reading checkpoints holds.
pub open spec fn rows_result(rows: Result<Vec<Checkpoint>, ResumeError>) -> Result<
    Seq<Row>,
    ResumeError,
> {
    match rows {
        Ok(r) => Ok(views(r@)),
        Err(error) => Err(error),
    }
}

/// What the store at `path` gives as its latest checkpoint.
pub open spec fn gives_latest(
    path: Seq<char>,
    size: Option<u64>,
    file: Option<JsonlFile>,
    latest: Result<Checkpoint, ResumeError>,
) -> bool {
    if size is None || size == Some(0u64) {
        latest matches Err(ResumeError::NoCheckpoint(message)) && message@ == path
            + " is empty or missing"@
    } else {
        exists|rows: Result<Seq<Row>, ResumeError>| #[trigger]
            gives_rows(file, rows) && match rows {
                Ok(r) => if r.len() > 0 {
                    latest is Ok && latest->Ok_0@ == r.last()
                } else {
                    latest matches Err(ResumeError::NoCheckpoint(message)) && message@ == path
                        + " contains no checkpoints"@
                },
                Err(error) => latest == Result::<Checkpoint, ResumeError>::Err(error),
            }
    }
}

} // verus!
