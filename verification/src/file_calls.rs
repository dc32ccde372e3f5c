//! What the calls on checkpoint files do, and how they relate: each law speaks of
//! calls, of what went in and what came out.
use crate::checkpoint::{Checkpoint, Row};
use crate::durable::{
    a_file_without_rows_has_no_latest, an_append_adds_one_row, an_append_is_one_line,
    appended_row_is_read_last, latest_is_the_last_row, length_counts_the_rows, readable,
    the_first_append_makes_one_row, whole_lines, whole_values_come_back,
};
use crate::error::{same_error, ResumeError};
use crate::json::{
    depth_limit, is_float, json_of, json_parse, jsons_of, object_of, rereads, whole_floats, Json,
};
use crate::jsonl::{
    contents, ended_lines, first_fault, frame, lines_of, open_line, rows_result, split_lines,
    views, JsonlFile, JsonlStore,
};
use crate::reading::{
    a_file_gives_every_row, a_file_gives_its_failure, a_file_gives_its_first_fault,
    a_line_means_one_thing, a_row_is_held_in_fields, is_blank_line, is_good_line, is_row_line,
    joined, lines_count_in_order, lines_make_up_the_file, the_first_bad_line_stops_the_reading,
    turns,
};
use vstd::prelude::*;
use vstd::utf8::{decode_utf8, encode_utf8, valid_utf8};

verus! {

/// Splitting cuts the bytes behind every line feed. The lines are the pieces in
/// their order, without the line feed and without one carriage return before it; what
/// follows the last line feed is a line as it is, unless it is empty or the reading
/// broke off. Gives the pieces and what follows them.
pub proof fn split_lines_cuts_at_line_feeds(
    bytes: Vec<u8>,
    broke_off: bool,
    lines: Vec<Vec<u8>>,
) -> (pieces: (Seq<Seq<u8>>, Seq<u8>))
    requires
        call_ensures(split_lines, (&bytes, broke_off), lines),
    ensures
        joined(pieces.0) + pieces.1 == bytes@,
        forall|i: int| 0 <= i < pieces.0.len() ==> !(#[trigger] pieces.0[i]).contains(10),
        !pieces.1.contains(10),
        lines@.len() == pieces.0.len() + if broke_off || pieces.1.len() == 0 {
            0int
        } else {
            1int
        },
        forall|i: int|
            0 <= i < pieces.0.len() ==> {
                let line = (#[trigger] lines@[i])@;
                ||| pieces.0[i] == line.push(13)
                ||| pieces.0[i] == line && !(line.len() > 0 && line.last() == 13)
            },
        !broke_off && pieces.1.len() > 0 ==> lines@.last()@ == pieces.1,
{
    let all = lines_of(bytes@, broke_off);
    lines_make_up_the_file(bytes@);
    lines_count_in_order(bytes@, broke_off);
    assert(contents(lines@).len() == lines@.len());
    assert forall|i: int| 0 <= i < ended_lines(bytes@).len() implies {
        let line = (#[trigger] lines@[i])@;
        ||| ended_lines(bytes@)[i] == line.push(13)
        ||| ended_lines(bytes@)[i] == line && !(line.len() > 0 && line.last() == 13)
    } by {
        assert(all[i] == lines@[i]@);
    }
    if !broke_off && open_line(bytes@).len() > 0 {
        assert(all.last() == lines@.last()@);
    }
    (ended_lines(bytes@), open_line(bytes@))
}

/// A file keeps the bytes and the failure that it is made of. It can be made unless
/// the first line that is not good is JSON without a turn.
pub proof fn a_file_keeps_what_was_read(
    bytes: Vec<u8>,
    failure: Option<std::io::Error>,
    file: Option<JsonlFile>,
    lines: Vec<Vec<u8>>,
)
    requires
        call_ensures(JsonlFile::new, (bytes, failure), file),
        call_ensures(split_lines, (&bytes, failure is Some), lines),
    ensures
        file matches Some(f) ==> f.bytes() == bytes@ && f.failure() == failure,
        file is None <==> exists|i: int|
            {
                let line = (#[trigger] lines@[i])@;
                &&& 0 <= i < lines@.len()
                &&& forall|j: int| 0 <= j < i ==> is_good_line((#[trigger] lines@[j])@)
                &&& valid_utf8(line)
                &&& !is_blank_line(line)
                &&& json_parse(decode_utf8(line)) matches Ok(json)
                &&& !turns(json)
            },
{
    let all = lines_of(bytes@, failure is Some);
    let nothing = Row {
        turn: 0,
        state: Map::empty(),
        completed_items: Seq::empty(),
        timestamp: Json::Null,
    };
    assert(contents(lines@) == all);
    assert forall|i: int| 0 <= i < lines@.len() implies (#[trigger] lines@[i])@ == all[i] by {
        assert(contents(lines@)[i] == lines@[i]@);
    }
    if file is None {
        let i = first_fault(all)->0;
        the_first_bad_line_stops_the_reading(all, i);
        a_line_means_one_thing(all[i], nothing);
        a_row_is_held_in_fields(json_parse(decode_utf8(all[i]))->Ok_0, nothing);
        assert(lines@[i]@ == all[i]);
        assert forall|j: int| 0 <= j < i implies is_good_line((#[trigger] lines@[j])@) by {
            assert(all[j] == lines@[j]@);
        }
    }
    if exists|i: int|
        {
            let line = (#[trigger] lines@[i])@;
            &&& 0 <= i < lines@.len()
            &&& forall|j: int| 0 <= j < i ==> is_good_line((#[trigger] lines@[j])@)
            &&& valid_utf8(line)
            &&& !is_blank_line(line)
            &&& json_parse(decode_utf8(line)) matches Ok(json)
            &&& !turns(json)
        } {
        let i = choose|i: int|
            {
                let line = (#[trigger] lines@[i])@;
                &&& 0 <= i < lines@.len()
                &&& forall|j: int| 0 <= j < i ==> is_good_line((#[trigger] lines@[j])@)
                &&& valid_utf8(line)
                &&& !is_blank_line(line)
                &&& json_parse(decode_utf8(line)) matches Ok(json)
                &&& !turns(json)
            };
        let json = json_parse(decode_utf8(all[i]))->Ok_0;
        assert(lines@[i]@ == all[i]);
        assert forall|j: int| 0 <= j < i implies is_good_line(#[trigger] all[j]) by {
            assert(lines@[j]@ == all[j]);
        }
        a_row_is_held_in_fields(json, nothing);
        a_line_means_one_thing(all[i], nothing);
        assert(!is_good_line(all[i])) by {
            if exists|row: Row| is_row_line(all[i], row) {
                let row = choose|row: Row| is_row_line(all[i], row);
                a_row_is_held_in_fields(json, row);
            }
        }
        the_first_bad_line_stops_the_reading(all, i);
    }
}

/// Every row of a file is read, in the order of the lines. Where all lines are good
/// and the reading did not break off, there is one checkpoint for each line that is
/// not blank, and it is what the line holds. The indices are the places of those
/// lines.
pub proof fn iter_checkpoints_reads_every_row(
    store: JsonlStore,
    bytes: Vec<u8>,
    file: JsonlFile,
    lines: Vec<Vec<u8>>,
    rows: Result<Vec<Checkpoint>, ResumeError>,
) -> (indices: Seq<int>)
    requires
        call_ensures(JsonlFile::new, (bytes, None), Some(file)),
        call_ensures(split_lines, (&bytes, false), lines),
        call_ensures(JsonlStore::iter_checkpoints, (&store, Some(file)), rows),
        forall|i: int| 0 <= i < lines@.len() ==> is_good_line((#[trigger] lines@[i])@),
    ensures
        rows is Ok,
        rows->Ok_0@.len() == indices.len(),
        forall|k: int, l: int|
            0 <= k < l < indices.len() ==> #[trigger] indices[k] < #[trigger] indices[l],
        forall|i: int| #[trigger]
            indices.contains(i) <==> 0 <= i < lines@.len() && !is_blank_line(lines@[i]@),
        forall|k: int|
            0 <= k < indices.len() ==> is_row_line(
                lines@[indices[k]]@,
                (#[trigger] rows->Ok_0@[k])@,
            ),
{
    let all = lines_of(bytes@, false);
    let none: Option<std::io::Error> = None;
    assert(call_ensures(JsonlFile::new, (bytes, none), Some(file)));
    assert(contents(lines@) == all);
    assert forall|i: int| 0 <= i < all.len() implies is_good_line(#[trigger] all[i]) by {
        assert(contents(lines@)[i] == lines@[i]@);
    }
    let indices = a_file_gives_every_row(file, rows_result(rows));
    let read = rows->Ok_0@;
    assert(views(read).len() == read.len());
    assert forall|i: int| #[trigger]
        indices.contains(i) <==> 0 <= i < lines@.len() && !is_blank_line(lines@[i]@) by {
        if 0 <= i < lines@.len() {
            assert(contents(lines@)[i] == lines@[i]@);
        }
    }
    assert forall|k: int| 0 <= k < indices.len() implies is_row_line(
        lines@[indices[k]]@,
        (#[trigger] read[k])@,
    ) by {
        assert(views(read)[k] == read[k]@);
        assert(indices.contains(indices[k]));
        assert(contents(lines@)[indices[k]] == lines@[indices[k]]@);
        assert(is_row_line(all[indices[k]], rows_result(rows)->Ok_0[k]));
    }
    indices
}

/// The first line that is not good stops the reading, and no rows are given. One that
/// is not JSON gives the reason and the number of the line, counted from one with all
/// lines before it; one that is not text gives an input error.
pub proof fn iter_checkpoints_stops_at_the_first_fault(
    store: JsonlStore,
    bytes: Vec<u8>,
    failure: Option<std::io::Error>,
    file: JsonlFile,
    lines: Vec<Vec<u8>>,
    rows: Result<Vec<Checkpoint>, ResumeError>,
    i: int,
)
    requires
        call_ensures(JsonlFile::new, (bytes, failure), Some(file)),
        call_ensures(split_lines, (&bytes, failure is Some), lines),
        call_ensures(JsonlStore::iter_checkpoints, (&store, Some(file)), rows),
        0 <= i < lines@.len(),
        !is_good_line(lines@[i]@),
        forall|j: int| 0 <= j < i ==> is_good_line((#[trigger] lines@[j])@),
    ensures
        rows is Err,
        valid_utf8(lines@[i]@) ==> {
            &&& json_parse(decode_utf8(lines@[i]@)) matches Err(words)
            &&& rows matches Err(ResumeError::CheckpointCorrupt { message, line_number })
            &&& message@ == "JSON error: "@ + words
            &&& line_number == Some((i + 1) as usize)
        },
        !valid_utf8(lines@[i]@) ==> rows matches Err(ResumeError::Io(_)),
{
    let all = lines_of(bytes@, failure is Some);
    assert(contents(lines@) == all);
    assert(contents(lines@)[i] == lines@[i]@);
    assert forall|j: int| 0 <= j < i implies is_good_line(#[trigger] all[j]) by {
        assert(contents(lines@)[j] == lines@[j]@);
    }
    a_file_gives_its_first_fault(file, rows_result(rows), i);
}

/// A file that is not there gives no rows and no error. One whose reading broke off
/// behind good lines gives what broke it off.
pub proof fn iter_checkpoints_gives_the_failure(
    store: JsonlStore,
    absent: Result<Vec<Checkpoint>, ResumeError>,
    bytes: Vec<u8>,
    error: std::io::Error,
    file: JsonlFile,
    lines: Vec<Vec<u8>>,
    rows: Result<Vec<Checkpoint>, ResumeError>,
)
    requires
        call_ensures(JsonlStore::iter_checkpoints, (&store, None), absent),
        call_ensures(JsonlFile::new, (bytes, Some(error)), Some(file)),
        call_ensures(split_lines, (&bytes, true), lines),
        call_ensures(JsonlStore::iter_checkpoints, (&store, Some(file)), rows),
        forall|i: int| 0 <= i < lines@.len() ==> is_good_line((#[trigger] lines@[i])@),
    ensures
        absent is Ok,
        absent->Ok_0@.len() == 0,
        rows matches Err(ResumeError::Io(e)) && e == error,
{
    let all = lines_of(bytes@, true);
    let none: Option<JsonlFile> = None;
    let some: Option<std::io::Error> = Some(error);
    assert(call_ensures(JsonlStore::iter_checkpoints, (&store, none), absent));
    assert(call_ensures(JsonlFile::new, (bytes, some), Some(file)));
    assert(contents(lines@) == all);
    assert forall|i: int| 0 <= i < all.len() implies is_good_line(#[trigger] all[i]) by {
        assert(contents(lines@)[i] == lines@[i]@);
    }
    a_file_gives_its_failure(none, rows_result(absent));
    assert(views(absent->Ok_0@).len() == absent->Ok_0@.len());
    a_file_gives_its_failure(Some(file), rows_result(rows));
}

/// The calls that read a file agree, whichever store at the path makes them. Where
/// the checkpoints are read, their number is the length, the file is empty where
/// there are none, and the latest is the last of them. Where they are not, every call
/// gives the same error.
pub proof fn the_calls_on_a_file_agree(
    one: JsonlStore,
    other: JsonlStore,
    file: Option<JsonlFile>,
    size: u64,
    rows: Result<Vec<Checkpoint>, ResumeError>,
    length: Result<usize, ResumeError>,
    empty: Result<bool, ResumeError>,
    latest: Result<Checkpoint, ResumeError>,
)
    requires
        size > 0,
        one.path@ == other.path@,
        call_ensures(JsonlStore::iter_checkpoints, (&one, file), rows),
        call_ensures(JsonlStore::len, (&other, file), length),
        call_ensures(JsonlStore::is_empty, (&other, file), empty),
        call_ensures(JsonlStore::load_latest, (&other, Some(size), file), latest),
    ensures
        rows matches Ok(r) ==> {
            &&& length matches Ok(n) && n == r@.len()
            &&& empty matches Ok(b) && b == (r@.len() == 0)
            &&& r@.len() > 0 ==> latest is Ok && latest->Ok_0@ == r@.last()@
            &&& r@.len() == 0 ==> {
                &&& latest matches Err(ResumeError::NoCheckpoint(message))
                &&& message@ == one.path@ + " contains no checkpoints"@
            }
        },
        rows matches Err(error) ==> {
            &&& length matches Err(e) && same_error(error, e)
            &&& empty matches Err(e) && same_error(error, e)
            &&& latest matches Err(e) && same_error(error, e)
        },
{
    let result = rows_result(rows);
    length_counts_the_rows(file, result, length, empty);
    latest_is_the_last_row(other.path@, size, file, result, latest);
    if let Ok(r) = rows {
        assert(views(r@).len() == r@.len());
        if r@.len() > 0 {
            assert(views(r@).last() == r@.last()@);
        } else {
            a_file_without_rows_has_no_latest(other, Some(size), file, latest, result);
        }
    }
}

/// A file that is not there, whose length cannot be told, or that is empty, has no
/// latest checkpoint, and the error names the file.
pub proof fn load_latest_tells_an_empty_file(
    store: JsonlStore,
    size: Option<u64>,
    file: Option<JsonlFile>,
    latest: Result<Checkpoint, ResumeError>,
)
    requires
        size is None || size == Some(0u64),
        call_ensures(JsonlStore::load_latest, (&store, size, file), latest),
    ensures
        latest matches Err(ResumeError::NoCheckpoint(message)) && message@ == store.path@
            + " is empty or missing"@,
{
}

/// A new store has the path that it is given and syncs. One that stops syncing keeps
/// the path, and stopping twice is the same as once.
pub proof fn a_store_keeps_its_path(
    path: String,
    store: JsonlStore,
    unsynced: JsonlStore,
    twice: JsonlStore,
)
    requires
        call_ensures(JsonlStore::new, (path,), store),
        call_ensures(JsonlStore::no_fsync, (store,), unsynced),
        call_ensures(JsonlStore::no_fsync, (unsynced,), twice),
    ensures
        store.path == path,
        store.fsync,
        unsynced.path == path,
        !unsynced.fsync,
        twice == unsynced,
{
}

/// An append gives bytes for every checkpoint, whatever its turn: one line, which is
/// the text that the checkpoint is written as, and a line feed. Two stores give the
/// same bytes.
pub proof fn append_gives_the_line_of_the_checkpoint(
    one: JsonlStore,
    other: JsonlStore,
    checkpoint: Checkpoint,
    line: String,
    bytes: Result<Vec<u8>, ResumeError>,
    bytes_again: Result<Vec<u8>, ResumeError>,
)
    requires
        call_ensures(Checkpoint::to_json, (&checkpoint,), line),
        call_ensures(JsonlStore::append, (&one, &checkpoint), bytes),
        call_ensures(JsonlStore::append, (&other, &checkpoint), bytes_again),
    ensures
        bytes is Ok,
        bytes->Ok_0@ == encode_utf8(line@).push(10),
        forall|i: int|
            0 <= i < bytes->Ok_0@.len() - 1 ==> #[trigger] bytes->Ok_0@[i] != 10,
        bytes_again is Ok,
        bytes_again->Ok_0@ == bytes->Ok_0@,
{
    an_append_is_one_line(one, checkpoint@, bytes->Ok_0@);
}

/// A line is framed exactly where it holds no line feed: its bytes and a line feed.
pub proof fn frame_ends_the_line(line: &str, bytes: Result<Vec<u8>, ResumeError>)
    requires
        call_ensures(frame, (line,), bytes),
    ensures
        bytes is Ok <==> forall|i: int| 0 <= i < line@.len() ==> #[trigger] line@[i] != '\n',
        bytes matches Ok(b) ==> b@ == encode_utf8(line@).push(10),
        bytes matches Err(error) ==> error is NewlineInPayload,
{
    if bytes is Ok {
        assert forall|i: int| 0 <= i < line@.len() implies #[trigger] line@[i] != '\n' by {
            if line@[i] == '\n' {
                assert(line@.contains('\n'));
            }
        }
    }
}

/// What was appended is read. A store reads the checkpoints of a file of whole lines,
/// appends one more, and reads the file with the new bytes at its end: it gets all
/// the checkpoints from before, in their order, and then the one that was appended,
/// with its turn, the same fields of its state and the same completed items, but that
/// floats come back as their own texts read. Where all floats in it are whole, it is
/// the same with its time. Left out are checkpoints that cannot be read again.
pub proof fn what_was_appended_is_read(
    store: JsonlStore,
    before: Vec<u8>,
    file_before: JsonlFile,
    rows_before: Result<Vec<Checkpoint>, ResumeError>,
    checkpoint: Checkpoint,
    bytes: Result<Vec<u8>, ResumeError>,
    after: Vec<u8>,
    file_after: Option<JsonlFile>,
    rows_after: Result<Vec<Checkpoint>, ResumeError>,
)
    requires
        whole_lines(before@),
        call_ensures(JsonlFile::new, (before, None), Some(file_before)),
        call_ensures(JsonlStore::iter_checkpoints, (&store, Some(file_before)), rows_before),
        rows_before is Ok,
        readable(checkpoint@),
        call_ensures(JsonlStore::append, (&store, &checkpoint), bytes),
        after@ == before@ + bytes->Ok_0@,
        call_ensures(JsonlFile::new, (after, None), file_after),
        call_ensures(JsonlStore::iter_checkpoints, (&store, file_after), rows_after),
    ensures
        bytes is Ok,
        whole_lines(after@),
        file_after is Some,
        rows_after is Ok,
        rows_after->Ok_0@.len() == rows_before->Ok_0@.len() + 1,
        forall|i: int|
            0 <= i < rows_before->Ok_0@.len() ==> (#[trigger] rows_after->Ok_0@[i])@
                == rows_before->Ok_0@[i]@,
        ({
            let again = rows_after->Ok_0@.last();
            let depth = (depth_limit() - 1) as nat;
            let state = Json::Object(object_of(checkpoint.state));
            let items = Json::Array(jsons_of(checkpoint.completed_items@));
            let time = json_of(checkpoint.timestamp);
            &&& again.turn == checkpoint.turn
            &&& rereads(state, Json::Object(object_of(again.state)), depth)
            &&& rereads(items, Json::Array(jsons_of(again.completed_items@)), depth)
            &&& is_float(time) ==> rereads(time, json_of(again.timestamp), depth)
            &&& is_float(time) && whole_floats(time, depth) ==> json_of(again.timestamp) == time
            &&& whole_floats(state, depth) ==> object_of(again.state) == object_of(
                checkpoint.state,
            )
            &&& whole_floats(items, depth) ==> jsons_of(again.completed_items@) == jsons_of(
                checkpoint.completed_items@,
            )
        }),
{
    let none: Option<std::io::Error> = None;
    assert(call_ensures(JsonlFile::new, (before, none), Some(file_before)));
    assert(call_ensures(JsonlFile::new, (after, none), file_after));
    let row = checkpoint@;
    let added = bytes->Ok_0@;
    let line = choose|line: Seq<char>| #[trigger]
        row.written_as(line) && added == encode_utf8(line).push(10);
    appended_row_is_read_last(before@, row, line);
    assert(file_after is Some);
    an_append_adds_one_row(
        store,
        row,
        added,
        file_before,
        rows_result(rows_before),
        file_after->0,
        rows_result(rows_after),
    );
    let old_rows = rows_before->Ok_0@;
    let new_rows = rows_after->Ok_0@;
    assert(views(old_rows).len() == old_rows.len());
    assert(views(new_rows).len() == new_rows.len());
    assert forall|i: int| 0 <= i < old_rows.len() implies (#[trigger] new_rows[i])@
        == old_rows[i]@ by {
        assert(views(old_rows)[i] == old_rows[i]@);
        assert(views(new_rows)[i] == new_rows[i]@);
    }
    let again = new_rows.last();
    assert(views(new_rows).last() == again@);
    let depth = (depth_limit() - 1) as nat;
    if whole_floats(Json::Object(row.state), depth) {
        whole_values_come_back(
            Json::Object(row.state),
            Json::Object(again@.state),
            depth,
        );
    }
    if whole_floats(Json::Array(row.completed_items), depth) {
        whole_values_come_back(
            Json::Array(row.completed_items),
            Json::Array(again@.completed_items),
            depth,
        );
    }
}

/// The first checkpoint that is appended to a file that is not there makes a file
/// from which one checkpoint is read.
pub proof fn the_first_appended_is_read(
    store: JsonlStore,
    checkpoint: Checkpoint,
    bytes: Result<Vec<u8>, ResumeError>,
    file: JsonlFile,
    rows: Result<Vec<Checkpoint>, ResumeError>,
)
    requires
        readable(checkpoint@),
        call_ensures(JsonlStore::append, (&store, &checkpoint), bytes),
        call_ensures(JsonlFile::new, (bytes->Ok_0, None), Some(file)),
        call_ensures(JsonlStore::iter_checkpoints, (&store, Some(file)), rows),
    ensures
        bytes is Ok,
        whole_lines(bytes->Ok_0@),
        rows is Ok,
        rows->Ok_0@.len() == 1,
        rows->Ok_0@[0].turn == checkpoint.turn,
        checkpoint@.comes_back_as(rows->Ok_0@[0]@),
{
    let none: Option<std::io::Error> = None;
    assert(call_ensures(JsonlFile::new, (bytes->Ok_0, none), Some(file)));
    the_first_append_makes_one_row(store, checkpoint@, bytes->Ok_0@, file, rows_result(rows));
    assert(views(rows->Ok_0@).len() == rows->Ok_0@.len());
    assert(views(rows->Ok_0@)[0] == rows->Ok_0@[0]@);
}

} // verus!
