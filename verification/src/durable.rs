//! What holds of checkpoints that are written to a file and read again.
use crate::checkpoint::{has_turn, Checkpoint, Row};
use crate::error::{same_error, ResumeError};
use crate::json::{
    depth_limit, float_free, in_range, is_float, is_seconds, json_parse, json_text, rereads,
    whole_floats, Json,
};
use crate::jsonl::{
    ended_lines, first_fault, gives_emptiness, gives_latest, gives_length, gives_rows, lines_of,
    meaning, open_line, rows_of, trimmed, JsonlFile, JsonlStore, Line,
};
use crate::resumable::Progress;
use crate::text::{blank, is_white_space};
use serde_json::Value;
use vstd::prelude::*;
use vstd::utf8::{
    decode_utf8, encode_scalar, encode_utf8, encode_utf8_decode_utf8, encode_utf8_valid_utf8,
    has_width_1_encoding, last_continuation_byte, leading_byte_width_1, leading_byte_width_2,
    leading_byte_width_3, leading_byte_width_4, second_last_continuation_byte,
    third_last_continuation_byte, valid_utf8,
};

verus! {

/// The bytes of a character that is no control character are no control
/// characters.
proof fn lemma_char_bytes(character: char)
    requires
        character >= ' ',
    ensures
        forall|i: int|
            0 <= i < encode_scalar(character as u32).len() ==> #[trigger] encode_scalar(
                character as u32,
            )[i] >= 0x20,
        encode_scalar(character as u32).len() > 0,
{
    let c = character as u32;
    assert(0x20 <= c);
    assert(has_width_1_encoding(c) ==> leading_byte_width_1(c) >= 0x20) by (bit_vector)
        requires
            0x20 <= c,
    ;
    assert(leading_byte_width_2(c) >= 0x20) by (bit_vector);
    assert(leading_byte_width_3(c) >= 0x20) by (bit_vector);
    assert(leading_byte_width_4(c) >= 0x20) by (bit_vector);
    assert(last_continuation_byte(c) >= 0x20) by (bit_vector);
    assert(second_last_continuation_byte(c) >= 0x20) by (bit_vector);
    assert(third_last_continuation_byte(c) >= 0x20) by (bit_vector);
}

/// The bytes of a text without control characters are no control characters.
proof fn lemma_text_bytes(text: Seq<char>)
    requires
        forall|i: int| 0 <= i < text.len() ==> (#[trigger] text[i]) >= ' ',
    ensures
        forall|i: int| 0 <= i < encode_utf8(text).len() ==> #[trigger] encode_utf8(text)[i] >= 0x20,
        text.len() > 0 ==> encode_utf8(text).len() > 0,
    decreases text.len(),
{
    if text.len() > 0 {
        let rest = text.drop_first();
        assert(text[0] >= ' ');
        let first = encode_scalar(text[0] as u32);
        lemma_char_bytes(text[0]);
        assert forall|i: int| 0 <= i < rest.len() implies (#[trigger] rest[i]) >= ' ' by {
            assert(rest[i] == text[i + 1]);
        }
        lemma_text_bytes(rest);
        assert forall|i: int| 0 <= i < encode_utf8(text).len() implies #[trigger] encode_utf8(
            text,
        )[i] >= 0x20 by {
            if i < first.len() {
                assert(first[i] >= 0x20);
            } else {
                assert(encode_utf8(rest)[i - first.len()] >= 0x20);
            }
        }
    }
}

/// A line without line feeds extends the open line of a file.
proof fn lemma_line_stays_open(before: Seq<u8>, line: Seq<u8>)
    requires
        forall|i: int| 0 <= i < line.len() ==> #[trigger] line[i] != 10,
    ensures
        ended_lines(before + line) == ended_lines(before),
        open_line(before + line) == open_line(before) + line,
    decreases line.len(),
{
    if line.len() == 0 {
        assert(before + line =~= before);
        assert(open_line(before) + line =~= open_line(before));
    } else {
        let shorter = line.drop_last();
        lemma_line_stays_open(before, shorter);
        assert((before + line).drop_last() =~= before + shorter);
        assert((before + line).last() == line.last());
        assert(line[line.len() - 1] != 10);
        assert((open_line(before) + shorter).push(line.last()) =~= open_line(before) + line);
    }
}

/// Whether the bytes of a file are whole lines.
pub open spec fn whole_lines(bytes: Seq<u8>) -> bool {
    bytes.len() == 0 || bytes.last() == 10
}

/// A line that is added to whole lines is their next line.
proof fn lemma_added_line(before: Seq<u8>, line: Seq<u8>)
    requires
        whole_lines(before),
        line.len() > 0,
        forall|i: int| 0 <= i < line.len() ==> #[trigger] line[i] >= 0x20,
    ensures
        lines_of(before + line.push(10), false) == lines_of(before, false).push(line),
{
    let after = before + line.push(10);
    lemma_line_stays_open(before, line);
    assert(after.drop_last() =~= before + line);
    assert(after.last() == 10);
    assert(open_line(before).len() == 0);
    assert(open_line(before) + line =~= line);
    assert(line[line.len() - 1] >= 0x20);
    assert(trimmed(line) == line);
    assert(lines_of(after, false) =~= lines_of(before, false).push(line));
}

/// A row that is added to a file of whole lines is read after the rows that were
/// there: it comes back as the last one, and nothing else changes. Left out are the
/// rows whose lines are not JSON to read, because they nest too deep or hold a float
/// too large.
pub proof fn appended_row_is_read_last(before: Seq<u8>, row: Row, line: Seq<char>)
    requires
        whole_lines(before),
        row.written_as(line),
        json_parse(line) is Ok,
    ensures
        ({
            let after = before + encode_utf8(line).push(10);
            &&& whole_lines(after)
            &&& lines_of(after, false) == lines_of(before, false).push(encode_utf8(line))
            &&& first_fault(lines_of(after, false)) == first_fault(lines_of(before, false))
            &&& meaning(encode_utf8(line)) matches Line::Row(again)
            &&& row.comes_back_as(again)
            &&& rows_of(lines_of(after, false)) == rows_of(lines_of(before, false)).push(again)
        }),
{
    let bytes = encode_utf8(line);
    let after = before + bytes.push(10);
    lemma_text_bytes(line);
    lemma_added_line(before, bytes);
    encode_utf8_valid_utf8(line);
    encode_utf8_decode_utf8(line);
    assert(!blank(line)) by {
        assert(!is_white_space(line[0]));
    }
    assert(lines_of(after, false).drop_last() =~= lines_of(before, false));
    assert(after.last() == 10);
}

/// A line that a row is written as, if it can be read, reads as a row: the one that
/// was written, but that floats come back as their own texts read. It can be read
/// where it does not nest too deep and its floats are of moderate magnitude.
pub proof fn a_written_row_is_read(row: Row, line: Seq<char>)
    requires
        row.written_as(line),
    ensures
        has_turn(line),
        json_parse(line) matches Ok(json) ==> Row::of(json) is Some && row.comes_back_as(
            Row::of(json)->0,
        ),
        in_range(row.json(), depth_limit()) ==> json_parse(line) is Ok,
{
}

/// What a text comes back as is one value.
proof fn lemma_rereads_one(json: Json, one: Json, other: Json, depth: nat)
    requires
        rereads(json, one, depth),
        rereads(json, other, depth),
    ensures
        one == other,
    decreases depth,
{
    match json {
        Json::Array(items) => {
            let a = one->Array_0;
            let b = other->Array_0;
            assert forall|i: int| 0 <= i < items.len() implies a[i] == b[i] by {
                assert(rereads(items[i], a[i], (depth - 1) as nat));
                assert(rereads(items[i], b[i], (depth - 1) as nat));
                lemma_rereads_one(items[i], a[i], b[i], (depth - 1) as nat);
            }
            assert(a =~= b);
        },
        Json::Object(entries) => {
            let a = one->Object_0;
            let b = other->Object_0;
            assert forall|key: Seq<char>| entries.dom().contains(key) implies a[key] == b[key] by {
                assert(rereads(entries[key], a[key], (depth - 1) as nat));
                assert(rereads(entries[key], b[key], (depth - 1) as nat));
                lemma_rereads_one(entries[key], a[key], b[key], (depth - 1) as nat);
            }
            assert(a =~= b);
        },
        _ => {},
    }
}

/// A row whose floats are what their own texts read as comes back with its turn,
/// its state and its completed items.
pub proof fn steady_rows_come_back(row: Row, again: Row)
    requires
        row.steady(),
        row.comes_back_as(again),
    ensures
        again.turn == row.turn,
        again.state == row.state,
        again.completed_items == row.completed_items,
{
    let depth = (depth_limit() - 1) as nat;
    let state = Json::Object(row.state);
    let items = Json::Array(row.completed_items);
    lemma_rereads_one(state, state, Json::Object(again.state), depth);
    lemma_rereads_one(items, items, Json::Array(again.completed_items), depth);
}

/// A value without floats has none that is not whole.
proof fn lemma_float_free_is_whole(json: Json, depth: nat)
    requires
        float_free(json, depth),
    ensures
        whole_floats(json, depth),
    decreases depth,
{
    match json {
        Json::Array(items) => {
            assert forall|i: int| 0 <= i < items.len() implies whole_floats(
                #[trigger] items[i],
                (depth - 1) as nat,
            ) by {
                lemma_float_free_is_whole(items[i], (depth - 1) as nat);
            }
        },
        Json::Object(entries) => {
            assert forall|key: Seq<char>| entries.dom().contains(key) implies whole_floats(
                #[trigger] entries[key],
                (depth - 1) as nat,
            ) by {
                lemma_float_free_is_whole(entries[key], (depth - 1) as nat);
            }
        },
        _ => {},
    }
}

/// A value whose floats are whole comes back as it is.
pub proof fn whole_values_come_back(json: Json, again: Json, depth: nat)
    requires
        whole_floats(json, depth),
        rereads(json, again, depth),
    ensures
        again == json,
    decreases depth,
{
    match json {
        Json::Array(items) => {
            let others = again->Array_0;
            assert forall|i: int| 0 <= i < items.len() implies others[i] == items[i] by {
                assert(rereads(items[i], others[i], (depth - 1) as nat));
                whole_values_come_back(items[i], others[i], (depth - 1) as nat);
            }
            assert(others =~= items);
        },
        Json::Object(entries) => {
            let others = again->Object_0;
            assert forall|key: Seq<char>| entries.dom().contains(key) implies others[key]
                == entries[key] by {
                assert(rereads(entries[key], others[key], (depth - 1) as nat));
                whole_values_come_back(entries[key], others[key], (depth - 1) as nat);
            }
            assert(others =~= entries);
        },
        _ => {},
    }
}

/// A value whose floats are whole can be read again.
proof fn lemma_whole_in_range(json: Json, depth: nat)
    requires
        whole_floats(json, depth),
    ensures
        in_range(json, depth),
    decreases depth,
{
    match json {
        Json::Array(items) => {
            assert forall|i: int| 0 <= i < items.len() implies in_range(
                #[trigger] items[i],
                (depth - 1) as nat,
            ) by {
                lemma_whole_in_range(items[i], (depth - 1) as nat);
            }
        },
        Json::Object(entries) => {
            assert forall|key: Seq<char>| entries.dom().contains(key) implies in_range(
                #[trigger] entries[key],
                (depth - 1) as nat,
            ) by {
                lemma_whole_in_range(entries[key], (depth - 1) as nat);
            }
        },
        _ => {},
    }
}

/// A row with a float of moderate magnitude as its time, in whose state and
/// completed items every float is whole, can be read again and comes back with its
/// turn, its state and its completed items.
proof fn lemma_whole_row(row: Row, line: Seq<char>)
    requires
        row.written_as(line),
        whole_floats(Json::Object(row.state), (depth_limit() - 1) as nat),
        whole_floats(Json::Array(row.completed_items), (depth_limit() - 1) as nat),
        is_float(row.timestamp),
        in_range(row.timestamp, (depth_limit() - 1) as nat),
    ensures
        row.steady(),
        json_parse(line) is Ok,
        Row::of(json_parse(line)->Ok_0) matches Some(again) && row.comes_back_as(again)
            && again.turn == row.turn && again.state == row.state && again.completed_items
            == row.completed_items,
{
    let depth = (depth_limit() - 1) as nat;
    lemma_whole_in_range(Json::Object(row.state), depth);
    lemma_whole_in_range(Json::Array(row.completed_items), depth);
    let entries = row.json()->Object_0;
    assert forall|key: Seq<char>| entries.dom().contains(key) implies in_range(
        #[trigger] entries[key],
        depth,
    ) by {
        if key == "timestamp"@ {
        } else if key == "completed_items"@ {
        } else if key == "state"@ {
        } else {
            assert(key == "turn"@);
        }
    }
    assert(in_range(row.json(), depth_limit()));
    let again = Row::of(json_parse(line)->Ok_0)->0;
    whole_values_come_back(Json::Object(row.state), Json::Object(again.state), depth);
    whole_values_come_back(
        Json::Array(row.completed_items),
        Json::Array(again.completed_items),
        depth,
    );
}

/// A row with a time of the clock, whose state and completed items hold no float
/// and do not nest too deep, can be read again and comes back with its turn, its
/// state and its completed items.
pub proof fn float_free_rows_come_back(row: Row, line: Seq<char>)
    requires
        row.written_as(line),
        float_free(Json::Object(row.state), (depth_limit() - 1) as nat),
        float_free(Json::Array(row.completed_items), (depth_limit() - 1) as nat),
        is_seconds(row.timestamp),
    ensures
        row.steady(),
        json_parse(line) is Ok,
        Row::of(json_parse(line)->Ok_0) matches Some(again) && again.turn == row.turn
            && again.state == row.state && again.completed_items == row.completed_items,
{
    lemma_float_free_is_whole(Json::Object(row.state), (depth_limit() - 1) as nat);
    lemma_float_free_is_whole(Json::Array(row.completed_items), (depth_limit() - 1) as nat);
    lemma_whole_row(row, line);
}

/// A row whose time is a whole number, and in which every other float is whole too,
/// can be read again and comes back as it is, with its time.
pub proof fn whole_rows_come_back(row: Row, line: Seq<char>)
    requires
        row.written_as(line),
        whole_floats(Json::Object(row.state), (depth_limit() - 1) as nat),
        whole_floats(Json::Array(row.completed_items), (depth_limit() - 1) as nat),
        is_float(row.timestamp),
        whole_floats(row.timestamp, 0),
    ensures
        row.steady(),
        json_parse(line) is Ok,
        Row::of(json_parse(line)->Ok_0) == Some(row),
{
    let depth = (depth_limit() - 1) as nat;
    lemma_whole_in_range(row.timestamp, depth);
    lemma_whole_row(row, line);
    let again = Row::of(json_parse(line)->Ok_0)->0;
    whole_values_come_back(row.timestamp, again.timestamp, depth);
    assert(again =~= row);
}

/// A job that is started again on a file, after the bytes of a checkpoint were
/// added to it, goes on from there: with the state, the turn and the completed
/// items of that checkpoint. The file was readable and of whole lines before. Left
/// out are rows that cannot be read again or in which a float does not come back
/// from its text.
pub proof fn restart_resumes_from_the_file<S, F: Fn(&Value) -> Value>(
    before: Seq<u8>,
    row: Row,
    line: Seq<char>,
    file: JsonlFile,
    size: u64,
    path: Seq<char>,
    latest: Result<Checkpoint, ResumeError>,
    store: S,
    initial_state: Option<serde_json::Map<String, Value>>,
    items: Seq<Value>,
    item_key: Option<F>,
)
    requires
        whole_lines(before),
        first_fault(lines_of(before, false)) is None,
        row.written_as(line),
        json_parse(line) is Ok,
        row.steady(),
        file.bytes() == before + encode_utf8(line).push(10),
        file.failure() is None,
        size == file.bytes().len(),
        gives_latest(path, Some(size), Some(file), latest),
    ensures
        latest is Ok,
        row.comes_back_as(latest->Ok_0@),
        ({
            let again = Progress::started(store, initial_state, items, item_key, latest);
            &&& again.resumed
            &&& again.state == row.state
            &&& again.turn == row.turn
            &&& again.completed == row.completed_items
            &&& again.position == 0
        }),
{
    appended_row_is_read_last(before, row, line);
    let rows = choose|rows: Result<Seq<Row>, ResumeError>| #[trigger]
        gives_rows(Some(file), rows) && match rows {
            Ok(r) => if r.len() > 0 {
                latest is Ok && latest->Ok_0@ == r.last()
            } else {
                latest matches Err(ResumeError::NoCheckpoint(message)) && message@ == path
                    + " contains no checkpoints"@
            },
            Err(error) => latest == Result::<Checkpoint, ResumeError>::Err(error),
        };
    assert(size != 0);
    let again = meaning(encode_utf8(line))->Row_0;
    assert(rows == Result::<Seq<Row>, ResumeError>::Ok(
        rows_of(lines_of(before, false)).push(again),
    ));
    steady_rows_come_back(row, again);
}

/// Whether the line of a row can be read again: it does not nest too deep, and holds
/// no float too large.
pub open spec fn readable(row: Row) -> bool {
    json_parse(json_text(row.json())) is Ok
}

/// What an append adds is one line: the text of the row, which holds no line feed and
/// no carriage return, and a line feed behind it.
pub proof fn an_append_is_one_line(store: JsonlStore, row: Row, bytes: Seq<u8>)
    requires
        store.adds(row, bytes),
    ensures
        bytes.len() > 1,
        bytes.last() == 10,
        forall|i: int| 0 <= i < bytes.len() - 1 ==> #[trigger] bytes[i] >= 0x20,
        valid_utf8(bytes.drop_last()),
        decode_utf8(bytes.drop_last()) == json_text(row.json()),
{
    let line = choose|line: Seq<char>| #[trigger]
        row.written_as(line) && bytes == encode_utf8(line).push(10);
    lemma_text_bytes(line);
    encode_utf8_valid_utf8(line);
    encode_utf8_decode_utf8(line);
    assert(bytes.drop_last() =~= encode_utf8(line));
}

/// What the store appends to a file of whole lines is read again: the file still is
/// of whole lines, and the rows that it gives are all the rows that it gave before,
/// in their order, and then the one that was appended.
pub proof fn an_append_adds_one_row(
    store: JsonlStore,
    row: Row,
    bytes: Seq<u8>,
    before: JsonlFile,
    rows_before: Result<Seq<Row>, ResumeError>,
    after: JsonlFile,
    rows_after: Result<Seq<Row>, ResumeError>,
)
    requires
        store.adds(row, bytes),
        readable(row),
        whole_lines(before.bytes()),
        before.failure() is None,
        gives_rows(Some(before), rows_before),
        rows_before is Ok,
        after.bytes() == before.bytes() + bytes,
        after.failure() is None,
        gives_rows(Some(after), rows_after),
    ensures
        whole_lines(after.bytes()),
        rows_after is Ok,
        rows_after->Ok_0.len() == rows_before->Ok_0.len() + 1,
        forall|i: int|
            0 <= i < rows_before->Ok_0.len() ==> #[trigger] rows_after->Ok_0[i]
                == rows_before->Ok_0[i],
        row.comes_back_as(rows_after->Ok_0.last()),
{
    let line = choose|line: Seq<char>| #[trigger]
        row.written_as(line) && bytes == encode_utf8(line).push(10);
    appended_row_is_read_last(before.bytes(), row, line);
}

/// The first append to a file that is not there, or that holds nothing, makes a file
/// of one row.
pub proof fn the_first_append_makes_one_row(
    store: JsonlStore,
    row: Row,
    bytes: Seq<u8>,
    file: JsonlFile,
    rows: Result<Seq<Row>, ResumeError>,
)
    requires
        store.adds(row, bytes),
        readable(row),
        file.bytes() == bytes,
        file.failure() is None,
        gives_rows(Some(file), rows),
    ensures
        whole_lines(bytes),
        rows is Ok,
        rows->Ok_0.len() == 1,
        row.comes_back_as(rows->Ok_0[0]),
{
    let line = choose|line: Seq<char>| #[trigger]
        row.written_as(line) && bytes == encode_utf8(line).push(10);
    let nothing = Seq::<u8>::empty();
    assert(nothing + bytes =~= bytes);
    assert(lines_of(nothing, false) =~= Seq::<Seq<u8>>::empty());
    appended_row_is_read_last(nothing, row, line);
}

/// What comes back of a row has its turn and its keys: the same fields of the state,
/// and as many completed items. Each value is the same but that a float is what its
/// own text reads as, and a value without floats, or with whole ones, is the same.
pub proof fn what_comes_back(row: Row, again: Row)
    requires
        row.comes_back_as(again),
    ensures
        ({
            let depth = (depth_limit() - 2) as nat;
            &&& again.turn == row.turn
            &&& again.state.dom() == row.state.dom()
            &&& forall|key: Seq<char>|
                row.state.dom().contains(key) ==> rereads(
                    #[trigger] row.state[key],
                    again.state[key],
                    depth,
                )
            &&& forall|key: Seq<char>|
                row.state.dom().contains(key) && whole_floats(#[trigger] row.state[key], depth)
                    ==> again.state[key] == row.state[key]
            &&& again.completed_items.len() == row.completed_items.len()
            &&& forall|i: int|
                0 <= i < row.completed_items.len() ==> rereads(
                    #[trigger] row.completed_items[i],
                    again.completed_items[i],
                    depth,
                )
            &&& forall|i: int|
                0 <= i < row.completed_items.len() && whole_floats(
                    #[trigger] row.completed_items[i],
                    depth,
                ) ==> again.completed_items[i] == row.completed_items[i]
            &&& is_float(row.timestamp) ==> rereads(row.timestamp, again.timestamp, depth)
        }),
{
    let depth = (depth_limit() - 2) as nat;
    let state = Json::Object(row.state);
    let items = Json::Array(row.completed_items);
    assert(rereads(state, Json::Object(again.state), depth + 1));
    assert(rereads(items, Json::Array(again.completed_items), depth + 1));
    assert forall|key: Seq<char>|
        row.state.dom().contains(key) && whole_floats(#[trigger] row.state[key], depth) implies
        again.state[key] == row.state[key] by {
        assert(rereads(row.state[key], again.state[key], depth));
        whole_values_come_back(row.state[key], again.state[key], depth);
    }
    assert forall|i: int|
        0 <= i < row.completed_items.len() && whole_floats(
            #[trigger] row.completed_items[i],
            depth,
        ) implies again.completed_items[i] == row.completed_items[i] by {
        assert(rereads(row.completed_items[i], again.completed_items[i], depth));
        whole_values_come_back(row.completed_items[i], again.completed_items[i], depth);
    }
}

/// A job makes a checkpoint, the store appends it to a file of whole lines that was
/// readable, and a new job is started on what the store then loads: it holds the
/// state, the turn and the completed items of the job at that checkpoint. Left out
/// are rows that cannot be read again or in which a float does not come back from its
/// text.
pub proof fn a_job_goes_on_after_an_append<S, T, F: Fn(&Value) -> Value>(
    job: Progress<S, F>,
    timestamp: Json,
    store: JsonlStore,
    bytes: Seq<u8>,
    before: JsonlFile,
    rows_before: Result<Seq<Row>, ResumeError>,
    after: JsonlFile,
    size: u64,
    latest: Result<Checkpoint, ResumeError>,
    new_store: T,
    initial_state: Option<serde_json::Map<String, Value>>,
    items: Seq<Value>,
    item_key: Option<F>,
)
    requires
        store.adds(job.row(timestamp), bytes),
        readable(job.row(timestamp)),
        job.row(timestamp).steady(),
        whole_lines(before.bytes()),
        before.failure() is None,
        gives_rows(Some(before), rows_before),
        rows_before is Ok,
        after.bytes() == before.bytes() + bytes,
        after.failure() is None,
        size == after.bytes().len(),
        store.loads(Some(size), Some(after), latest),
    ensures
        ({
            let again = Progress::started(new_store, initial_state, items, item_key, latest);
            &&& again.resumed
            &&& again.state == job.state
            &&& again.turn == job.turn
            &&& again.completed == job.completed
            &&& again.items == items
            &&& again.position == 0
        }),
{
    let row = job.row(timestamp);
    let line = choose|line: Seq<char>| #[trigger]
        row.written_as(line) && bytes == encode_utf8(line).push(10);
    restart_resumes_from_the_file(
        before.bytes(),
        row,
        line,
        after,
        size,
        store.path@,
        latest,
        new_store,
        initial_state,
        items,
        item_key,
    );
}

/// A file that is not there, whose length cannot be told, or that is empty, has no
/// latest checkpoint; the error names it. So does the error of a file without rows.
pub proof fn a_file_without_rows_has_no_latest(
    store: JsonlStore,
    size: Option<u64>,
    file: Option<JsonlFile>,
    latest: Result<Checkpoint, ResumeError>,
    rows: Result<Seq<Row>, ResumeError>,
)
    requires
        store.loads(size, file, latest),
        gives_rows(file, rows),
        size is None || size == Some(0u64) || rows is Ok && rows->Ok_0.len() == 0,
    ensures
        latest matches Err(ResumeError::NoCheckpoint(message)) && message@ == store.path@
            + if size is None || size == Some(0u64) {
            " is empty or missing"@
        } else {
            " contains no checkpoints"@
        },
{
}

/// Blank lines count for nothing.
pub proof fn blank_lines_are_skipped(lines: Seq<Seq<u8>>, line: Seq<u8>)
    requires
        meaning(line) is Blank,
    ensures
        rows_of(lines.push(line)) == rows_of(lines),
        first_fault(lines.push(line)) == first_fault(lines),
{
    assert(lines.push(line).drop_last() =~= lines);
}

/// Whether two results of reading rows are the same.
pub open spec fn same_rows(
    one: Result<Seq<Row>, ResumeError>,
    other: Result<Seq<Row>, ResumeError>,
) -> bool {
    match (one, other) {
        (Ok(a), Ok(b)) => a == b,
        (Err(a), Err(b)) => same_error(a, b),
        _ => false,
    }
}

/// Whether two results of loading a checkpoint are the same.
pub open spec fn same_latest(
    one: Result<Checkpoint, ResumeError>,
    other: Result<Checkpoint, ResumeError>,
) -> bool {
    match (one, other) {
        (Ok(a), Ok(b)) => a@ == b@,
        (Err(a), Err(b)) => same_error(a, b),
        _ => false,
    }
}

/// A file gives the same rows, or the same error, however often it is asked.
pub proof fn a_file_gives_one_result(
    file: Option<JsonlFile>,
    one: Result<Seq<Row>, ResumeError>,
    other: Result<Seq<Row>, ResumeError>,
)
    requires
        gives_rows(file, one),
        gives_rows(file, other),
    ensures
        same_rows(one, other),
{
}

/// The length of a file is the number of its rows, and where the rows cannot be
/// read it is the same error: never a count of those before the fault. A file is
/// empty where it has no rows.
pub proof fn length_counts_the_rows(
    file: Option<JsonlFile>,
    rows: Result<Seq<Row>, ResumeError>,
    length: Result<usize, ResumeError>,
    empty: Result<bool, ResumeError>,
)
    requires
        gives_rows(file, rows),
        gives_length(file, length),
        gives_emptiness(file, empty),
    ensures
        match rows {
            Ok(r) => {
                &&& length matches Ok(n) && n == r.len()
                &&& empty matches Ok(b) && b == (r.len() == 0)
            },
            Err(error) => {
                &&& length matches Err(e) && same_error(error, e)
                &&& empty matches Err(e) && same_error(error, e)
            },
        },
{
}

/// The latest checkpoint of a file that is there and not empty is its last row.
/// Where it has no rows there is none, and where the rows cannot be read it is the
/// same error.
pub proof fn latest_is_the_last_row(
    path: Seq<char>,
    size: u64,
    file: Option<JsonlFile>,
    rows: Result<Seq<Row>, ResumeError>,
    latest: Result<Checkpoint, ResumeError>,
)
    requires
        size > 0,
        gives_rows(file, rows),
        gives_latest(path, Some(size), file, latest),
    ensures
        match rows {
            Ok(r) => if r.len() > 0 {
                latest matches Ok(checkpoint) && checkpoint@ == r.last()
            } else {
                latest matches Err(error) && error is NoCheckpoint
            },
            Err(error) => latest matches Err(e) && same_error(error, e),
        },
{
}

/// A store without syncing stands for the same file: it loads the same checkpoint
/// and adds the same bytes. Asked for twice, it is the same as asked for once.
pub proof fn no_fsync_changes_nothing_else(
    store: JsonlStore,
    size: Option<u64>,
    file: Option<JsonlFile>,
    latest: Result<Checkpoint, ResumeError>,
    unsynced_latest: Result<Checkpoint, ResumeError>,
    row: Row,
    bytes: Seq<u8>,
    unsynced_bytes: Seq<u8>,
)
    requires
        store.loads(size, file, latest),
        store.unsynced().loads(size, file, unsynced_latest),
        store.adds(row, bytes),
        store.unsynced().adds(row, unsynced_bytes),
    ensures
        store.unsynced().path == store.path,
        !store.unsynced().fsync,
        store.unsynced().unsynced() == store.unsynced(),
        same_latest(latest, unsynced_latest),
        bytes == unsynced_bytes,
{
}

} // verus!
