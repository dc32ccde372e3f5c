//! What holds of the reading of a checkpoint file: how its bytes make up lines, what
//! a line means, and which rows a file gives.
use crate::checkpoint::{has_turn, Row};
use crate::error::ResumeError;
use crate::json::{float_bits, json_parse, Json, JsonNumber};
use crate::jsonl::{
    ended_lines, first_fault, gives_rows, is_fault, lines_of, meaning, open_line, rows_of,
    trimmed, JsonlFile, Line,
};
use crate::text::is_white_space;
use vstd::prelude::*;
use vstd::utf8::{decode_utf8, valid_utf8};

verus! {

/// Lines, each with a line feed behind it, one after the other.
pub open spec fn joined(lines: Seq<Seq<u8>>) -> Seq<u8>
    decreases lines.len(),
{
    if lines.len() == 0 {
        Seq::empty()
    } else {
        joined(lines.drop_last()) + lines.last().push(10)
    }
}

/// The ended lines of a file, joined, with the open line behind them, are the file
/// again. No line holds a line feed.
pub proof fn lines_make_up_the_file(bytes: Seq<u8>)
    ensures
        joined(ended_lines(bytes)) + open_line(bytes) == bytes,
        forall|i: int|
            0 <= i < ended_lines(bytes).len() ==> !(#[trigger] ended_lines(bytes)[i]).contains(10),
        !open_line(bytes).contains(10),
    decreases bytes.len(),
{
    if bytes.len() > 0 {
        let shorter = bytes.drop_last();
        lines_make_up_the_file(shorter);
        let lines = ended_lines(shorter);
        let open = open_line(shorter);
        assert(bytes =~= shorter.push(bytes.last()));
        if bytes.last() == 10 {
            assert(lines.push(open).drop_last() =~= lines);
            assert(joined(lines.push(open)) + open_line(bytes) =~= bytes);
        } else {
            assert(joined(lines) + open.push(bytes.last()) =~= bytes);
            assert forall|j: int| 0 <= j < open.push(bytes.last()).len() implies open.push(
                bytes.last(),
            )[j] != 10 by {
                if j < open.len() {
                    assert(open.contains(open[j]));
                }
            }
        }
    } else {
        assert(joined(ended_lines(bytes)) + open_line(bytes) =~= bytes);
    }
}

/// The lines that count are the ended lines, each without one carriage return at its
/// end, and then the open line as it is, where there is one and the reading did not
/// break off.
pub proof fn lines_count_in_order(bytes: Seq<u8>, broke_off: bool)
    ensures
        lines_of(bytes, broke_off).len() == ended_lines(bytes).len() + if broke_off || open_line(
            bytes,
        ).len() == 0 {
            0int
        } else {
            1int
        },
        forall|i: int|
            0 <= i < ended_lines(bytes).len() ==> {
                let line = #[trigger] lines_of(bytes, broke_off)[i];
                ||| ended_lines(bytes)[i] == line.push(13)
                ||| ended_lines(bytes)[i] == line && !(line.len() > 0 && line.last() == 13)
            },
        !broke_off && open_line(bytes).len() > 0 ==> lines_of(bytes, broke_off).last()
            == open_line(bytes),
{
    assert forall|i: int| 0 <= i < ended_lines(bytes).len() implies {
        let line = #[trigger] lines_of(bytes, broke_off)[i];
        ||| ended_lines(bytes)[i] == line.push(13)
        ||| ended_lines(bytes)[i] == line && !(line.len() > 0 && line.last() == 13)
    } by {
        let whole = ended_lines(bytes)[i];
        assert(lines_of(bytes, broke_off)[i] == trimmed(whole));
        if whole.len() > 0 && whole.last() == 13 {
            assert(whole =~= whole.drop_last().push(13));
        }
    }
}

/// Whether the fields of a JSON value hold a row. Its turn has to be there; a state
/// that is no object counts as empty, and so do completed items that are no array;
/// a time that is no number counts as zero.
pub open spec fn holds_row(json: Json, row: Row) -> bool {
    &&& json.field("turn"@) == Json::Number(JsonNumber::Natural(row.turn))
    &&& json.field("state"@) matches Json::Object(entries) ==> row.state == entries
    &&& !(json.field("state"@) is Object) ==> row.state == Map::<Seq<char>, Json>::empty()
    &&& json.field("completed_items"@) matches Json::Array(items) ==> row.completed_items == items
    &&& !(json.field("completed_items"@) is Array) ==> row.completed_items.len() == 0
    &&& match json.field("timestamp"@) {
        Json::Number(JsonNumber::Float(bits)) => row.timestamp == Json::Number(
            JsonNumber::Float(bits),
        ),
        Json::Number(integer) => row.timestamp == Json::Number(
            JsonNumber::Float(float_bits(integer)),
        ),
        _ => row.timestamp == Json::Number(JsonNumber::Float(0)),
    }
}

/// Whether a JSON value has a turn.
pub open spec fn turns(json: Json) -> bool {
    json.field("turn"@) matches Json::Number(JsonNumber::Natural(_))
}

/// A JSON value with a turn is one row, which its fields hold, and one without is
/// none.
pub proof fn a_row_is_held_in_fields(json: Json, row: Row)
    ensures
        Row::of(json) is Some <==> turns(json),
        Row::of(json) == Some(row) <==> holds_row(json, row),
{
    if holds_row(json, row) {
        assert(Row::of(json)->0 =~= row);
    }
}

/// A row that is read has every completed item and every field of the state that the
/// JSON value has, in their places, and no other.
pub proof fn nothing_is_lost_in_reading(json: Json, row: Row)
    requires
        Row::of(json) == Some(row),
    ensures
        json.field("turn"@) == Json::Number(JsonNumber::Natural(row.turn)),
        json.field("state"@) is Object ==> json.field("state"@) == Json::Object(row.state),
        json.field("completed_items"@) is Array ==> json.field("completed_items"@) == Json::Array(
            row.completed_items,
        ),
        json.field("timestamp"@) matches Json::Number(JsonNumber::Float(_)) ==> json.field(
            "timestamp"@,
        ) == row.timestamp,
        row.timestamp matches Json::Number(JsonNumber::Float(_)),
{
}

/// A text has a turn unless it reads as JSON without one.
pub proof fn a_text_has_a_turn(text: Seq<char>)
    ensures
        has_turn(text) <==> (json_parse(text) matches Ok(json) ==> turns(json)),
{
}

/// Whether a line is text and nothing but white space.
pub open spec fn is_blank_line(line: Seq<u8>) -> bool {
    &&& valid_utf8(line)
    &&& forall|i: int|
        0 <= i < decode_utf8(line).len() ==> is_white_space(#[trigger] decode_utf8(line)[i])
}

/// Whether a line is text that is not blank and reads as JSON which holds `row`.
pub open spec fn is_row_line(line: Seq<u8>, row: Row) -> bool {
    &&& valid_utf8(line)
    &&& !is_blank_line(line)
    &&& json_parse(decode_utf8(line)) matches Ok(json)
    &&& holds_row(json, row)
}

/// A line means a row, nothing, or one of three faults.
pub proof fn a_line_means_one_thing(line: Seq<u8>, row: Row)
    ensures
        meaning(line) is Undecodable <==> !valid_utf8(line),
        meaning(line) is Blank <==> is_blank_line(line),
        meaning(line) == Line::Row(row) <==> is_row_line(line, row),
        meaning(line) is Unreadable <==> valid_utf8(line) && !is_blank_line(line) && json_parse(
            decode_utf8(line),
        ) is Err,
        meaning(line) matches Line::Unreadable(words) ==> json_parse(decode_utf8(line)) == Result::<
            Json,
            Seq<char>,
        >::Err(words),
        is_fault(meaning(line)) <==> !(meaning(line) is Blank || meaning(line) is Row),
{
    if let Ok(json) = json_parse(decode_utf8(line)) {
        a_row_is_held_in_fields(json, row);
    }
}

/// Whether the reading of rows gets past a line.
pub open spec fn is_good_line(line: Seq<u8>) -> bool {
    is_blank_line(line) || exists|row: Row| is_row_line(line, row)
}

/// A line is good exactly where it is no fault.
proof fn lemma_good_line(line: Seq<u8>)
    ensures
        is_good_line(line) <==> !is_fault(meaning(line)),
{
    if let Line::Row(row) = meaning(line) {
        a_line_means_one_thing(line, row);
    }
    if exists|row: Row| is_row_line(line, row) {
        let row = choose|row: Row| is_row_line(line, row);
        a_line_means_one_thing(line, row);
    }
    let nothing = Row {
        turn: 0,
        state: Map::empty(),
        completed_items: Seq::empty(),
        timestamp: Json::Null,
    };
    a_line_means_one_thing(line, nothing);
}

/// The reading stops at a line exactly where that line is not good and all lines
/// before it are.
pub proof fn the_first_bad_line_stops_the_reading(lines: Seq<Seq<u8>>, i: int)
    ensures
        first_fault(lines) == Some(i) <==> 0 <= i < lines.len() && !is_good_line(lines[i])
            && forall|j: int| 0 <= j < i ==> is_good_line(#[trigger] lines[j]),
        first_fault(lines) is None <==> forall|j: int|
            0 <= j < lines.len() ==> is_good_line(#[trigger] lines[j]),
    decreases lines.len(),
{
    if lines.len() > 0 {
        let fewer = lines.drop_last();
        let last = lines.len() - 1;
        lemma_good_line(lines.last());
        the_first_bad_line_stops_the_reading(fewer, i);
        if let Some(k) = first_fault(fewer) {
            the_first_bad_line_stops_the_reading(fewer, k);
            assert(lines[k] == fewer[k]);
            assert forall|j: int| 0 <= j < k implies is_good_line(#[trigger] lines[j]) by {
                assert(fewer[j] == lines[j]);
            }
            if i > k {
                assert(!is_good_line(lines[k]));
            }
            if 0 <= i < k {
                assert(is_good_line(lines[i]));
            }
        } else {
            assert forall|j: int| 0 <= j < last implies is_good_line(#[trigger] lines[j]) by {
                assert(fewer[j] == lines[j]);
            }
            if 0 <= i < last {
                assert(is_good_line(lines[i]));
            }
        }
    }
}

/// The rows of good lines are one for each line that is not blank, in the order of
/// the lines, and each is what its line holds. The indices are the places of those
/// lines.
pub proof fn rows_are_the_lines_that_are_not_blank(lines: Seq<Seq<u8>>) -> (indices: Seq<int>)
    requires
        forall|i: int| 0 <= i < lines.len() ==> is_good_line(#[trigger] lines[i]),
    ensures
        forall|k: int, l: int|
            0 <= k < l < indices.len() ==> #[trigger] indices[k] < #[trigger] indices[l],
        forall|i: int| #[trigger]
            indices.contains(i) <==> 0 <= i < lines.len() && !is_blank_line(lines[i]),
        rows_of(lines).len() == indices.len(),
        forall|k: int|
            0 <= k < indices.len() ==> is_row_line(
                lines[indices[k]],
                #[trigger] rows_of(lines)[k],
            ),
    decreases lines.len(),
{
    if lines.len() == 0 {
        Seq::empty()
    } else {
        let fewer = lines.drop_last();
        let last = lines.len() - 1;
        assert forall|i: int| 0 <= i < fewer.len() implies is_good_line(#[trigger] fewer[i]) by {
            assert(fewer[i] == lines[i]);
        }
        let earlier = rows_are_the_lines_that_are_not_blank(fewer);
        assert forall|k: int| 0 <= k < earlier.len() implies 0 <= #[trigger] earlier[k] < last by {
            assert(earlier.contains(earlier[k]));
        }
        assert(is_good_line(lines[last]));
        lemma_good_line(lines[last]);
        let indices = if meaning(lines[last]) is Row {
            earlier.push(last)
        } else {
            earlier
        };
        if let Line::Row(row) = meaning(lines[last]) {
            a_line_means_one_thing(lines[last], row);
        } else {
            let nothing = Row {
                turn: 0,
                state: Map::empty(),
                completed_items: Seq::empty(),
                timestamp: Json::Null,
            };
            a_line_means_one_thing(lines[last], nothing);
        }
        assert forall|i: int| #[trigger]
            indices.contains(i) <==> 0 <= i < lines.len() && !is_blank_line(lines[i]) by {
            assert(earlier.contains(i) <==> 0 <= i < last && !is_blank_line(fewer[i]));
            if earlier.contains(i) {
                let k = choose|k: int| 0 <= k < earlier.len() && earlier[k] == i;
                assert(indices[k] == i);
            }
            if i == last && meaning(lines[last]) is Row {
                assert(indices[earlier.len() as int] == i);
            }
            if indices.contains(i) {
                let k = choose|k: int| 0 <= k < indices.len() && indices[k] == i;
                if k < earlier.len() {
                    assert(earlier[k] == i);
                }
            }
        }
        assert forall|k: int| 0 <= k < indices.len() implies is_row_line(
            lines[indices[k]],
            #[trigger] rows_of(lines)[k],
        ) by {
            if k < earlier.len() {
                assert(is_row_line(fewer[earlier[k]], rows_of(fewer)[k]));
            }
        }
        indices
    }
}

/// A file whose lines are all good, and whose reading did not break off, gives one
/// row for each line that is not blank, in the order of the lines, and each is what
/// its line holds. The indices are the places of those lines.
pub proof fn a_file_gives_every_row(
    file: JsonlFile,
    rows: Result<Seq<Row>, ResumeError>,
) -> (indices: Seq<int>)
    requires
        file.failure() is None,
        forall|i: int|
            0 <= i < lines_of(file.bytes(), false).len() ==> is_good_line(
                #[trigger] lines_of(file.bytes(), false)[i],
            ),
        gives_rows(Some(file), rows),
    ensures
        rows is Ok,
        rows->Ok_0.len() == indices.len(),
        forall|k: int, l: int|
            0 <= k < l < indices.len() ==> #[trigger] indices[k] < #[trigger] indices[l],
        forall|i: int| #[trigger]
            indices.contains(i) <==> 0 <= i < lines_of(file.bytes(), false).len()
                && !is_blank_line(lines_of(file.bytes(), false)[i]),
        forall|k: int|
            0 <= k < indices.len() ==> is_row_line(
                lines_of(file.bytes(), false)[indices[k]],
                #[trigger] rows->Ok_0[k],
            ),
{
    let lines = lines_of(file.bytes(), false);
    the_first_bad_line_stops_the_reading(lines, 0);
    rows_are_the_lines_that_are_not_blank(lines)
}

/// A file with a line that is not good gives an error and no rows. Where the first
/// such line is not JSON, the error holds the reason and the number of the line,
/// counted from one with all lines before it. Where it is not text, the error is the
/// one that its decoding gave.
pub proof fn a_file_gives_its_first_fault(
    file: JsonlFile,
    rows: Result<Seq<Row>, ResumeError>,
    i: int,
)
    requires
        ({
            let lines = lines_of(file.bytes(), file.failure() is Some);
            &&& 0 <= i < lines.len()
            &&& !is_good_line(lines[i])
            &&& forall|j: int| 0 <= j < i ==> is_good_line(#[trigger] lines[j])
        }),
        gives_rows(Some(file), rows),
    ensures
        ({
            let line = lines_of(file.bytes(), file.failure() is Some)[i];
            &&& rows is Err
            &&& valid_utf8(line) ==> {
                &&& json_parse(decode_utf8(line)) matches Err(words)
                &&& rows matches Err(ResumeError::CheckpointCorrupt { message, line_number })
                &&& message@ == "JSON error: "@ + words
                &&& line_number == Some((i + 1) as usize)
            }
            &&& !valid_utf8(line) ==> file.undecodable() is Some && rows == Result::<
                Seq<Row>,
                ResumeError,
            >::Err(ResumeError::Io(file.undecodable()->0))
        }),
{
    let lines = lines_of(file.bytes(), file.failure() is Some);
    the_first_bad_line_stops_the_reading(lines, i);
    lemma_good_line(lines[i]);
    let nothing = Row {
        turn: 0,
        state: Map::empty(),
        completed_items: Seq::empty(),
        timestamp: Json::Null,
    };
    a_line_means_one_thing(lines[i], nothing);
}

/// A file that is not there gives no rows. One whose reading broke off behind good
/// lines gives the error that broke it off, and none of the rows before it.
pub proof fn a_file_gives_its_failure(
    file: Option<JsonlFile>,
    rows: Result<Seq<Row>, ResumeError>,
)
    requires
        file matches Some(f) ==> f.failure() is Some && forall|i: int|
            0 <= i < lines_of(f.bytes(), true).len() ==> is_good_line(
                #[trigger] lines_of(f.bytes(), true)[i],
            ),
        gives_rows(file, rows),
    ensures
        file is None ==> rows is Ok && rows->Ok_0.len() == 0,
        file matches Some(f) ==> rows == Result::<Seq<Row>, ResumeError>::Err(
            ResumeError::Io(f.failure()->0),
        ),
{
    if let Some(f) = file {
        the_first_bad_line_stops_the_reading(lines_of(f.bytes(), true), 0);
    }
}

} // verus!
