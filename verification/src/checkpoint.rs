//! One row of a checkpoint store.
use crate::clock::{now, zero};
use crate::error::ResumeError;
use crate::json::{
    array_value, as_float, depth_limit, field, float_zero, in_range, is_float, is_seconds,
    json_error_is_io, json_error_text, json_of, json_parse, json_text, jsons_of, natural_value,
    no_entries, object_of, object_value, read_json, reads_as, rereads, write_json, Json,
    JsonNumber,
};
use serde_json::Value;
use vstd::prelude::*;

verus! {

/// One row of a checkpoint store: how far a job has come.
#[derive(Debug, PartialEq)]
pub struct Checkpoint {
    /// How many checkpoints the job has made.
    pub turn: u64,
    /// What the job keeps from one item to the next.
    pub state: serde_json::Map<String, Value>,
    /// The keys of the items that are done.
    pub completed_items: Vec<Value>,
    /// When the row was made: seconds since the Unix epoch, as a JSON float.
    pub timestamp: Value,
}

/// What a [`Checkpoint`] holds.
#[verifier::ext_equal]
pub struct Row {
    pub turn: u64,
    pub state: Map<Seq<char>, Json>,
    pub completed_items: Seq<Json>,
    pub timestamp: Json,
}

impl Row {
    /// The row as a JSON object.
    pub open spec fn json(self) -> Json {
        Json::Object(
            no_entries().insert("turn"@, Json::Number(JsonNumber::Natural(self.turn))).insert(
                "state"@,
                Json::Object(self.state),
            ).insert("completed_items"@, Json::Array(self.completed_items)).insert(
                "timestamp"@,
                self.timestamp,
            ),
        )
    }

    /// The row that a JSON value stands for. It has to have a turn, and no other
    /// field: what is missing, or is of another kind, counts as empty or zero.
    pub open spec fn of(json: Json) -> Option<Row> {
        match json.field("turn"@).natural() {
            Some(turn) => Some(
                Row {
                    turn,
                    state: match json.field("state"@) {
                        Json::Object(entries) => entries,
                        _ => no_entries(),
                    },
                    completed_items: match json.field("completed_items"@) {
                        Json::Array(items) => items,
                        _ => Seq::empty(),
                    },
                    timestamp: match json.field("timestamp"@).float() {
                        Some(float) => float,
                        None => float_zero(),
                    },
                },
            ),
            None => None,
        }
    }

    /// Whether `again` is what comes back of this row when its text is read: the
    /// same turn, and the same state, items and time but that a float in them is
    /// what its own text reads as. Whole numbers come back as they are.
    pub open spec fn comes_back_as(self, again: Row) -> bool {
        let depth = (depth_limit() - 1) as nat;
        &&& again.turn == self.turn
        &&& rereads(Json::Object(self.state), Json::Object(again.state), depth)
        &&& rereads(Json::Array(self.completed_items), Json::Array(again.completed_items), depth)
        &&& is_float(self.timestamp) ==> rereads(self.timestamp, again.timestamp, depth)
        &&& self.timestamp is Number && !is_float(self.timestamp) ==> self.timestamp.float()
            == Some(again.timestamp)
        &&& !(self.timestamp is Number) ==> again.timestamp == float_zero()
    }

    /// Whether `line` is how the row is written: the compact text of its object,
    /// without a control character. Read again, the line gives the row back, and it
    /// can be read unless it nests too deep or holds a float too large.
    pub open spec fn written_as(self, line: Seq<char>) -> bool {
        &&& line == json_text(self.json())
        &&& line.len() > 0
        &&& line[0] == '{'
        &&& forall|i: int| 0 <= i < line.len() ==> (#[trigger] line[i]) >= ' '
        &&& json_parse(line) matches Ok(json) ==> Row::of(json) is Some && self.comes_back_as(
            Row::of(json)->0,
        )
        &&& in_range(self.json(), depth_limit()) ==> json_parse(line) is Ok
    }

    /// Whether every float in the state and the completed items is what its own
    /// text reads as.
    pub open spec fn steady(self) -> bool {
        let depth = (depth_limit() - 1) as nat;
        &&& rereads(Json::Object(self.state), Json::Object(self.state), depth)
        &&& rereads(Json::Array(self.completed_items), Json::Array(self.completed_items), depth)
    }
}

/// Whether a text that reads as JSON has a turn, as every row does.
pub open spec fn has_turn(text: Seq<char>) -> bool {
    json_parse(text) matches Ok(json) ==> Row::of(json) is Some
}

impl View for Checkpoint {
    type V = Row;

    open spec fn view(&self) -> Row {
        Row {
            turn: self.turn,
            state: object_of(self.state),
            completed_items: jsons_of(self.completed_items@),
            timestamp: json_of(self.timestamp),
        }
    }
}

impl Clone for Checkpoint {
    fn clone(&self) -> (copy: Self)
        ensures
            copy@ == self@,
    {
        Checkpoint {
            turn: self.turn,
            state: self.state.clone(),
            completed_items: clone_values(&self.completed_items),
            timestamp: self.timestamp.clone(),
        }
    }
}

/// Clones values one by one.
pub fn clone_values(values: &Vec<Value>) -> (copy: Vec<Value>)
    ensures
        jsons_of(copy@) == jsons_of(values@),
{
    let copy = values.clone();
    assert(jsons_of(copy@) =~= jsons_of(values@));
    copy
}

/// The four fields of a row have four names.
pub proof fn lemma_field_names()
    ensures
        "turn"@ != "state"@,
        "turn"@ != "completed_items"@,
        "turn"@ != "timestamp"@,
        "state"@ != "completed_items"@,
        "state"@ != "timestamp"@,
        "completed_items"@ != "timestamp"@,
{
    reveal_strlit("turn");
    reveal_strlit("state");
    reveal_strlit("completed_items");
    reveal_strlit("timestamp");
    assert("turn"@.len() == 4);
    assert("state"@.len() == 5);
    assert("completed_items"@.len() == 15);
    assert("timestamp"@.len() == 9);
}

/// A row that is read again from its text comes back.
proof fn lemma_row_rereads(row: Row, again: Json)
    requires
        rereads(row.json(), again, depth_limit()),
    ensures
        Row::of(again) matches Some(other) && row.comes_back_as(other),
{
    lemma_field_names();
    let entries = row.json()->Object_0;
    let depth = (depth_limit() - 1) as nat;
    assert(entries.dom().contains("turn"@));
    assert(rereads(entries["turn"@], again.field("turn"@), depth));
    assert(entries.dom().contains("state"@));
    assert(rereads(entries["state"@], again.field("state"@), depth));
    assert(entries.dom().contains("completed_items"@));
    assert(rereads(entries["completed_items"@], again.field("completed_items"@), depth));
    assert(entries.dom().contains("timestamp"@));
    assert(rereads(entries["timestamp"@], again.field("timestamp"@), depth));
}

impl Checkpoint {
    /// A checkpoint made now.
    pub fn new(
        turn: u64,
        state: serde_json::Map<String, Value>,
        completed_items: Vec<Value>,
    ) -> (checkpoint: Self)
        ensures
            checkpoint@ == (Row {
                turn,
                state: object_of(state),
                completed_items: jsons_of(completed_items@),
                timestamp: checkpoint@.timestamp,
            }),
            is_seconds(checkpoint@.timestamp),
    {
        Checkpoint { turn, state, completed_items, timestamp: now() }
    }

    /// Writes the row as one line of JSON.
    ///
    /// The line holds no line feed. Read again, it gives back the turn, the state
    /// and the completed items, but that floats come back as their own texts read;
    /// whole numbers come back as they are. It can be read again unless it nests too
    /// deep or holds a float too large.
    pub fn to_json(&self) -> (line: String)
        ensures
            self@.written_as(line@),
            !line@.contains('\n'),
    {
        let mut row = serde_json::Map::new();
        row.insert("turn".to_owned(), natural_value(self.turn));
        row.insert("state".to_owned(), object_value(self.state.clone()));
        row.insert("completed_items".to_owned(), array_value(clone_values(&self.completed_items)));
        row.insert("timestamp".to_owned(), self.timestamp.clone());
        let value = object_value(row);
        proof {
            assert(json_of(value) == self@.json());
        }
        match write_json(&value) {
            Ok(line) => {
                proof {
                    if let Ok(json) = json_parse(line@) {
                        assert(reads_as(line@, json));
                        assert(rereads(json_of(value), json, depth_limit()));
                        lemma_row_rereads(self@, json);
                    }
                }
                line
            },
            Err(_) => "{}".to_owned(),
        }
    }

    /// The row that a JSON value stands for, or nothing where it has no turn.
    pub fn from_value(value: &Value) -> (checkpoint: Option<Checkpoint>)
        ensures
            match checkpoint {
                Some(c) => Row::of(json_of(*value)) == Some(c@),
                None => Row::of(json_of(*value)) is None,
            },
    {
        let turn: u64 = match field(value, "turn").as_u64() {
            Some(turn) => turn,
            None => return None,
        };
        let state = match field(value, "state").as_object() {
            Some(object) => object.clone(),
            None => serde_json::Map::new(),
        };
        let completed_items = match field(value, "completed_items").as_array() {
            Some(array) => clone_values(array),
            None => Vec::new(),
        };
        let timestamp = match as_float(field(value, "timestamp")) {
            Some(float) => float,
            None => zero(),
        };
        let checkpoint = Checkpoint { turn, state, completed_items, timestamp };
        assert(checkpoint@ =~= Row::of(json_of(*value))->0);
        Some(checkpoint)
    }

    /// Reads one line of JSON as a row. A line that is JSON has to have a turn:
    /// [`Checkpoint::try_from_json`] takes those without one too.
    pub fn from_json(raw: &str) -> (checkpoint: Result<Self, ResumeError>)
        requires
            has_turn(raw@),
        ensures
            match json_parse(raw@) {
                Ok(json) => checkpoint is Ok && Row::of(json) == Some(checkpoint->Ok_0@),
                Err(words) => checkpoint matches Err(ResumeError::Json(error))
                    && !json_error_is_io(error) && json_error_text(error) == words,
            },
    {
        match read_json(raw) {
            Ok(value) => Ok(Checkpoint::from_value(&value).unwrap()),
            Err(error) => Err(ResumeError::from(error)),
        }
    }

    /// Reads one line of JSON as a row, and gives nothing for a line that is JSON
    /// but has no turn.
    pub fn try_from_json(raw: &str) -> (checkpoint: Option<Result<Self, ResumeError>>)
        ensures
            checkpoint is Some <==> has_turn(raw@),
            checkpoint matches Some(c) ==> match json_parse(raw@) {
                Ok(json) => c is Ok && Row::of(json) == Some(c->Ok_0@),
                Err(words) => c matches Err(ResumeError::Json(error)) && !json_error_is_io(error)
                    && json_error_text(error) == words,
            },
    {
        if let Ok(value) = read_json(raw) {
            if field(&value, "turn").as_u64().is_none() {
                return None;
            }
        }
        Some(Checkpoint::from_json(raw))
    }
}

} // verus!
