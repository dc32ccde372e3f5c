//! What the calls of the library do, and how they relate: each law speaks of calls,
//! of what went in and what came out.
use crate::checkpoint::{clone_values, lemma_field_names, Checkpoint, Row};
use crate::clock::{timestamp, zero};
use crate::durable::whole_rows_come_back;
use crate::error::{io_text, json_error_message, ResumeError};
use crate::json::{
    depth_limit, in_range, is_float, is_seconds, is_text_of, json_error_is_io, json_error_text,
    json_of, json_parse, json_text, jsons_of, object_of, rereads, seconds_bits, whole_floats,
    Json, JsonNumber,
};
use crate::laws::{
    a_checkpoint_adds_one_key, completed_items_are_skipped, done_are_the_completed_texts,
    keyed_by, marked, nothing_unfinished_is_left, remaining_items_keep_their_order, text_of,
};
use crate::reading::{a_row_is_held_in_fields, holds_row, turns};
use crate::resumable::{
    are_key_texts, is_key, is_key_text, option_json, pending, pending_items, string_views,
    Progress, Resumable,
};
use crate::store::{InMemoryStore, Sink};
use crate::text::{decimal, decimal_text, digit, has_newline, is_blank, is_white_space};
use serde_json::Value;
use vstd::hash_set::StringHashSet;
use vstd::prelude::*;

verus! {

// ---- the job ----------------------------------------------------------------

/// A new job works on exactly the items that it is given, by their given keys and
/// from the first one. It takes over all that the latest checkpoint of its store
/// holds; where the store gives none it has the initial state and nothing done.
pub proof fn new_takes_the_items_and_the_checkpoint<S: Sink, F: Fn(&Value) -> Value>(
    store: S,
    initial_state: Option<serde_json::Map<String, Value>>,
    work_items: Vec<Value>,
    item_key: Option<F>,
    job: Resumable<S, F>,
)
    requires
        call_ensures(Resumable::<S, F>::new, (store, initial_state, work_items, item_key), job),
    ensures
        job@.store == store,
        job@.items == work_items@,
        job@.item_key == item_key,
        job@.position == 0,
        job@.yielded is None,
        exists|latest: Result<Checkpoint, ResumeError>| #[trigger]
            store.gives_latest(latest) && match latest {
                Ok(checkpoint) => {
                    &&& job@.resumed
                    &&& job@.state == object_of(checkpoint.state)
                    &&& job@.turn == checkpoint.turn
                    &&& job@.completed == jsons_of(checkpoint.completed_items@)
                },
                Err(_) => {
                    &&& !job@.resumed
                    &&& initial_state matches Some(state) ==> job@.state == object_of(state)
                    &&& initial_state is None ==> job@.state == Map::<Seq<char>, Json>::empty()
                    &&& job@.turn == 0
                    &&& job@.completed.len() == 0
                },
            },
{
    let latest = choose|latest: Result<Checkpoint, ResumeError>| #[trigger]
        store.gives_latest(latest) && job@ == Progress::started(
            store,
            initial_state,
            work_items@,
            item_key,
            latest,
        );
    assert(store.gives_latest(latest));
}

/// A job that is started with what a store gave works on exactly the items that it
/// is given, and takes over the checkpoint, as a new job does.
pub proof fn start_takes_the_items_and_the_checkpoint<S: Sink, F: Fn(&Value) -> Value>(
    store: S,
    initial_state: Option<serde_json::Map<String, Value>>,
    work_items: Vec<Value>,
    item_key: Option<F>,
    latest: Result<Checkpoint, ResumeError>,
    job: Resumable<S, F>,
)
    requires
        call_ensures(
            Resumable::<S, F>::start,
            (store, initial_state, work_items, item_key, latest),
            job,
        ),
    ensures
        job@.store == store,
        job@.items == work_items@,
        job@.item_key == item_key,
        job@.position == 0,
        job@.yielded is None,
        job@.resumed <==> latest is Ok,
        latest matches Ok(checkpoint) ==> {
            &&& job@.state == object_of(checkpoint.state)
            &&& job@.turn == checkpoint.turn
            &&& job@.completed == jsons_of(checkpoint.completed_items@)
        },
        latest is Err ==> {
            &&& initial_state matches Some(state) ==> job@.state == object_of(state)
            &&& initial_state is None ==> job@.state == Map::<Seq<char>, Json>::empty()
            &&& job@.turn == 0
            &&& job@.completed.len() == 0
        },
{
}

/// The calls that look at a job show what it holds.
pub proof fn a_job_shows_what_it_holds<S: Sink, F: Fn(&Value) -> Value>(
    job: Resumable<S, F>,
    state: &serde_json::Map<String, Value>,
    turn: u64,
    completed: &[Value],
    resumed: bool,
    store: &S,
    given_back: S,
)
    requires
        call_ensures(Resumable::<S, F>::state, (&job,), state),
        call_ensures(Resumable::<S, F>::turn, (&job,), turn),
        call_ensures(Resumable::<S, F>::completed_items, (&job,), completed),
        call_ensures(Resumable::<S, F>::resumed, (&job,), resumed),
        call_ensures(Resumable::<S, F>::store, (&job,), store),
        call_ensures(Resumable::<S, F>::into_store, (job,), given_back),
    ensures
        object_of(*state) == job@.state,
        turn == job@.turn,
        completed@.len() == job@.completed.len(),
        forall|i: int|
            0 <= i < completed@.len() ==> json_of(#[trigger] completed@[i]) == job@.completed[i],
        resumed == job@.resumed,
        *store == job@.store,
        given_back == job@.store,
{
    assert(jsons_of(completed@).len() == completed@.len());
    assert forall|i: int| 0 <= i < completed@.len() implies json_of(#[trigger] completed@[i])
        == job@.completed[i] by {
        assert(jsons_of(completed@)[i] == json_of(completed@[i]));
    }
}

/// A checkpoint that is handed a new state makes it the state of the job, in every
/// turn; one that is handed none leaves the state. It counts one turn. The key of the
/// item that was given out last is added to the completed ones, once and at their
/// end, unless a key with its text is there. Nothing else of the job changes but the
/// store, and the row that goes to the store holds the new turn, state and completed
/// keys.
pub proof fn checkpoint_records_the_job<S: Sink, F: Fn(&Value) -> Value>(
    job: &mut Resumable<S, F>,
    new_state: Option<serde_json::Map<String, Value>>,
    result: Result<Checkpoint, ResumeError>,
    key_of: spec_fn(Json) -> Json,
)
    requires
        old(job)@.valid(),
        old(job)@.turn < u64::MAX,
        keyed_by(old(job)@.item_key, key_of),
        call_ensures(Resumable::<S, F>::checkpoint, (job, new_state), result),
    ensures
        new_state matches Some(state) ==> final(job)@.state == object_of(state),
        new_state is None ==> final(job)@.state == old(job)@.state,
        final(job)@.turn == old(job)@.turn + 1,
        old(job)@.yielded is None ==> final(job)@.completed == old(job)@.completed,
        old(job)@.yielded matches Some(i) ==> {
            let key = key_of(json_of(old(job)@.items[i]));
            final(job)@.completed == if marked(old(job)@.completed, json_text(key)) {
                old(job)@.completed
            } else {
                old(job)@.completed.push(key)
            }
        },
        final(job)@.items == old(job)@.items,
        final(job)@.item_key == old(job)@.item_key,
        final(job)@.position == old(job)@.position,
        final(job)@.yielded == old(job)@.yielded,
        final(job)@.resumed == old(job)@.resumed,
        result matches Ok(checkpoint) ==> {
            &&& checkpoint.turn == final(job)@.turn
            &&& object_of(checkpoint.state) == final(job)@.state
            &&& jsons_of(checkpoint.completed_items@) == final(job)@.completed
            &&& S::appended(&old(job)@.store, checkpoint@, &final(job)@.store, None)
        },
        result matches Err(error) ==> exists|row: Row|
            {
                &&& row.turn == final(job)@.turn
                &&& row.state == final(job)@.state
                &&& row.completed_items == final(job)@.completed
                &&& #[trigger] S::appended(
                    &old(job)@.store,
                    row,
                    &final(job)@.store,
                    Some(error),
                )
            },
{
    let before = old(job)@;
    let after = final(job)@;
    a_checkpoint_adds_one_key(before, new_state, after, key_of);
    if let Err(error) = result {
        let time = choose|time: Json| #[trigger]
            is_seconds(time) && S::appended(
                &before.store,
                after.row(time),
                &after.store,
                Some(error),
            );
        let row = after.row(time);
        assert(S::appended(&before.store, row, &after.store, Some(error)));
    }
}

/// What two jobs in turn hold on one store in memory: a job makes a checkpoint and
/// gives its store back, and a new job on that store has the state that the
/// checkpoint was handed, or the state of the first job where it was handed none, the
/// turn and the completed keys of the first job, and the items that it is given.
pub proof fn a_new_job_goes_on_from_a_checkpoint<F: Fn(&Value) -> Value, G: Fn(&Value) -> Value>(
    first: &mut Resumable<InMemoryStore, F>,
    new_state: Option<serde_json::Map<String, Value>>,
    result: Result<Checkpoint, ResumeError>,
    store: InMemoryStore,
    initial_state: Option<serde_json::Map<String, Value>>,
    work_items: Vec<Value>,
    item_key: Option<G>,
    second: Resumable<InMemoryStore, G>,
)
    requires
        old(first)@.turn < u64::MAX,
        call_ensures(Resumable::<InMemoryStore, F>::checkpoint, (first, new_state), result),
        call_ensures(Resumable::<InMemoryStore, F>::into_store, (*final(first),), store),
        call_ensures(
            Resumable::<InMemoryStore, G>::new,
            (store, initial_state, work_items, item_key),
            second,
        ),
    ensures
        result is Ok,
        second@.resumed,
        new_state matches Some(state) ==> second@.state == object_of(state),
        new_state is None ==> second@.state == old(first)@.state,
        second@.turn == old(first)@.turn + 1,
        second@.completed == final(first)@.completed,
        second@.items == work_items@,
        second@.position == 0,
        second@.store@.len() == old(first)@.store@.len() + 1,
{
    new_takes_the_items_and_the_checkpoint(store, initial_state, work_items, item_key, second);
    let latest = choose|latest: Result<Checkpoint, ResumeError>| #[trigger]
        store.gives_latest(latest) && second@ == Progress::started(
            store,
            initial_state,
            work_items@,
            item_key,
            latest,
        );
    if let Err(error) = result {
        let time = choose|time: Json| #[trigger]
            is_seconds(time) && InMemoryStore::appended(
                &old(first)@.store,
                final(first)@.row(time),
                &final(first)@.store,
                Some(error),
            );
        assert(InMemoryStore::appended(
            &old(first)@.store,
            final(first)@.row(time),
            &final(first)@.store,
            Some(error),
        ));
    }
}

/// Taking the next item gives out the first item from the place on whose key is not
/// done, as it is in the list, and moves the place behind it. Where nothing is given
/// out, everything from the place on is done and the end is reached. Nothing else of
/// the job changes.
pub proof fn next_item_is_the_first_that_is_not_done<S: Sink, F: Fn(&Value) -> Value>(
    job: &mut Resumable<S, F>,
    item: Option<Value>,
    key_of: spec_fn(Json) -> Json,
)
    requires
        old(job)@.valid(),
        keyed_by(old(job)@.item_key, key_of),
        call_ensures(Resumable::<S, F>::next_item, (job,), item),
    ensures
        ({
            let end = if item is Some {
                final(job)@.position - 1
            } else {
                final(job)@.position
            };
            forall|i: int|
                old(job)@.position <= i < end ==> marked(
                    old(job)@.completed,
                    json_text(key_of(json_of(#[trigger] old(job)@.items[i]))),
                )
        }),
        item matches Some(value) ==> {
            let i = final(job)@.position - 1;
            &&& old(job)@.position <= i < old(job)@.items.len()
            &&& json_of(value) == json_of(old(job)@.items[i])
            &&& !marked(old(job)@.completed, json_text(key_of(json_of(value))))
            &&& final(job)@.yielded == Some(i)
        },
        item is None ==> final(job)@.position == old(job)@.items.len() && final(job)@.yielded
            == old(job)@.yielded,
        final(job)@.store == old(job)@.store,
        final(job)@.item_key == old(job)@.item_key,
        final(job)@.items == old(job)@.items,
        final(job)@.state == old(job)@.state,
        final(job)@.turn == old(job)@.turn,
        final(job)@.completed == old(job)@.completed,
        final(job)@.resumed == old(job)@.resumed,
{
    let before = old(job)@;
    let after = final(job)@;
    let given = option_json(item);
    let texts = choose|texts: Seq<Seq<char>>| #[trigger] before.yields(texts, given, after);
    assert(before.yields(texts, given, after));
    let end = if item is Some {
        after.position - 1
    } else {
        after.position
    };
    if let Some(value) = item {
        completed_items_are_skipped(before, texts, json_of(value), after, key_of);
        done_are_the_completed_texts(before, json_text(key_of(json_of(value))));
    } else {
        nothing_unfinished_is_left(before, texts, after, key_of);
    }
    assert forall|i: int| before.position <= i < end implies marked(
        before.completed,
        json_text(key_of(json_of(#[trigger] before.items[i]))),
    ) by {
        assert(before.done().contains(text_of(before.items[i], key_of)));
        done_are_the_completed_texts(before, text_of(before.items[i], key_of));
    }
}

/// The remaining items are the items of the list at the places whose keys are not
/// done, as they are in the list: each of these places once, and in the order of the
/// list. The indices are those places.
pub proof fn remaining_items_are_those_not_done<S: Sink, F: Fn(&Value) -> Value>(
    job: Resumable<S, F>,
    items: Vec<Value>,
    key_of: spec_fn(Json) -> Json,
) -> (indices: Seq<int>)
    requires
        job@.valid(),
        keyed_by(job@.item_key, key_of),
        call_ensures(Resumable::<S, F>::remaining_items, (&job,), items),
    ensures
        items@.len() == indices.len(),
        forall|k: int, l: int|
            0 <= k < l < indices.len() ==> #[trigger] indices[k] < #[trigger] indices[l],
        forall|i: int| #[trigger]
            indices.contains(i) <==> 0 <= i < job@.items.len() && !marked(
                job@.completed,
                json_text(key_of(json_of(job@.items[i]))),
            ),
        forall|k: int|
            0 <= k < indices.len() ==> json_of(#[trigger] items@[k]) == json_of(
                job@.items[indices[k]],
            ),
{
    let texts = choose|texts: Seq<Seq<char>>| #[trigger]
        are_key_texts(job@.item_key, job@.items, texts) && jsons_of(items@) == pending(
            jsons_of(job@.items),
            texts,
            job@.done(),
        );
    let all = jsons_of(job@.items);
    let indices = remaining_items_keep_their_order(all, texts, job@.done());
    assert forall|i: int| 0 <= i < job@.items.len() implies #[trigger] texts[i] == text_of(
        job@.items[i],
        key_of,
    ) by {
        assert(is_key_text(job@.item_key, job@.items[i], texts[i]));
        let key = choose|key: Json| #[trigger]
            is_key(job@.item_key, job@.items[i], key) && is_text_of(texts[i], key);
        assert(key == key_of(json_of(job@.items[i])));
    }
    assert forall|i: int| #[trigger]
        indices.contains(i) <==> 0 <= i < job@.items.len() && !marked(
            job@.completed,
            json_text(key_of(json_of(job@.items[i]))),
        ) by {
        if 0 <= i < job@.items.len() {
            assert(texts[i] == text_of(job@.items[i], key_of));
            done_are_the_completed_texts(job@, texts[i]);
        }
    }
    assert forall|k: int| 0 <= k < indices.len() implies json_of(#[trigger] items@[k]) == json_of(
        job@.items[indices[k]],
    ) by {
        assert(jsons_of(items@)[k] == json_of(items@[k]));
        assert(indices.contains(indices[k]));
        assert(pending(all, texts, job@.done())[k] == all[indices[k]]);
    }
    indices
}

/// Passing an item gives it out, as it is in the list, exactly where its text is not
/// done; the place moves on by one, and nothing else of the job changes.
pub proof fn visit_passes_one_item<S: Sink, F: Fn(&Value) -> Value>(
    job: &mut Resumable<S, F>,
    done: StringHashSet,
    text: &str,
    item: Option<Value>,
)
    requires
        old(job)@.valid(),
        old(job)@.position < old(job)@.items.len(),
        call_ensures(Resumable::<S, F>::visit, (job, &done, text), item),
    ensures
        item is Some <==> !done@.contains(text@),
        item matches Some(value) ==> json_of(value) == json_of(
            old(job)@.items[old(job)@.position],
        ),
        final(job)@.position == old(job)@.position + 1,
        final(job)@.yielded == if done@.contains(text@) {
            old(job)@.yielded
        } else {
            Some(old(job)@.position)
        },
        final(job)@.store == old(job)@.store,
        final(job)@.item_key == old(job)@.item_key,
        final(job)@.items == old(job)@.items,
        final(job)@.state == old(job)@.state,
        final(job)@.turn == old(job)@.turn,
        final(job)@.completed == old(job)@.completed,
        final(job)@.resumed == old(job)@.resumed,
{
}

/// Completing a key adds it at the end of the completed ones exactly where its text
/// is not done, and changes nothing else of the job.
pub proof fn complete_adds_one_key<S: Sink, F: Fn(&Value) -> Value>(
    job: &mut Resumable<S, F>,
    done: StringHashSet,
    key: Value,
    text: &str,
    unit: (),
)
    requires
        call_ensures(Resumable::<S, F>::complete, (job, &done, key, text), unit),
    ensures
        done@.contains(text@) ==> final(job)@.completed == old(job)@.completed,
        !done@.contains(text@) ==> final(job)@.completed == old(job)@.completed.push(
            json_of(key),
        ),
        final(job)@.store == old(job)@.store,
        final(job)@.item_key == old(job)@.item_key,
        final(job)@.items == old(job)@.items,
        final(job)@.state == old(job)@.state,
        final(job)@.turn == old(job)@.turn,
        final(job)@.position == old(job)@.position,
        final(job)@.yielded == old(job)@.yielded,
        final(job)@.resumed == old(job)@.resumed,
{
}

/// The pending items are the items at the places whose texts are not done, each of
/// these places once and in order. The indices are those places.
pub proof fn pending_items_are_those_not_done(
    items: Vec<Value>,
    texts: Vec<String>,
    done: StringHashSet,
    kept: Vec<Value>,
) -> (indices: Seq<int>)
    requires
        texts@.len() == items@.len(),
        call_ensures(pending_items, (&items, &texts, &done), kept),
    ensures
        kept@.len() == indices.len(),
        forall|k: int, l: int|
            0 <= k < l < indices.len() ==> #[trigger] indices[k] < #[trigger] indices[l],
        forall|i: int| #[trigger]
            indices.contains(i) <==> 0 <= i < items@.len() && !done@.contains(texts@[i]@),
        forall|k: int|
            0 <= k < indices.len() ==> json_of(#[trigger] kept@[k]) == json_of(
                items@[indices[k]],
            ),
{
    let all = jsons_of(items@);
    let keys = string_views(texts@);
    let indices = remaining_items_keep_their_order(all, keys, done@);
    assert forall|i: int| #[trigger]
        indices.contains(i) <==> 0 <= i < items@.len() && !done@.contains(texts@[i]@) by {
        if 0 <= i < items@.len() {
            assert(keys[i] == texts@[i]@);
        }
    }
    assert forall|k: int| 0 <= k < indices.len() implies json_of(#[trigger] kept@[k]) == json_of(
        items@[indices[k]],
    ) by {
        assert(jsons_of(kept@)[k] == json_of(kept@[k]));
        assert(indices.contains(indices[k]));
        assert(pending(all, keys, done@)[k] == all[indices[k]]);
    }
    indices
}

// ---- the store in memory ----------------------------------------------------

/// A new store in memory, and a default one, hold nothing and give no checkpoint.
pub proof fn a_new_store_is_empty(
    new: InMemoryStore,
    default: InMemoryStore,
    n: usize,
    empty: bool,
    rows: Vec<Checkpoint>,
    latest: Result<Checkpoint, ResumeError>,
)
    requires
        call_ensures(InMemoryStore::new, (), new),
        call_ensures(<InMemoryStore as Default>::default, (), default),
        call_ensures(InMemoryStore::len, (&new,), n),
        call_ensures(InMemoryStore::is_empty, (&new,), empty),
        call_ensures(InMemoryStore::all, (&new,), rows),
        call_ensures(<InMemoryStore as Sink>::load_latest, (&new,), latest),
    ensures
        default@ == new@,
        n == 0,
        empty,
        rows@.len() == 0,
        latest matches Err(ResumeError::NoCheckpoint(message)) && message@
            == "no checkpoints in memory"@,
{
    assert(rows@.map_values(|checkpoint: Checkpoint| checkpoint@).len() == rows@.len());
}

/// An append to a store in memory succeeds. Afterwards the store lists all that it
/// listed before, in the same order, and then the row that was appended, which is
/// the latest; it counts one more, and is not empty.
pub proof fn an_append_in_memory_adds_one_row(
    store: &mut InMemoryStore,
    checkpoint: Checkpoint,
    result: Result<(), ResumeError>,
    rows_before: Vec<Checkpoint>,
    rows_after: Vec<Checkpoint>,
    n: usize,
    empty: bool,
    latest: Result<Checkpoint, ResumeError>,
)
    requires
        call_ensures(InMemoryStore::all, (old(store),), rows_before),
        call_ensures(<InMemoryStore as Sink>::append, (store, &checkpoint), result),
        call_ensures(InMemoryStore::all, (&*final(store),), rows_after),
        call_ensures(InMemoryStore::len, (&*final(store),), n),
        call_ensures(InMemoryStore::is_empty, (&*final(store),), empty),
        call_ensures(<InMemoryStore as Sink>::load_latest, (&*final(store),), latest),
    ensures
        result is Ok,
        rows_after@.len() == rows_before@.len() + 1,
        forall|i: int|
            0 <= i < rows_before@.len() ==> (#[trigger] rows_after@[i])@ == rows_before@[i]@,
        rows_after@.last()@ == checkpoint@,
        n == rows_after@.len(),
        !empty,
        latest matches Ok(c) && c@ == checkpoint@,
{
    let before = rows_before@.map_values(|checkpoint: Checkpoint| checkpoint@);
    let after = rows_after@.map_values(|checkpoint: Checkpoint| checkpoint@);
    assert(before.len() == rows_before@.len());
    assert(after.len() == rows_after@.len());
    assert forall|i: int| 0 <= i < rows_before@.len() implies (#[trigger] rows_after@[i])@
        == rows_before@[i]@ by {
        assert(before[i] == rows_before@[i]@);
        assert(after[i] == rows_after@[i]@);
    }
    assert(after.last() == rows_after@.last()@);
}

// ---- rows -------------------------------------------------------------------

/// What a checkpoint holds is what its fields hold.
pub proof fn a_checkpoint_is_its_fields(checkpoint: Checkpoint)
    ensures
        checkpoint@.turn == checkpoint.turn,
        checkpoint@.state == object_of(checkpoint.state),
        checkpoint@.completed_items.len() == checkpoint.completed_items@.len(),
        forall|i: int|
            0 <= i < checkpoint.completed_items@.len() ==> #[trigger] checkpoint@.completed_items[i]
                == json_of(checkpoint.completed_items@[i]),
        checkpoint@.timestamp == json_of(checkpoint.timestamp),
{
}

/// A new checkpoint holds what it is made of, a clone holds what the checkpoint
/// holds, and cloned values are the same values in the same order.
pub proof fn checkpoints_keep_what_they_are_given(
    turn: u64,
    state: serde_json::Map<String, Value>,
    completed_items: Vec<Value>,
    checkpoint: Checkpoint,
    copy: Checkpoint,
    values: Vec<Value>,
)
    requires
        call_ensures(Checkpoint::new, (turn, state, completed_items), checkpoint),
        call_ensures(<Checkpoint as Clone>::clone, (&checkpoint,), copy),
        call_ensures(clone_values, (&completed_items,), values),
    ensures
        checkpoint.turn == turn,
        object_of(checkpoint.state) == object_of(state),
        jsons_of(checkpoint.completed_items@) == jsons_of(completed_items@),
        json_of(checkpoint.timestamp) matches Json::Number(JsonNumber::Float(bits)) && bits
            <= 0x43F0_0000_0000_0000,
        copy@ == checkpoint@,
        values@.len() == completed_items@.len(),
        forall|i: int|
            0 <= i < values@.len() ==> json_of(#[trigger] values@[i]) == json_of(
                completed_items@[i],
            ),
{
    assert(checkpoint@.turn == turn);
    assert(jsons_of(values@).len() == values@.len());
    assert(jsons_of(completed_items@).len() == completed_items@.len());
    assert forall|i: int| 0 <= i < values@.len() implies json_of(#[trigger] values@[i]) == json_of(
        completed_items@[i],
    ) by {
        assert(jsons_of(values@)[i] == json_of(values@[i]));
        assert(jsons_of(completed_items@)[i] == json_of(completed_items@[i]));
    }
}

/// A checkpoint is written as the text of an object with four fields, which hold its
/// turn, its state, its completed items and its time, without a line feed.
pub proof fn a_checkpoint_is_written_in_four_fields(checkpoint: Checkpoint, line: String) -> (
    entries: Map<Seq<char>, Json>)
    requires
        call_ensures(Checkpoint::to_json, (&checkpoint,), line),
    ensures
        line@ == json_text(Json::Object(entries)),
        forall|key: Seq<char>| #[trigger]
            entries.dom().contains(key) <==> key == "turn"@ || key == "state"@ || key
                == "completed_items"@ || key == "timestamp"@,
        entries["turn"@] == Json::Number(JsonNumber::Natural(checkpoint.turn)),
        entries["state"@] == Json::Object(object_of(checkpoint.state)),
        entries["completed_items"@] == Json::Array(jsons_of(checkpoint.completed_items@)),
        entries["timestamp"@] == json_of(checkpoint.timestamp),
        !line@.contains('\n'),
        line@.len() > 0,
        line@[0] == '{',
{
    lemma_field_names();
    checkpoint@.json()->Object_0
}

/// A JSON value is read as a checkpoint exactly where it has a turn, and the
/// checkpoint is what its fields hold.
pub proof fn from_value_reads_the_fields(value: Value, checkpoint: Option<Checkpoint>)
    requires
        call_ensures(Checkpoint::from_value, (&value,), checkpoint),
    ensures
        checkpoint is Some <==> turns(json_of(value)),
        checkpoint matches Some(c) ==> holds_row(json_of(value), c@),
{
    if let Some(c) = checkpoint {
        a_row_is_held_in_fields(json_of(value), c@);
    } else {
        let nothing = Row {
            turn: 0,
            state: Map::empty(),
            completed_items: Seq::empty(),
            timestamp: Json::Null,
        };
        a_row_is_held_in_fields(json_of(value), nothing);
    }
}

/// A text that reads as JSON with a turn is read as a checkpoint, which is what the
/// fields hold. One that is not JSON gives the error of its reading. The two ways of
/// reading a text agree, and only JSON without a turn is read by neither.
pub proof fn from_json_reads_the_fields(
    raw: &str,
    result: Result<Checkpoint, ResumeError>,
    tried: Option<Result<Checkpoint, ResumeError>>,
)
    requires
        json_parse(raw@) matches Ok(json) ==> turns(json),
        call_ensures(Checkpoint::from_json, (raw,), result),
        call_ensures(Checkpoint::try_from_json, (raw,), tried),
    ensures
        json_parse(raw@) matches Ok(json) ==> {
            &&& result matches Ok(c) && holds_row(json, c@)
            &&& tried matches Some(Ok(c)) && holds_row(json, c@)
        },
        json_parse(raw@) matches Err(words) ==> {
            &&& result matches Err(ResumeError::Json(error)) && !json_error_is_io(error)
                && json_error_text(error) == words
            &&& tried matches Some(Err(ResumeError::Json(error))) && !json_error_is_io(error)
                && json_error_text(error) == words
        },
{
    if let Ok(json) = json_parse(raw@) {
        a_row_is_held_in_fields(json, result->Ok_0@);
        a_row_is_held_in_fields(json, tried->0->Ok_0@);
    }
}

/// JSON without a turn is not read as a checkpoint.
pub proof fn json_without_a_turn_is_no_checkpoint(
    raw: &str,
    tried: Option<Result<Checkpoint, ResumeError>>,
)
    requires
        json_parse(raw@) matches Ok(json) && !turns(json),
        call_ensures(Checkpoint::try_from_json, (raw,), tried),
    ensures
        tried is None,
{
}

/// What is written is read again. A checkpoint that does not nest too deep, and holds
/// no float too large, is read from its line with its turn, the same fields of its
/// state and the same completed items, but that floats come back as their own texts
/// read. Where all floats in it are whole it comes back as it is, with its time.
pub proof fn from_json_reads_what_to_json_wrote(
    checkpoint: Checkpoint,
    line: String,
    raw: &str,
    result: Result<Checkpoint, ResumeError>,
)
    requires
        call_ensures(Checkpoint::to_json, (&checkpoint,), line),
        raw@ == line@,
        call_ensures(Checkpoint::from_json, (raw,), result),
    ensures
        ({
            let depth = (depth_limit() - 1) as nat;
            let state = Json::Object(object_of(checkpoint.state));
            let items = Json::Array(jsons_of(checkpoint.completed_items@));
            let time = json_of(checkpoint.timestamp);
            &&& in_range(state, depth) && in_range(items, depth) && in_range(time, depth)
                ==> result is Ok
            &&& result matches Ok(again) ==> {
                &&& again.turn == checkpoint.turn
                &&& rereads(state, Json::Object(object_of(again.state)), depth)
                &&& rereads(items, Json::Array(jsons_of(again.completed_items@)), depth)
                &&& is_float(time) ==> rereads(time, json_of(again.timestamp), depth)
            }
            &&& whole_floats(state, depth) && whole_floats(items, depth) && is_float(time)
                && whole_floats(time, depth) ==> result is Ok && result->Ok_0@ == checkpoint@
        }),
{
    let depth = (depth_limit() - 1) as nat;
    let row = checkpoint@;
    let entries = row.json()->Object_0;
    let state = Json::Object(object_of(checkpoint.state));
    let items = Json::Array(jsons_of(checkpoint.completed_items@));
    let time = json_of(checkpoint.timestamp);
    if in_range(state, depth) && in_range(items, depth) && in_range(time, depth) {
        assert forall|key: Seq<char>| entries.dom().contains(key) implies in_range(
            #[trigger] entries[key],
            depth,
        ) by {
            if key == "timestamp"@ {
            } else if key == "completed_items"@ {
            } else if key == "state"@ {
            } else {
                assert(key == "turn"@);
            }
        }
        assert(in_range(row.json(), depth_limit()));
    }
    if whole_floats(state, depth) && whole_floats(items, depth) && is_float(time) && whole_floats(
        time,
        depth,
    ) {
        assert(whole_floats(time, 0));
        whole_rows_come_back(row, line@);
    }
}

// ---- what errors say, text and time -----------------------------------------

/// The number that a text of decimal digits stands for.
pub open spec fn number(digits: Seq<char>) -> int
    decreases digits.len(),
{
    if digits.len() == 0 {
        0
    } else {
        10 * number(digits.drop_last()) + (digits.last() as int - '0' as int)
    }
}

/// A number in decimal is made of digits, has no zero in front, and stands for the
/// number.
proof fn lemma_decimal(n: nat)
    ensures
        decimal(n).len() > 0,
        forall|i: int| 0 <= i < decimal(n).len() ==> '0' <= #[trigger] decimal(n)[i] <= '9',
        n > 0 ==> decimal(n)[0] != '0',
        number(decimal(n)) == n,
    decreases n,
{
    let last = digit(n % 10);
    assert(last as int == 48 + n % 10);
    if n < 10 {
        assert(decimal(n).drop_last() =~= Seq::<char>::empty());
        assert(number(Seq::<char>::empty()) == 0);
        assert(decimal(n).last() == digit(n));
    } else {
        let front = decimal(n / 10);
        lemma_decimal(n / 10);
        assert(decimal(n) == front.push(last));
        assert(front.push(last).drop_last() =~= front);
    }
}

/// The decimal text of a number is made of digits, has no zero in front unless it is
/// zero itself, and stands for the number.
pub proof fn decimal_text_is_the_number(n: usize, text: String)
    requires
        call_ensures(decimal_text, (n,), text),
    ensures
        text@.len() > 0,
        forall|i: int| 0 <= i < text@.len() ==> '0' <= #[trigger] text@[i] <= '9',
        n > 0 ==> text@[0] != '0',
        n == 0 ==> text@.len() == 1,
        number(text@) == n,
{
    lemma_decimal(n as nat);
}

/// A text is blank where every character of it is white space, and has a line feed
/// where one of its characters is one.
pub proof fn every_character_counts(text: &str, blank: bool, newline: bool)
    requires
        call_ensures(is_blank, (text,), blank),
        call_ensures(has_newline, (text,), newline),
    ensures
        !blank <==> exists|i: int| 0 <= i < text@.len() && !is_white_space(#[trigger] text@[i]),
        newline <==> exists|i: int| 0 <= i < text@.len() && #[trigger] text@[i] == '\n',
{
    if newline {
        let i = choose|i: int| 0 <= i < text@.len() && text@[i] == '\n';
        assert(text@[i] == '\n');
    }
}

/// An error says what is wrong and all that it holds: the message as it is, the
/// number of the line in decimal, the words of the error inside. The words of an
/// input or output error are not known; what is said before them is.
pub proof fn an_error_says_all_that_it_holds(
    error: ResumeError,
    text: String,
    line_number: usize,
    digits: String,
)
    requires
        call_ensures(ResumeError::to_string, (&error,), text),
        error matches ResumeError::CheckpointCorrupt { line_number: Some(n), .. } ==> n
            == line_number,
        call_ensures(decimal_text, (line_number,), digits),
    ensures
        error matches ResumeError::NoCheckpoint(message) ==> text@ == "no checkpoint: "@
            + message@,
        error matches ResumeError::CheckpointCorrupt { message, line_number: Some(_) } ==> text@
            == "checkpoint corrupt at line "@ + digits@ + ": "@ + message@,
        error matches ResumeError::CheckpointCorrupt { message, line_number: None } ==> text@
            == "checkpoint corrupt: "@ + message@,
        error is Io ==> text@.len() >= "IO error: "@.len() && text@.take(
            "IO error: "@.len() as int,
        ) == "IO error: "@,
        error matches ResumeError::Json(e) ==> {
            &&& text@.len() >= "JSON error: "@.len()
            &&& text@.take("JSON error: "@.len() as int) == "JSON error: "@
            &&& !json_error_is_io(e) ==> text@ == "JSON error: "@ + json_error_text(e)
        },
        error is NewlineInPayload ==> text@ == "checkpoint payload contains a newline"@,
{
    if error is Io {
        assert(text@.take("IO error: "@.len() as int) =~= "IO error: "@);
    }
    if error is Json {
        assert(text@.take("JSON error: "@.len() as int) =~= "JSON error: "@);
    }
}

/// An error comes from input or output where it is one, or where the JSON error in it
/// is one. What such errors say are their words behind what is wrong.
pub proof fn an_error_of_io_is_told(
    error: ResumeError,
    io: bool,
    words: &str,
    of_io: String,
    of_json: String,
)
    requires
        call_ensures(ResumeError::is_io, (&error,), io),
        call_ensures(io_text, (words,), of_io),
        call_ensures(json_error_message, (words,), of_json),
    ensures
        io <==> error is Io || (error is Json && json_error_is_io(error->Json_0)),
        of_io@ == "IO error: "@ + words@,
        of_json@ == "JSON error: "@ + words@,
{
}

/// Errors of input and output, and of JSON, are kept as they are.
pub proof fn an_error_is_kept(
    io: std::io::Error,
    of_io: ResumeError,
    json: serde_json::Error,
    of_json: ResumeError,
)
    requires
        call_ensures(<ResumeError as From<std::io::Error>>::from, (io,), of_io),
        call_ensures(<ResumeError as From<serde_json::Error>>::from, (json,), of_json),
    ensures
        of_io == ResumeError::Io(io),
        of_json == ResumeError::Json(json),
{
}

/// The time of a checkpoint is the time that has passed, and zero where the clock is
/// before the epoch.
pub proof fn the_time_is_what_has_passed(
    passed: Result<std::time::Duration, std::time::SystemTimeError>,
    value: Value,
    zero_value: Value,
)
    requires
        call_ensures(timestamp, (passed,), value),
        call_ensures(zero, (), zero_value),
    ensures
        passed matches Ok(length) ==> json_of(value) == Json::Number(
            JsonNumber::Float(seconds_bits(length)),
        ),
        passed is Err ==> json_of(value) == json_of(zero_value),
        json_of(zero_value) == Json::Number(JsonNumber::Float(0)),
{
}

} // verus!
