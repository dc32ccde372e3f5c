//! What holds of a job across several calls, crashes and restarts.
//!
//! Where a law speaks of the key of an item, the key is a function of the item:
//! [`keyed_by`] says so of a key extractor.
use crate::checkpoint::Checkpoint;
use crate::error::ResumeError;
use crate::json::{
    depth_limit, float_free, is_text_of, json_of, json_text, jsons_of, object_of, reads_as,
    rereads, Json,
};
use crate::resumable::{
    are_key_texts, can_key, completing, is_key, is_key_text, pending, texts_of, Progress,
};
use crate::store::{InMemoryStore, Sink};
use serde_json::Value;
use vstd::prelude::*;

verus! {

/// Whether the key of an item is what `key_of` says.
pub open spec fn keyed_by<F: Fn(&Value) -> Value>(
    item_key: Option<F>,
    key_of: spec_fn(Json) -> Json,
) -> bool {
    match item_key {
        None => forall|item: Json| #[trigger] key_of(item) == item,
        Some(f) => forall|item: Value, key: Value| #[trigger]
            call_ensures(f, (&item,), key) ==> json_of(key) == key_of(json_of(item)),
    }
}

/// The text of the key of an item.
pub open spec fn text_of(item: Value, key_of: spec_fn(Json) -> Json) -> Seq<char> {
    json_text(key_of(json_of(item)))
}

/// The texts of the keys of items.
pub open spec fn key_texts(items: Seq<Value>, key_of: spec_fn(Json) -> Json) -> Seq<Seq<char>> {
    items.map_values(|item: Value| text_of(item, key_of))
}

/// Key texts that a key extractor may give are those that it gives.
proof fn lemma_key_texts<F: Fn(&Value) -> Value>(
    item_key: Option<F>,
    items: Seq<Value>,
    texts: Seq<Seq<char>>,
    key_of: spec_fn(Json) -> Json,
)
    requires
        keyed_by(item_key, key_of),
        are_key_texts(item_key, items, texts),
    ensures
        texts == key_texts(items, key_of),
{
    assert forall|i: int| 0 <= i < items.len() implies texts[i] == text_of(items[i], key_of) by {
        assert(is_key_text(item_key, items[i], texts[i]));
        let key = choose|key: Json| #[trigger]
            is_key(item_key, items[i], key) && is_text_of(texts[i], key);
        assert(key == key_of(json_of(items[i])));
    }
    assert(texts =~= key_texts(items, key_of));
}

/// An item whose key is completed is never given out again, and every item that is
/// passed on the way to the one given out is completed.
pub proof fn completed_items_are_skipped<S, F: Fn(&Value) -> Value>(
    before: Progress<S, F>,
    texts: Seq<Seq<char>>,
    item: Json,
    after: Progress<S, F>,
    key_of: spec_fn(Json) -> Json,
)
    requires
        before.valid(),
        keyed_by(before.item_key, key_of),
        before.yields(texts, Some(item), after),
    ensures
        !before.done().contains(json_text(key_of(item))),
        item == json_of(before.items[after.position - 1]),
        forall|i: int|
            before.position <= i < after.position - 1 ==> before.done().contains(
                text_of(#[trigger] before.items[i], key_of),
            ),
{
    let passed = before.items.subrange(before.position, after.position);
    lemma_key_texts(before.item_key, passed, texts, key_of);
    assert(texts.last() == text_of(passed.last(), key_of));
    assert forall|i: int| before.position <= i < after.position - 1 implies before.done().contains(
        text_of(#[trigger] before.items[i], key_of),
    ) by {
        assert(passed[i - before.position] == before.items[i]);
        assert(before.done().contains(texts[i - before.position]));
    }
}

/// Where nothing is given out, everything from the position on is completed.
pub proof fn nothing_unfinished_is_left<S, F: Fn(&Value) -> Value>(
    before: Progress<S, F>,
    texts: Seq<Seq<char>>,
    after: Progress<S, F>,
    key_of: spec_fn(Json) -> Json,
)
    requires
        before.valid(),
        keyed_by(before.item_key, key_of),
        before.yields(texts, None, after),
    ensures
        forall|i: int|
            before.position <= i < before.items.len() ==> before.done().contains(
                text_of(#[trigger] before.items[i], key_of),
            ),
{
    let passed = before.items.subrange(before.position, after.position);
    lemma_key_texts(before.item_key, passed, texts, key_of);
    assert forall|i: int| before.position <= i < before.items.len() implies before.done().contains(
        text_of(#[trigger] before.items[i], key_of),
    ) by {
        let j = i - before.position;
        assert(passed[j] == before.items[i]);
        assert(texts[j] == text_of(passed[j], key_of));
        if j == texts.len() - 1 {
            assert(texts.last() == texts[j]);
        }
    }
}

/// An item that was given out without a checkpoint is given out again: a job that
/// is started again from the same completed items gives out the same item.
pub proof fn an_item_without_a_checkpoint_is_given_out_again<S, F: Fn(&Value) -> Value>(
    before: Progress<S, F>,
    texts: Seq<Seq<char>>,
    item: Option<Json>,
    after: Progress<S, F>,
    again: Progress<S, F>,
    texts_again: Seq<Seq<char>>,
    item_again: Option<Json>,
    after_again: Progress<S, F>,
    key_of: spec_fn(Json) -> Json,
)
    requires
        before.valid(),
        again.valid(),
        keyed_by(before.item_key, key_of),
        keyed_by(again.item_key, key_of),
        again.items == before.items,
        again.position == before.position,
        again.done() == before.done(),
        before.yields(texts, item, after),
        again.yields(texts_again, item_again, after_again),
    ensures
        item_again == item,
        after_again.position == after.position,
{
    let passed = before.items.subrange(before.position, after.position);
    let passed_again = again.items.subrange(again.position, after_again.position);
    lemma_key_texts(before.item_key, passed, texts, key_of);
    lemma_key_texts(again.item_key, passed_again, texts_again, key_of);
    assert forall|i: int| 0 <= i < texts.len() && i < texts_again.len() implies #[trigger] texts[i]
        == texts_again[i] by {
        assert(passed[i] == passed_again[i]);
    }
    if after.position < after_again.position {
        let n = texts.len() - 1;
        assert(item is Some);
        assert(texts[n] == texts_again[n]);
        assert(again.done().contains(texts_again[n]));
    } else if after_again.position < after.position {
        let n = texts_again.len() - 1;
        assert(item_again is Some);
        assert(texts[n] == texts_again[n]);
        assert(before.done().contains(texts[n]));
    } else if texts.len() > 0 {
        let n = texts.len() - 1;
        assert(texts[n] == texts_again[n]);
    }
}

/// The first item that is not done is the first that remains.
proof fn lemma_first_pending(
    items: Seq<Json>,
    texts: Seq<Seq<char>>,
    done: Set<Seq<char>>,
    n: int,
)
    requires
        texts.len() == items.len(),
        0 <= n <= items.len(),
        forall|i: int| 0 <= i < n ==> done.contains(#[trigger] texts[i]),
        n < items.len() ==> !done.contains(texts[n]),
    ensures
        n < items.len() ==> pending(items, texts, done).len() > 0 && pending(items, texts, done)[0]
            == items[n],
        n == items.len() ==> pending(items, texts, done).len() == 0,
    decreases items.len(),
{
    if items.len() > 0 {
        let fewer = items.drop_last();
        if n == items.len() {
            lemma_first_pending(fewer, texts.drop_last(), done, n - 1);
        } else {
            lemma_first_pending(fewer, texts.drop_last(), done, n);
        }
    }
}

/// At the start of a job, `next_item` gives the first of the remaining items.
pub proof fn next_item_is_the_first_remaining<S, F: Fn(&Value) -> Value>(
    before: Progress<S, F>,
    texts: Seq<Seq<char>>,
    item: Option<Json>,
    after: Progress<S, F>,
    all_texts: Seq<Seq<char>>,
    key_of: spec_fn(Json) -> Json,
)
    requires
        before.valid(),
        before.position == 0,
        keyed_by(before.item_key, key_of),
        before.yields(texts, item, after),
        are_key_texts(before.item_key, before.items, all_texts),
    ensures
        ({
            let remaining = pending(jsons_of(before.items), all_texts, before.done());
            item == if remaining.len() > 0 {
                Some(remaining[0])
            } else {
                None
            }
        }),
{
    let passed = before.items.subrange(0, after.position);
    lemma_key_texts(before.item_key, passed, texts, key_of);
    lemma_key_texts(before.item_key, before.items, all_texts, key_of);
    assert forall|i: int| 0 <= i < texts.len() implies #[trigger] texts[i] == all_texts[i] by {
        assert(passed[i] == before.items[i]);
    }
    let n = if item is Some {
        after.position - 1
    } else {
        after.position
    };
    assert forall|i: int| 0 <= i < n implies before.done().contains(#[trigger] all_texts[i]) by {
        assert(texts[i] == all_texts[i]);
        if i == texts.len() - 1 {
            assert(texts.last() == texts[i]);
        }
    }
    if item is Some {
        assert(texts.last() == texts[n]);
        assert(texts[n] == all_texts[n]);
    }
    lemma_first_pending(jsons_of(before.items), all_texts, before.done(), n);
}

/// An item remains exactly as long as its key is not completed: whatever was not
/// checkpointed is tried again.
pub proof fn unfinished_items_remain(
    items: Seq<Json>,
    texts: Seq<Seq<char>>,
    done: Set<Seq<char>>,
    item: Json,
)
    requires
        texts.len() == items.len(),
    ensures
        pending(items, texts, done).contains(item) <==> exists|i: int|
            0 <= i < items.len() && #[trigger] items[i] == item && !done.contains(texts[i]),
    decreases items.len(),
{
    if items.len() > 0 {
        let fewer = items.drop_last();
        let last = items.len() - 1;
        let rest = pending(fewer, texts.drop_last(), done);
        let all = pending(items, texts, done);
        unfinished_items_remain(fewer, texts.drop_last(), done, item);
        if all.contains(item) {
            let j = choose|j: int| 0 <= j < all.len() && all[j] == item;
            if j < rest.len() {
                assert(rest[j] == item);
                let i = choose|i: int|
                    0 <= i < fewer.len() && #[trigger] fewer[i] == item && !done.contains(
                        texts.drop_last()[i],
                    );
                assert(items[i] == item);
            } else {
                assert(items[last] == item);
            }
        }
        if exists|i: int|
            0 <= i < items.len() && #[trigger] items[i] == item && !done.contains(texts[i]) {
            let i = choose|i: int|
                0 <= i < items.len() && #[trigger] items[i] == item && !done.contains(texts[i]);
            if i < last {
                assert(fewer[i] == item && !done.contains(texts.drop_last()[i]));
                let j = choose|j: int| 0 <= j < rest.len() && rest[j] == item;
                assert(all[j] == item);
            } else {
                assert(all.last() == item);
            }
        }
    }
}

/// One more key is one more text.
proof fn lemma_texts_push(keys: Seq<Json>, key: Json)
    ensures
        texts_of(keys.push(key)) == texts_of(keys).insert(json_text(key)),
{
    let less = keys.map_values(|k: Json| json_text(k));
    let more = keys.push(key).map_values(|k: Json| json_text(k));
    assert(more =~= less.push(json_text(key)));
    assert forall|t: Seq<char>| #[trigger]
        more.contains(t) == (less.contains(t) || t == json_text(key)) by {
        if less.contains(t) {
            let j = choose|j: int| 0 <= j < less.len() && less[j] == t;
            assert(more[j] == t);
        }
        if t == json_text(key) {
            assert(more[keys.len() as int] == t);
        }
        if more.contains(t) && t != json_text(key) {
            let j = choose|j: int| 0 <= j < more.len() && more[j] == t;
            assert(less[j] == t);
        }
    }
    assert(texts_of(keys.push(key)) =~= texts_of(keys).insert(json_text(key)));
}

/// A checkpoint completes the item that was given out last, and no other; what was
/// completed before stays so.
pub proof fn checkpoint_completes_the_last_item<S, F: Fn(&Value) -> Value>(
    before: Progress<S, F>,
    new_state: Option<serde_json::Map<String, Value>>,
    after: Progress<S, F>,
    key_of: spec_fn(Json) -> Json,
)
    requires
        before.valid(),
        keyed_by(before.item_key, key_of),
        before.records(new_state, after),
    ensures
        after.done() == match before.yielded {
            Some(i) => before.done().insert(text_of(before.items[i], key_of)),
            None => before.done(),
        },
        before.completed.is_prefix_of(after.completed),
{
    if let Some(i) = before.yielded {
        let key = key_of(json_of(before.items[i]));
        let found = choose|k: Json| #[trigger]
            is_key(before.item_key, before.items[i], k) && is_text_of(json_text(k), k)
                && after.completed == completing(
                before.completed,
                before.done(),
                k,
                json_text(k),
            );
        assert(found == key);
        lemma_texts_push(before.completed, key);
        if before.done().contains(json_text(key)) {
            assert(before.done().insert(json_text(key)) =~= before.done());
        }
    }
}

/// Whether one of the completed keys has this text.
pub open spec fn marked(completed: Seq<Json>, text: Seq<char>) -> bool {
    exists|i: int| 0 <= i < completed.len() && json_text(#[trigger] completed[i]) == text
}

/// What is done are the texts of the completed keys.
pub proof fn done_are_the_completed_texts<S, F: Fn(&Value) -> Value>(
    job: Progress<S, F>,
    text: Seq<char>,
)
    ensures
        job.done().contains(text) <==> marked(job.completed, text),
{
    let texts = job.completed.map_values(|key: Json| json_text(key));
    if job.done().contains(text) {
        let i = choose|i: int| 0 <= i < texts.len() && texts[i] == text;
        assert(json_text(job.completed[i]) == text);
    }
    if marked(job.completed, text) {
        let i = choose|i: int|
            0 <= i < job.completed.len() && json_text(#[trigger] job.completed[i]) == text;
        assert(texts[i] == text);
        assert(texts.contains(text));
    }
}

/// A checkpoint that is handed a new state holds that state, in every turn and
/// whatever the state was; one that is handed none keeps the state. It counts one
/// turn, and leaves the items, their keys and the place among them alone.
pub proof fn a_checkpoint_replaces_the_state<S, F: Fn(&Value) -> Value>(
    before: Progress<S, F>,
    new_state: Option<serde_json::Map<String, Value>>,
    after: Progress<S, F>,
)
    requires
        before.turn < u64::MAX,
        before.records(new_state, after),
    ensures
        new_state matches Some(state) ==> after.state == object_of(state),
        new_state is None ==> after.state == before.state,
        after.turn == before.turn + 1,
        after.items == before.items,
        after.item_key == before.item_key,
        after.position == before.position,
        after.yielded == before.yielded,
        after.resumed == before.resumed,
{
}

/// A checkpoint adds the key of the item that was given out last to the completed
/// keys, at their end and once, unless a key with its text is there. It adds no
/// other key and takes none away.
pub proof fn a_checkpoint_adds_one_key<S, F: Fn(&Value) -> Value>(
    before: Progress<S, F>,
    new_state: Option<serde_json::Map<String, Value>>,
    after: Progress<S, F>,
    key_of: spec_fn(Json) -> Json,
)
    requires
        before.valid(),
        keyed_by(before.item_key, key_of),
        before.records(new_state, after),
    ensures
        before.yielded is None ==> after.completed == before.completed,
        before.yielded matches Some(i) ==> {
            let key = key_of(json_of(before.items[i]));
            after.completed == if marked(before.completed, json_text(key)) {
                before.completed
            } else {
                before.completed.push(key)
            }
        },
{
    if let Some(i) = before.yielded {
        let key = key_of(json_of(before.items[i]));
        let found = choose|k: Json| #[trigger]
            is_key(before.item_key, before.items[i], k) && is_text_of(json_text(k), k)
                && after.completed == completing(
                before.completed,
                before.done(),
                k,
                json_text(k),
            );
        assert(found == key);
        done_are_the_completed_texts(before, json_text(key));
    }
}

/// Taking the next item moves the place among the items and nothing else: the item
/// that is given out is the one that was passed last, and where none is given out
/// the end is reached.
pub proof fn next_item_only_moves_on<S, F: Fn(&Value) -> Value>(
    before: Progress<S, F>,
    texts: Seq<Seq<char>>,
    item: Option<Json>,
    after: Progress<S, F>,
)
    requires
        before.valid(),
        before.yields(texts, item, after),
    ensures
        before.position <= after.position <= before.items.len(),
        item is Some ==> before.position < after.position && item == Some(
            json_of(before.items[after.position - 1]),
        ) && after.yielded == Some(after.position - 1),
        item is None ==> after.position == before.items.len() && after.yielded == before.yielded,
        after.store == before.store,
        after.item_key == before.item_key,
        after.items == before.items,
        after.state == before.state,
        after.turn == before.turn,
        after.completed == before.completed,
        after.resumed == before.resumed,
{
}

/// A job starts with exactly the items and the key extractor that it is given, at
/// the first item, whatever the store gave. From a checkpoint it takes over all
/// that the checkpoint holds; without one it has the initial state and nothing done.
pub proof fn a_job_starts_with_the_given_items<S, F: Fn(&Value) -> Value>(
    store: S,
    initial_state: Option<serde_json::Map<String, Value>>,
    items: Seq<Value>,
    item_key: Option<F>,
    latest: Result<Checkpoint, ResumeError>,
)
    ensures
        ({
            let job = Progress::started(store, initial_state, items, item_key, latest);
            &&& job.store == store
            &&& job.items == items
            &&& job.item_key == item_key
            &&& job.position == 0
            &&& job.yielded is None
            &&& can_key(item_key, items) ==> job.valid()
            &&& job.resumed <==> latest is Ok
            &&& latest matches Ok(checkpoint) ==> {
                &&& job.state == object_of(checkpoint.state)
                &&& job.turn == checkpoint.turn
                &&& job.completed == jsons_of(checkpoint.completed_items@)
            }
            &&& latest is Err ==> {
                &&& initial_state matches Some(state) ==> job.state == object_of(state)
                &&& initial_state is None ==> job.state == Map::<Seq<char>, Json>::empty()
                &&& job.turn == 0
                &&& job.completed.len() == 0
            }
        }),
{
}

/// The key of every item can be asked for where there is no extractor, or where the
/// extractor takes every item; the models of values are one for each, in order.
pub proof fn every_item_counts<F: Fn(&Value) -> Value>(item_key: Option<F>, items: Seq<Value>)
    ensures
        can_key(item_key, items) <==> (item_key matches Some(f) ==> forall|i: int|
            0 <= i < items.len() ==> call_requires(f, (&#[trigger] items[i],))),
        jsons_of(items).len() == items.len(),
        forall|i: int| 0 <= i < items.len() ==> #[trigger] jsons_of(items)[i] == json_of(items[i]),
{
}

/// Whether a job moved on by taking the next item, or by a checkpoint that was
/// handed `new_state`.
pub open spec fn step<S, F: Fn(&Value) -> Value>(
    before: Progress<S, F>,
    new_state: Option<serde_json::Map<String, Value>>,
    after: Progress<S, F>,
) -> bool {
    ||| before.records(new_state, after)
    ||| new_state is None && exists|texts: Seq<Seq<char>>, item: Option<Json>| #[trigger]
        before.yields(texts, item, after)
}

/// However a job goes on, its state is the one that was handed to the last checkpoint
/// that had one, and the one at the start where none had. `last` is that checkpoint.
pub proof fn the_last_new_state_stays<S, F: Fn(&Value) -> Value>(
    jobs: Seq<Progress<S, F>>,
    states: Seq<Option<serde_json::Map<String, Value>>>,
    last: int,
    n: int,
)
    requires
        jobs.len() == states.len() + 1,
        forall|i: int|
            0 <= i < states.len() ==> step(#[trigger] jobs[i], states[i], jobs[i + 1]),
        -1 <= last < n <= states.len(),
        last >= 0 ==> states[last] is Some,
        forall|i: int| last < i < n ==> (#[trigger] states[i]) is None,
    ensures
        last >= 0 ==> jobs[n].state == object_of(states[last]->0),
        last < 0 ==> jobs[n].state == jobs[0].state,
    decreases n,
{
    if n > 0 {
        assert(step(jobs[n - 1], states[n - 1], jobs[n - 1 + 1]));
        if last < n - 1 {
            assert(states[n - 1] is None);
            the_last_new_state_stays(jobs, states, last, n - 1);
        }
    }
}

/// A job that is started again on the same store in memory, after a checkpoint that
/// was handed a new state, holds that state, has one turn more than the job had
/// before that checkpoint, and works on the items that it is given.
pub proof fn a_restart_holds_the_new_state<F: Fn(&Value) -> Value>(
    before: Progress<InMemoryStore, F>,
    new_state: Option<serde_json::Map<String, Value>>,
    after: Progress<InMemoryStore, F>,
    timestamp: Json,
    refusal: Option<ResumeError>,
    latest: Result<Checkpoint, ResumeError>,
    initial_state: Option<serde_json::Map<String, Value>>,
    items: Seq<Value>,
    item_key: Option<F>,
)
    requires
        before.turn < u64::MAX,
        before.records(new_state, after),
        InMemoryStore::appended(&before.store, after.row(timestamp), &after.store, refusal),
        after.store.gives_latest(latest),
    ensures
        ({
            let again = Progress::started(after.store, initial_state, items, item_key, latest);
            &&& new_state matches Some(state) ==> again.state == object_of(state)
            &&& new_state is None ==> again.state == before.state
            &&& again.turn == before.turn + 1
            &&& again.completed == after.completed
            &&& again.items == items
            &&& again.resumed
        }),
{
}

/// Whether no two completed keys have the same text.
pub open spec fn no_repeats(completed: Seq<Json>) -> bool {
    forall|i: int, j: int|
        0 <= i < j < completed.len() ==> json_text(#[trigger] completed[i]) != json_text(
            #[trigger] completed[j],
        )
}

/// No key is completed twice.
pub proof fn no_key_is_completed_twice<S, F: Fn(&Value) -> Value>(
    before: Progress<S, F>,
    new_state: Option<serde_json::Map<String, Value>>,
    after: Progress<S, F>,
)
    requires
        no_repeats(before.completed),
        before.records(new_state, after),
    ensures
        no_repeats(after.completed),
{
    let texts = before.completed.map_values(|key: Json| json_text(key));
    assert forall|i: int, j: int| 0 <= i < j < after.completed.len() implies json_text(
        #[trigger] after.completed[i],
    ) != json_text(#[trigger] after.completed[j]) by {
        assert(texts[i] == json_text(before.completed[i]));
        if j == before.completed.len() {
            assert(texts.contains(texts[i]));
            assert(before.done().contains(texts[i]));
        }
    }
}

/// A job that is started again on the same store in memory, after a checkpoint,
/// goes on from there: with the state, the turn and the completed items of that
/// checkpoint.
pub proof fn restart_resumes_from_the_checkpoint<F: Fn(&Value) -> Value>(
    before: Progress<InMemoryStore, F>,
    after: Progress<InMemoryStore, F>,
    timestamp: Json,
    refusal: Option<ResumeError>,
    latest: Result<Checkpoint, ResumeError>,
    initial_state: Option<serde_json::Map<String, Value>>,
    items: Seq<Value>,
    item_key: Option<F>,
)
    requires
        InMemoryStore::appended(&before.store, after.row(timestamp), &after.store, refusal),
        after.store.gives_latest(latest),
    ensures
        refusal is None,
        ({
            let again = Progress::started(after.store, initial_state, items, item_key, latest);
            &&& again.resumed
            &&& again.state == after.state
            &&& again.turn == after.turn
            &&& again.completed == after.completed
            &&& again.position == 0
        }),
{
}

/// A job on a store in memory without checkpoints starts from the beginning.
pub proof fn fresh_store_starts_from_the_beginning<F: Fn(&Value) -> Value>(
    store: InMemoryStore,
    latest: Result<Checkpoint, ResumeError>,
    initial_state: Option<serde_json::Map<String, Value>>,
    items: Seq<Value>,
    item_key: Option<F>,
)
    requires
        store@.len() == 0,
        store.gives_latest(latest),
    ensures
        ({
            let job = Progress::started(store, initial_state, items, item_key, latest);
            &&& !job.resumed
            &&& job.turn == 0
            &&& job.completed.len() == 0
        }),
{
}

/// Whether every item that has been passed is completed.
pub open spec fn caught_up<S, F: Fn(&Value) -> Value>(
    job: Progress<S, F>,
    key_of: spec_fn(Json) -> Json,
) -> bool {
    forall|i: int|
        0 <= i < job.position ==> job.done().contains(text_of(#[trigger] job.items[i], key_of))
}

/// Whether a job gave out `item` and then made a checkpoint.
pub open spec fn round<S, F: Fn(&Value) -> Value>(
    before: Progress<S, F>,
    item: Json,
    after: Progress<S, F>,
) -> bool {
    exists|texts: Seq<Seq<char>>, middle: Progress<S, F>, new_state: Option<
        serde_json::Map<String, Value>,
    >|
        #![trigger before.yields(texts, Some(item), middle), middle.records(new_state, after)]
        before.yields(texts, Some(item), middle) && middle.records(new_state, after)
}

/// A job that makes a checkpoint for every item that it is given stays caught up:
/// no item is passed over for good.
pub proof fn a_round_stays_caught_up<S, F: Fn(&Value) -> Value>(
    before: Progress<S, F>,
    item: Json,
    after: Progress<S, F>,
    key_of: spec_fn(Json) -> Json,
)
    requires
        before.valid(),
        keyed_by(before.item_key, key_of),
        caught_up(before, key_of),
        round(before, item, after),
    ensures
        after.valid(),
        caught_up(after, key_of),
        after.items == before.items,
        after.item_key == before.item_key,
        before.position < after.position,
        item == json_of(before.items[after.position - 1]),
        !before.done().contains(json_text(key_of(item))),
        after.done() == before.done().insert(json_text(key_of(item))),
        after.turn == (before.turn + 1) as u64,
{
    let (texts, middle, new_state) = choose|
        texts: Seq<Seq<char>>,
        middle: Progress<S, F>,
        new_state: Option<serde_json::Map<String, Value>>,
    |
        #![trigger before.yields(texts, Some(item), middle), middle.records(new_state, after)]
        before.yields(texts, Some(item), middle) && middle.records(new_state, after);
    completed_items_are_skipped(before, texts, item, middle, key_of);
    checkpoint_completes_the_last_item(middle, new_state, after, key_of);
}

/// A job that is caught up and gets no further item has completed every item: a
/// job that is started again from there has nothing to do.
pub proof fn a_finished_job_has_nothing_left<S, F: Fn(&Value) -> Value>(
    before: Progress<S, F>,
    texts: Seq<Seq<char>>,
    after: Progress<S, F>,
    all_texts: Seq<Seq<char>>,
    key_of: spec_fn(Json) -> Json,
)
    requires
        before.valid(),
        keyed_by(before.item_key, key_of),
        caught_up(before, key_of),
        before.yields(texts, None, after),
        are_key_texts(before.item_key, before.items, all_texts),
    ensures
        forall|i: int|
            0 <= i < before.items.len() ==> before.done().contains(
                text_of(#[trigger] before.items[i], key_of),
            ),
        pending(jsons_of(before.items), all_texts, before.done()).len() == 0,
{
    nothing_unfinished_is_left(before, texts, after, key_of);
    lemma_key_texts(before.item_key, before.items, all_texts, key_of);
    assert forall|i: int| 0 <= i < before.items.len() implies before.done().contains(
        #[trigger] all_texts[i],
    ) by {
        assert(all_texts[i] == text_of(before.items[i], key_of));
    }
    lemma_first_pending(
        jsons_of(before.items),
        all_texts,
        before.done(),
        before.items.len() as int,
    );
}

/// A fresh job whose items have keys of their own gives out every item once, in
/// order, and makes one turn and one completed key of each: here, as far as
/// `given` items.
proof fn lemma_rounds<S, F: Fn(&Value) -> Value>(
    jobs: Seq<Progress<S, F>>,
    given: Seq<Json>,
    n: int,
    key_of: spec_fn(Json) -> Json,
)
    requires
        0 <= n <= given.len(),
        jobs.len() == given.len() + 1,
        jobs[0].valid(),
        jobs[0].position == 0,
        jobs[0].completed.len() == 0,
        keyed_by(jobs[0].item_key, key_of),
        key_texts(jobs[0].items, key_of).no_duplicates(),
        jobs[0].turn + given.len() <= u64::MAX,
        forall|i: int|
            0 <= i < given.len() ==> round(#[trigger] jobs[i], given[i], jobs[i + 1]),
    ensures
        jobs[n].valid(),
        jobs[n].items == jobs[0].items,
        jobs[n].item_key == jobs[0].item_key,
        jobs[n].position == n,
        jobs[n].turn == jobs[0].turn + n,
        jobs[n].completed.len() == n,
        caught_up(jobs[n], key_of),
        forall|t: Seq<char>| #[trigger]
            jobs[n].done().contains(t) ==> key_texts(jobs[0].items, key_of).take(n).contains(t),
        forall|i: int| 0 <= i < n ==> #[trigger] given[i] == json_of(jobs[0].items[i]),
    decreases n,
{
    let all = key_texts(jobs[0].items, key_of);
    if n > 0 {
        lemma_rounds(jobs, given, n - 1, key_of);
        let before = jobs[n - 1];
        let after = jobs[n];
        let item = given[n - 1];
        assert(round(jobs[n - 1], given[n - 1], jobs[n - 1 + 1]));
        a_round_stays_caught_up(before, item, after, key_of);
        let (texts, middle, new_state) = choose|
            texts: Seq<Seq<char>>,
            middle: Progress<S, F>,
            new_state: Option<serde_json::Map<String, Value>>,
        |
            #![trigger before.yields(texts, Some(item), middle), middle.records(new_state, after)]
            before.yields(texts, Some(item), middle) && middle.records(new_state, after);
        completed_items_are_skipped(before, texts, item, middle, key_of);
        let here = all[n - 1];
        assert(here == text_of(before.items[n - 1], key_of));
        assert(!before.done().contains(here)) by {
            if before.done().contains(here) {
                let earlier = all.take(n - 1);
                assert(earlier.contains(here));
                let j = choose|j: int| 0 <= j < earlier.len() && earlier[j] == here;
                assert(all[j] == all[n - 1]);
            }
        }
        assert(middle.position == n);
        assert(json_text(key_of(item)) == here);
        let found = choose|k: Json| #[trigger]
            is_key(middle.item_key, middle.items[n - 1], k) && is_text_of(json_text(k), k)
                && after.completed == completing(
                middle.completed,
                middle.done(),
                k,
                json_text(k),
            );
        assert(found == key_of(json_of(middle.items[n - 1])));
        assert forall|t: Seq<char>| #[trigger] after.done().contains(t) implies all.take(
            n,
        ).contains(t) by {
            if t == here {
                assert(all.take(n)[n - 1] == t);
            } else {
                let earlier = all.take(n - 1);
                assert(earlier.contains(t));
                let j = choose|j: int| 0 <= j < earlier.len() && earlier[j] == t;
                assert(all.take(n)[j] == t);
            }
        }
    } else {
        assert forall|t: Seq<char>| !(#[trigger] jobs[0].done().contains(t)) by {}
    }
}

/// A full run completes every item once: a fresh job whose items have keys of
/// their own, and which makes a checkpoint for every item until it gets no further
/// one, gets the items in their order, and ends with one turn and one completed
/// key for each of them.
pub proof fn a_full_run_completes_every_item_once<S, F: Fn(&Value) -> Value>(
    jobs: Seq<Progress<S, F>>,
    given: Seq<Json>,
    texts: Seq<Seq<char>>,
    end: Progress<S, F>,
    key_of: spec_fn(Json) -> Json,
)
    requires
        jobs.len() == given.len() + 1,
        jobs[0].valid(),
        jobs[0].position == 0,
        jobs[0].completed.len() == 0,
        keyed_by(jobs[0].item_key, key_of),
        key_texts(jobs[0].items, key_of).no_duplicates(),
        jobs[0].turn + given.len() <= u64::MAX,
        forall|i: int|
            0 <= i < given.len() ==> round(#[trigger] jobs[i], given[i], jobs[i + 1]),
        jobs.last().yields(texts, None, end),
    ensures
        given == jsons_of(jobs[0].items),
        end.turn == jobs[0].turn + jobs[0].items.len(),
        end.completed.len() == jobs[0].items.len(),
{
    let n = given.len() as int;
    let all = key_texts(jobs[0].items, key_of);
    lemma_rounds(jobs, given, n, key_of);
    nothing_unfinished_is_left(jobs[n], texts, end, key_of);
    if n < all.len() {
        assert(jobs[n].done().contains(text_of(jobs[n].items[n], key_of)));
        let earlier = all.take(n);
        assert(earlier.contains(all[n]));
        let j = choose|j: int| 0 <= j < earlier.len() && earlier[j] == all[n];
        assert(all[j] == all[n]);
    }
    assert(given =~= jsons_of(jobs[0].items));
}

/// A run that makes a checkpoint for every item, as far as the first `n` of those
/// that were given out. Gives the places of these items in the list.
proof fn lemma_run<S, F: Fn(&Value) -> Value>(
    jobs: Seq<Progress<S, F>>,
    given: Seq<Json>,
    n: int,
    key_of: spec_fn(Json) -> Json,
) -> (indices: Seq<int>)
    requires
        0 <= n <= given.len(),
        jobs.len() == given.len() + 1,
        jobs[0].valid(),
        jobs[0].position == 0,
        keyed_by(jobs[0].item_key, key_of),
        key_texts(jobs[0].items, key_of).no_duplicates(),
        jobs[0].turn + given.len() <= u64::MAX,
        forall|i: int|
            0 <= i < given.len() ==> round(#[trigger] jobs[i], given[i], jobs[i + 1]),
    ensures
        jobs[n].valid(),
        jobs[n].items == jobs[0].items,
        jobs[n].item_key == jobs[0].item_key,
        jobs[n].turn == jobs[0].turn + n,
        indices.len() == n,
        forall|k: int, l: int| 0 <= k < l < n ==> #[trigger] indices[k] < #[trigger] indices[l],
        forall|k: int|
            0 <= k < n ==> 0 <= #[trigger] indices[k] < jobs[n].position && given[k] == json_of(
                jobs[0].items[indices[k]],
            ),
        forall|i: int|
            0 <= i < jobs[n].position ==> (indices.contains(i) <==> !jobs[0].done().contains(
                text_of(#[trigger] jobs[0].items[i], key_of),
            )),
        jobs[n].completed.len() == jobs[0].completed.len() + n,
        forall|k: int|
            0 <= k < jobs[0].completed.len() ==> #[trigger] jobs[n].completed[k]
                == jobs[0].completed[k],
        forall|k: int|
            0 <= k < n ==> jobs[n].completed[jobs[0].completed.len() + k] == key_of(
                #[trigger] given[k],
            ),
        forall|t: Seq<char>| #[trigger]
            jobs[n].done().contains(t) <==> jobs[0].done().contains(t) || exists|k: int|
                0 <= k < n && json_text(key_of(#[trigger] given[k])) == t,
    decreases n,
{
    let all = key_texts(jobs[0].items, key_of);
    if n == 0 {
        Seq::empty()
    } else {
        let earlier = lemma_run(jobs, given, n - 1, key_of);
        let before = jobs[n - 1];
        let after = jobs[n];
        let item = given[n - 1];
        assert(round(jobs[n - 1], given[n - 1], jobs[n - 1 + 1]));
        let (texts, middle, new_state) = choose|
            texts: Seq<Seq<char>>,
            middle: Progress<S, F>,
            new_state: Option<serde_json::Map<String, Value>>,
        |
            #![trigger before.yields(texts, Some(item), middle), middle.records(new_state, after)]
            before.yields(texts, Some(item), middle) && middle.records(new_state, after);
        completed_items_are_skipped(before, texts, item, middle, key_of);
        a_checkpoint_adds_one_key(middle, new_state, after, key_of);
        checkpoint_completes_the_last_item(middle, new_state, after, key_of);
        let here = middle.position - 1;
        done_are_the_completed_texts(middle, json_text(key_of(item)));
        let indices = earlier.push(here);
        assert forall|i: int| 0 <= i < after.position implies (indices.contains(i)
            <==> !jobs[0].done().contains(text_of(#[trigger] jobs[0].items[i], key_of))) by {
            if i < before.position {
                if earlier.contains(i) {
                    let k = choose|k: int| 0 <= k < earlier.len() && earlier[k] == i;
                    assert(indices[k] == i);
                }
                if indices.contains(i) {
                    let k = choose|k: int| 0 <= k < indices.len() && indices[k] == i;
                    assert(earlier[k] == i);
                }
            } else if i < here {
                assert(before.done().contains(text_of(before.items[i], key_of)));
                assert(!indices.contains(i)) by {
                    if indices.contains(i) {
                        let k = choose|k: int| 0 <= k < indices.len() && indices[k] == i;
                        assert(earlier[k] == i);
                    }
                }
                if !jobs[0].done().contains(text_of(jobs[0].items[i], key_of)) {
                    let k = choose|k: int|
                        0 <= k < n - 1 && json_text(key_of(#[trigger] given[k])) == text_of(
                            before.items[i],
                            key_of,
                        );
                    assert(all[earlier[k]] == all[i]);
                }
            } else {
                assert(indices[n - 1] == i);
                assert(jobs[0].items[i] == before.items[here]);
            }
        }
        assert forall|t: Seq<char>| #[trigger]
            after.done().contains(t) <==> jobs[0].done().contains(t) || exists|k: int|
                0 <= k < n && json_text(key_of(#[trigger] given[k])) == t by {
            if t == json_text(key_of(item)) {
                assert(json_text(key_of(given[n - 1])) == t);
            }
            if before.done().contains(t) && !jobs[0].done().contains(t) {
                let k = choose|k: int|
                    0 <= k < n - 1 && json_text(key_of(#[trigger] given[k])) == t;
                assert(0 <= k < n && json_text(key_of(given[k])) == t);
            }
        }
        indices
    }
}

/// A run gives out what remains, fresh or resumed: a job whose items have keys of
/// their own, and which makes a checkpoint for every item until it gets no further
/// one, gets exactly the items whose keys were not done at the start, each once and
/// in the order of the list. It counts one turn for each and adds its key to the
/// completed ones. The indices are the places of these items.
pub proof fn a_run_gives_out_what_remains<S, F: Fn(&Value) -> Value>(
    jobs: Seq<Progress<S, F>>,
    given: Seq<Json>,
    texts: Seq<Seq<char>>,
    end: Progress<S, F>,
    key_of: spec_fn(Json) -> Json,
) -> (indices: Seq<int>)
    requires
        jobs.len() == given.len() + 1,
        jobs[0].valid(),
        jobs[0].position == 0,
        keyed_by(jobs[0].item_key, key_of),
        key_texts(jobs[0].items, key_of).no_duplicates(),
        jobs[0].turn + given.len() <= u64::MAX,
        forall|i: int|
            0 <= i < given.len() ==> round(#[trigger] jobs[i], given[i], jobs[i + 1]),
        jobs.last().yields(texts, None, end),
    ensures
        indices.len() == given.len(),
        forall|k: int, l: int|
            0 <= k < l < indices.len() ==> #[trigger] indices[k] < #[trigger] indices[l],
        forall|i: int| #[trigger]
            indices.contains(i) <==> 0 <= i < jobs[0].items.len() && !marked(
                jobs[0].completed,
                json_text(key_of(json_of(jobs[0].items[i]))),
            ),
        forall|k: int|
            0 <= k < given.len() ==> #[trigger] given[k] == json_of(jobs[0].items[indices[k]]),
        end.turn == jobs[0].turn + given.len(),
        end.completed.len() == jobs[0].completed.len() + given.len(),
        forall|k: int|
            0 <= k < jobs[0].completed.len() ==> #[trigger] end.completed[k]
                == jobs[0].completed[k],
        forall|k: int|
            0 <= k < given.len() ==> end.completed[jobs[0].completed.len() + k] == key_of(
                #[trigger] given[k],
            ),
{
    let n = given.len() as int;
    let all = key_texts(jobs[0].items, key_of);
    let indices = lemma_run(jobs, given, n, key_of);
    let last = jobs[n];
    nothing_unfinished_is_left(last, texts, end, key_of);
    assert forall|i: int| #[trigger]
        indices.contains(i) <==> 0 <= i < jobs[0].items.len() && !marked(
            jobs[0].completed,
            json_text(key_of(json_of(jobs[0].items[i]))),
        ) by {
        if indices.contains(i) {
            let k = choose|k: int| 0 <= k < indices.len() && indices[k] == i;
            assert(0 <= indices[k] < last.position);
        }
        if 0 <= i < jobs[0].items.len() {
            let text = text_of(jobs[0].items[i], key_of);
            done_are_the_completed_texts(jobs[0], text);
            if i >= last.position {
                assert(last.done().contains(text_of(last.items[i], key_of)));
                if !jobs[0].done().contains(text) {
                    let k = choose|k: int|
                        0 <= k < n && json_text(key_of(#[trigger] given[k])) == text;
                    assert(0 <= indices[k] < last.position);
                    assert(all[indices[k]] == all[i]);
                }
                if indices.contains(i) {
                    let k = choose|k: int| 0 <= k < indices.len() && indices[k] == i;
                    assert(0 <= indices[k] < last.position);
                }
            }
        }
    }
    indices
}

/// A job that is started on a store without a checkpoint, with items that have keys
/// of their own, and that makes a checkpoint for every item until it gets no further
/// one, gets the whole list that it was started with, in its order. It ends with one
/// turn for each item, and the keys of all of them are completed, in that order.
pub proof fn a_fresh_job_works_through_its_list<S, F: Fn(&Value) -> Value>(
    store: S,
    initial_state: Option<serde_json::Map<String, Value>>,
    items: Seq<Value>,
    item_key: Option<F>,
    latest: Result<Checkpoint, ResumeError>,
    jobs: Seq<Progress<S, F>>,
    given: Seq<Json>,
    texts: Seq<Seq<char>>,
    end: Progress<S, F>,
    key_of: spec_fn(Json) -> Json,
)
    requires
        latest is Err,
        can_key(item_key, items),
        keyed_by(item_key, key_of),
        key_texts(items, key_of).no_duplicates(),
        jobs.len() == given.len() + 1,
        given.len() <= u64::MAX,
        jobs[0] == Progress::started(store, initial_state, items, item_key, latest),
        forall|i: int|
            0 <= i < given.len() ==> round(#[trigger] jobs[i], given[i], jobs[i + 1]),
        jobs.last().yields(texts, None, end),
    ensures
        given.len() == items.len(),
        forall|i: int| 0 <= i < items.len() ==> #[trigger] given[i] == json_of(items[i]),
        end.turn == items.len(),
        end.completed.len() == items.len(),
        forall|i: int|
            0 <= i < items.len() ==> #[trigger] end.completed[i] == key_of(json_of(items[i])),
{
    a_job_starts_with_the_given_items(store, initial_state, items, item_key, latest);
    a_full_run_completes_every_item_once(jobs, given, texts, end, key_of);
    let indices = a_run_gives_out_what_remains(jobs, given, texts, end, key_of);
    assert forall|i: int| 0 <= i < items.len() implies #[trigger] end.completed[i] == key_of(
        json_of(items[i]),
    ) by {
        assert(end.completed[jobs[0].completed.len() + i] == key_of(given[i]));
    }
}

/// A job that is started from a checkpoint, with items that have keys of their own,
/// and that makes a checkpoint for every item until it gets no further one, gets
/// exactly the items of its list whose keys the checkpoint does not hold, each once
/// and in their order, and goes on counting from the turn of the checkpoint. The
/// indices are the places of these items.
pub proof fn a_resumed_job_does_the_rest<S, F: Fn(&Value) -> Value>(
    store: S,
    initial_state: Option<serde_json::Map<String, Value>>,
    items: Seq<Value>,
    item_key: Option<F>,
    checkpoint: Checkpoint,
    jobs: Seq<Progress<S, F>>,
    given: Seq<Json>,
    texts: Seq<Seq<char>>,
    end: Progress<S, F>,
    key_of: spec_fn(Json) -> Json,
) -> (indices: Seq<int>)
    requires
        can_key(item_key, items),
        keyed_by(item_key, key_of),
        key_texts(items, key_of).no_duplicates(),
        jobs.len() == given.len() + 1,
        checkpoint.turn + given.len() <= u64::MAX,
        jobs[0] == Progress::started(store, initial_state, items, item_key, Ok(checkpoint)),
        forall|i: int|
            0 <= i < given.len() ==> round(#[trigger] jobs[i], given[i], jobs[i + 1]),
        jobs.last().yields(texts, None, end),
    ensures
        indices.len() == given.len(),
        forall|k: int, l: int|
            0 <= k < l < indices.len() ==> #[trigger] indices[k] < #[trigger] indices[l],
        forall|i: int| #[trigger]
            indices.contains(i) <==> 0 <= i < items.len() && !marked(
                jsons_of(checkpoint.completed_items@),
                json_text(key_of(json_of(items[i]))),
            ),
        forall|k: int|
            0 <= k < given.len() ==> #[trigger] given[k] == json_of(items[indices[k]]),
        end.turn == checkpoint.turn + given.len(),
        end.completed.len() == checkpoint.completed_items@.len() + given.len(),
{
    a_job_starts_with_the_given_items(store, initial_state, items, item_key, Ok(checkpoint));
    a_run_gives_out_what_remains(jobs, given, texts, end, key_of)
}

/// The remaining items are the items at the places whose key texts are not done: each
/// of these places once, and in the order of the list. The indices are those places.
pub proof fn remaining_items_keep_their_order(
    items: Seq<Json>,
    texts: Seq<Seq<char>>,
    done: Set<Seq<char>>,
) -> (indices: Seq<int>)
    requires
        texts.len() == items.len(),
    ensures
        forall|k: int, l: int|
            0 <= k < l < indices.len() ==> #[trigger] indices[k] < #[trigger] indices[l],
        forall|i: int| #[trigger]
            indices.contains(i) <==> 0 <= i < items.len() && !done.contains(texts[i]),
        pending(items, texts, done).len() == indices.len(),
        forall|k: int|
            0 <= k < indices.len() ==> #[trigger] pending(items, texts, done)[k]
                == items[indices[k]],
    decreases items.len(),
{
    if items.len() == 0 {
        Seq::empty()
    } else {
        let last = items.len() - 1;
        let earlier = remaining_items_keep_their_order(items.drop_last(), texts.drop_last(), done);
        assert forall|k: int| 0 <= k < earlier.len() implies 0 <= #[trigger] earlier[k] < last by {
            assert(earlier.contains(earlier[k]));
        }
        if done.contains(texts[last]) {
            assert forall|i: int| #[trigger]
                earlier.contains(i) <==> 0 <= i < items.len() && !done.contains(texts[i]) by {
                assert(earlier.contains(i) <==> 0 <= i < last && !done.contains(
                    texts.drop_last()[i],
                ));
            }
            earlier
        } else {
            let indices = earlier.push(last);
            assert forall|i: int| #[trigger]
                indices.contains(i) <==> 0 <= i < items.len() && !done.contains(texts[i]) by {
                assert(earlier.contains(i) <==> 0 <= i < last && !done.contains(
                    texts.drop_last()[i],
                ));
                if earlier.contains(i) {
                    let k = choose|k: int| 0 <= k < earlier.len() && earlier[k] == i;
                    assert(indices[k] == i);
                }
                if i == last {
                    assert(indices[earlier.len() as int] == i);
                }
                if indices.contains(i) && i != last {
                    let k = choose|k: int| 0 <= k < indices.len() && indices[k] == i;
                    assert(earlier[k] == i);
                }
            }
            indices
        }
    }
}

/// A value without floats comes back from its text as it is.
pub proof fn float_free_values_come_back(json: Json, depth: nat)
    requires
        float_free(json, depth),
    ensures
        rereads(json, json, depth),
    decreases depth,
{
    match json {
        Json::Array(items) => {
            assert forall|i: int| 0 <= i < items.len() implies rereads(
                #[trigger] items[i],
                items[i],
                (depth - 1) as nat,
            ) by {
                float_free_values_come_back(items[i], (depth - 1) as nat);
            }
        },
        Json::Object(entries) => {
            assert forall|key: Seq<char>| entries.dom().contains(key) implies rereads(
                #[trigger] entries[key],
                entries[key],
                (depth - 1) as nat,
            ) by {
                float_free_values_come_back(entries[key], (depth - 1) as nat);
            }
        },
        _ => {},
    }
}

/// Keys that come back from their texts are told apart: such a key counts as done
/// exactly where it is one of the completed keys.
pub proof fn keys_are_told_apart<S, F: Fn(&Value) -> Value>(
    job: Progress<S, F>,
    key: Json,
    text: Seq<char>,
)
    requires
        job.told_apart(),
        is_text_of(text, key),
        rereads(key, key, depth_limit()),
        forall|i: int|
            0 <= i < job.completed.len() ==> rereads(
                #[trigger] job.completed[i],
                job.completed[i],
                depth_limit(),
            ),
    ensures
        job.done().contains(text) <==> job.completed.contains(key),
{
    let texts = job.completed.map_values(|k: Json| json_text(k));
    assert(reads_as(text, key));
    if job.done().contains(text) {
        let i = choose|i: int| 0 <= i < texts.len() && texts[i] == text;
        assert(is_text_of(json_text(job.completed[i]), job.completed[i]));
        assert(reads_as(json_text(job.completed[i]), job.completed[i]));
        assert(job.completed[i] == key);
    }
    if job.completed.contains(key) {
        let i = choose|i: int| 0 <= i < job.completed.len() && job.completed[i] == key;
        assert(texts[i] == text);
        assert(texts.contains(text));
    }
}

} // verus!
