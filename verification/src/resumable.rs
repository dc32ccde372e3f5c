//! The cursor over a list of work items.
use crate::checkpoint::{clone_values, Checkpoint, Row};
use crate::error::ResumeError;
use crate::json::{
    compact_text, is_seconds, is_text_of, json_of, json_text, jsons_of, no_entries, object_of, Json,
};
use crate::store::Sink;
use serde_json::Value;
use vstd::hash_set::StringHashSet;
use vstd::prelude::*;

verus! {

/// A key extractor, boxed.
pub type ItemKeyFn = Box<dyn Fn(&Value) -> Value + Send + Sync>;

/// A cursor over a list of work items that knows which of them are done.
///
/// Call `next_item` to get the next unfinished item, and then `checkpoint` to
/// persist progress before moving on.
pub struct Resumable<S: Sink, F: Fn(&Value) -> Value> {
    store: S,
    item_key: Option<F>,
    work_items: Vec<Value>,
    state: serde_json::Map<String, Value>,
    turn: u64,
    completed: Vec<Value>,
    resumed: bool,
    current_idx: usize,
    yielded: Option<usize>,
}

/// What a [`Resumable`] holds.
#[verifier::ext_equal]
#[verifier::reject_recursive_types(S)]
#[verifier::reject_recursive_types(F)]
pub struct Progress<S, F> {
    pub store: S,
    /// How the key of an item is found; without it, an item is its own key.
    pub item_key: Option<F>,
    pub items: Seq<Value>,
    pub state: Map<Seq<char>, Json>,
    pub turn: u64,
    /// The keys of the items that are done.
    pub completed: Seq<Json>,
    /// Whether the store had a checkpoint to start from.
    pub resumed: bool,
    /// How many items have been passed.
    pub position: int,
    /// The item that was given out last.
    pub yielded: Option<int>,
}

/// Whether `key` may be the key of an item.
pub open spec fn is_key<F: Fn(&Value) -> Value>(item_key: Option<F>, item: Value, key: Json) -> bool {
    match item_key {
        None => key == json_of(item),
        Some(f) => exists|value: Value| #[trigger]
            call_ensures(f, (&item,), value) && json_of(value) == key,
    }
}

/// Whether the key of every item can be asked for.
pub open spec fn can_key<F: Fn(&Value) -> Value>(item_key: Option<F>, items: Seq<Value>) -> bool {
    item_key matches Some(f) ==> forall|i: int|
        0 <= i < items.len() ==> call_requires(f, (&#[trigger] items[i],))
}

/// Whether `text` may be the text of the key of an item.
pub open spec fn is_key_text<F: Fn(&Value) -> Value>(
    item_key: Option<F>,
    item: Value,
    text: Seq<char>,
) -> bool {
    exists|key: Json| #[trigger] is_key(item_key, item, key) && is_text_of(text, key)
}

/// Whether `texts` may be the texts of the keys of `items`.
pub open spec fn are_key_texts<F: Fn(&Value) -> Value>(
    item_key: Option<F>,
    items: Seq<Value>,
    texts: Seq<Seq<char>>,
) -> bool {
    &&& texts.len() == items.len()
    &&& forall|i: int|
        0 <= i < items.len() ==> is_key_text(item_key, #[trigger] items[i], texts[i])
}

/// The texts of some keys.
pub open spec fn texts_of(keys: Seq<Json>) -> Set<Seq<char>> {
    keys.map_values(|key: Json| json_text(key)).to_set()
}

/// The items whose key texts are not among those that are done, in their order.
pub open spec fn pending(items: Seq<Json>, texts: Seq<Seq<char>>, done: Set<Seq<char>>) -> Seq<Json>
    decreases items.len(),
{
    if items.len() == 0 {
        Seq::empty()
    } else {
        let rest = pending(items.drop_last(), texts.drop_last(), done);
        if done.contains(texts[items.len() - 1]) {
            rest
        } else {
            rest.push(items.last())
        }
    }
}

/// The completed keys once `key`, whose text is `text`, is done too.
pub open spec fn completing(
    completed: Seq<Json>,
    done: Set<Seq<char>>,
    key: Json,
    text: Seq<char>,
) -> Seq<Json> {
    if done.contains(text) {
        completed
    } else {
        completed.push(key)
    }
}

/// The model of a value that may be missing.
pub open spec fn option_json(value: Option<Value>) -> Option<Json> {
    match value {
        Some(v) => Some(json_of(v)),
        None => None,
    }
}

impl<S, F: Fn(&Value) -> Value> Progress<S, F> {
    /// The start of a job: from the latest checkpoint where the store gives one,
    /// and from the beginning where it does not.
    pub open spec fn started(
        store: S,
        initial_state: Option<serde_json::Map<String, Value>>,
        items: Seq<Value>,
        item_key: Option<F>,
        latest: Result<Checkpoint, ResumeError>,
    ) -> Self {
        Progress {
            store,
            item_key,
            items,
            state: match latest {
                Ok(checkpoint) => checkpoint@.state,
                Err(_) => match initial_state {
                    Some(state) => object_of(state),
                    None => no_entries(),
                },
            },
            turn: match latest {
                Ok(checkpoint) => checkpoint@.turn,
                Err(_) => 0,
            },
            completed: match latest {
                Ok(checkpoint) => checkpoint@.completed_items,
                Err(_) => Seq::empty(),
            },
            resumed: latest is Ok,
            position: 0,
            yielded: None,
        }
    }

    /// What always holds: the position lies within the items, the item that was
    /// given out last lies before it, and the key of every item can be asked for.
    pub open spec fn valid(self) -> bool {
        &&& 0 <= self.position <= self.items.len()
        &&& self.yielded matches Some(i) ==> 0 <= i < self.position
        &&& can_key(self.item_key, self.items)
    }

    /// The texts of the completed keys.
    pub open spec fn done(self) -> Set<Seq<char>> {
        texts_of(self.completed)
    }

    /// Whether the texts of the completed keys are texts of those keys, as they
    /// always are.
    pub open spec fn told_apart(self) -> bool {
        forall|i: int|
            0 <= i < self.completed.len() ==> is_text_of(
                json_text(#[trigger] self.completed[i]),
                self.completed[i],
            )
    }

    /// The state after the item at the position is passed: given out, or not.
    pub open spec fn passed(self, given_out: bool) -> Self {
        Progress {
            position: self.position + 1,
            yielded: if given_out {
                Some(self.position)
            } else {
                self.yielded
            },
            ..self
        }
    }

    /// Whether `next_item` may give `item` and leave the progress as `after`, where
    /// the items that it passes have keys with these texts. It passes the items
    /// whose keys are done, and gives out the first one that is not.
    pub open spec fn yields(
        self,
        texts: Seq<Seq<char>>,
        item: Option<Json>,
        after: Self,
    ) -> bool {
        &&& self.told_apart()
        &&& self.position <= after.position <= self.items.len()
        &&& are_key_texts(
            self.item_key,
            self.items.subrange(self.position, after.position),
            texts,
        )
        &&& forall|i: int|
            0 <= i < texts.len() - 1 ==> self.done().contains(#[trigger] texts[i])
        &&& match item {
            Some(json) => {
                &&& self.position < after.position
                &&& !self.done().contains(texts.last())
                &&& json == json_of(self.items[after.position - 1])
                &&& after == Progress {
                    position: after.position,
                    yielded: Some(after.position - 1),
                    ..self
                }
            },
            None => {
                &&& texts.len() > 0 ==> self.done().contains(texts.last())
                &&& after == Progress { position: self.items.len() as int, ..self }
            },
        }
    }

    /// Whether a checkpoint may leave the progress as `after`, but for the store.
    /// It replaces the state where there is a new one, and it marks the item that
    /// was given out last as complete.
    pub open spec fn records(
        self,
        new_state: Option<serde_json::Map<String, Value>>,
        after: Self,
    ) -> bool {
        &&& match self.yielded {
            None => after.completed == self.completed,
            Some(i) => self.told_apart() && exists|key: Json| #[trigger]
                is_key(self.item_key, self.items[i], key) && is_text_of(json_text(key), key)
                    && after.completed == completing(
                    self.completed,
                    self.done(),
                    key,
                    json_text(key),
                ),
        }
        &&& after == Progress {
            store: after.store,
            state: match new_state {
                Some(state) => object_of(state),
                None => self.state,
            },
            turn: (self.turn + 1) as u64,
            completed: after.completed,
            ..self
        }
    }

    /// The row that stands for this progress.
    pub open spec fn row(self, timestamp: Json) -> Row {
        Row { turn: self.turn, state: self.state, completed_items: self.completed, timestamp }
    }
}

impl<S: Sink, F: Fn(&Value) -> Value> View for Resumable<S, F> {
    type V = Progress<S, F>;

    closed spec fn view(&self) -> Progress<S, F> {
        Progress {
            store: self.store,
            item_key: self.item_key,
            items: self.work_items@,
            state: object_of(self.state),
            turn: self.turn,
            completed: jsons_of(self.completed@),
            resumed: self.resumed,
            position: self.current_idx as int,
            yielded: match self.yielded {
                Some(i) => Some(i as int),
                None => None,
            },
        }
    }
}

impl<S: Sink, F: Fn(&Value) -> Value> Resumable<S, F> {
    /// Starts a job on a store: from its latest checkpoint where it gives one, and
    /// from the beginning where it does not. Without `item_key`, an item is its own
    /// key.
    pub fn new(
        store: S,
        initial_state: Option<serde_json::Map<String, Value>>,
        work_items: Vec<Value>,
        item_key: Option<F>,
    ) -> (job: Self)
        requires
            can_key(item_key, work_items@),
        ensures
            job@.valid(),
            exists|latest: Result<Checkpoint, ResumeError>| #[trigger]
                store.gives_latest(latest) && job@ == Progress::started(
                    store,
                    initial_state,
                    work_items@,
                    item_key,
                    latest,
                ),
    {
        let latest = store.load_latest();
        Resumable::start(store, initial_state, work_items, item_key, latest)
    }

    /// Starts a job on a store that gave `latest` as its latest checkpoint.
    pub fn start(
        store: S,
        initial_state: Option<serde_json::Map<String, Value>>,
        work_items: Vec<Value>,
        item_key: Option<F>,
        latest: Result<Checkpoint, ResumeError>,
    ) -> (job: Self)
        requires
            can_key(item_key, work_items@),
        ensures
            job@.valid(),
            job@ == Progress::started(store, initial_state, work_items@, item_key, latest),
    {
        let (state, turn, completed, resumed) = match latest {
            Ok(checkpoint) => (
                checkpoint.state,
                checkpoint.turn,
                checkpoint.completed_items,
                true,
            ),
            Err(_) => (
                match initial_state {
                    Some(state) => state,
                    None => serde_json::Map::new(),
                },
                0u64,
                Vec::new(),
                false,
            ),
        };
        let job = Resumable {
            store,
            item_key,
            work_items,
            state,
            turn,
            completed,
            resumed,
            current_idx: 0,
            yielded: None,
        };
        assert(job@ =~= Progress::started(store, initial_state, work_items@, item_key, latest));
        job
    }

    /// The state of the job.
    pub fn state(&self) -> (state: &serde_json::Map<String, Value>)
        ensures
            object_of(*state) == self@.state,
    {
        &self.state
    }

    /// How many checkpoints the job has made.
    pub fn turn(&self) -> (turn: u64)
        ensures
            turn == self@.turn,
    {
        self.turn
    }

    /// The keys of the items that are done.
    pub fn completed_items(&self) -> (items: &[Value])
        ensures
            jsons_of(items@) == self@.completed,
    {
        self.completed.as_slice()
    }

    /// Whether the job started from a checkpoint.
    pub fn resumed(&self) -> (resumed: bool)
        ensures
            resumed == self@.resumed,
    {
        self.resumed
    }

    /// The store.
    pub fn store(&self) -> (store: &S)
        ensures
            *store == self@.store,
    {
        &self.store
    }

    /// Gives the store back.
    pub fn into_store(self) -> (store: S)
        ensures
            store == self@.store,
    {
        self.store
    }

    /// The key of an item.
    fn key(&self, i: usize) -> (key: Value)
        requires
            self@.valid(),
            i < self@.items.len(),
        ensures
            is_key(self@.item_key, self@.items[i as int], json_of(key)),
    {
        match &self.item_key {
            Some(f) => f(&self.work_items[i]),
            None => self.work_items[i].clone(),
        }
    }

    /// The text of the key of an item.
    fn key_text(&self, i: usize) -> (text: String)
        requires
            self@.valid(),
            i < self@.items.len(),
        ensures
            is_key_text(self@.item_key, self@.items[i as int], text@),
    {
        let key = self.key(i);
        compact_text(&key)
    }

    /// The texts of the completed keys.
    fn done_texts(&self) -> (done: StringHashSet)
        ensures
            done@ == self@.done(),
            self@.told_apart(),
    {
        let mut done = StringHashSet::new();
        let ghost all = self@.completed.map_values(|key: Json| json_text(key));
        assert(all.take(0).to_set() =~= Set::<Seq<char>>::empty());
        for i in 0..self.completed.len()
            invariant
                done@ == all.take(i as int).to_set(),
                forall|j: int|
                    0 <= j < i ==> is_text_of(
                        json_text(#[trigger] self@.completed[j]),
                        self@.completed[j],
                    ),
                all == self@.completed.map_values(|key: Json| json_text(key)),
                self@.completed == jsons_of(self.completed@),
        {
            let text = compact_text(&self.completed[i]);
            proof {
                assert(text@ == all[i as int]);
                lemma_take_set(all, i as int);
            }
            done.insert(text);
        }
        assert(all.take(all.len() as int) =~= all);
        done
    }

    /// The items that are not done, in their order.
    pub fn remaining_items(&self) -> (items: Vec<Value>)
        requires
            self@.valid(),
        ensures
            self@.told_apart(),
            exists|texts: Seq<Seq<char>>| #[trigger]
                are_key_texts(self@.item_key, self@.items, texts) && jsons_of(items@) == pending(
                    jsons_of(self@.items),
                    texts,
                    self@.done(),
                ),
    {
        let done = self.done_texts();
        let mut texts: Vec<String> = Vec::new();
        for i in 0..self.work_items.len()
            invariant
                self@.valid(),
                self@.items == self.work_items@,
                texts@.len() == i,
                forall|j: int|
                    0 <= j < i ==> is_key_text(
                        self@.item_key,
                        #[trigger] self@.items[j],
                        texts@[j]@,
                    ),
        {
            texts.push(self.key_text(i));
        }
        proof {
            assert(are_key_texts(self@.item_key, self@.items, string_views(texts@)));
        }
        pending_items(&self.work_items, &texts, &done)
    }

    /// Passes the item at the position, whose key has this text. Gives the item out
    /// unless its key is done.
    pub fn visit(&mut self, done: &StringHashSet, text: &str) -> (item: Option<Value>)
        requires
            old(self)@.valid(),
            old(self)@.position < old(self)@.items.len(),
        ensures
            final(self)@.valid(),
            final(self)@ == old(self)@.passed(!done@.contains(text@)),
            option_json(item) == if done@.contains(text@) {
                None
            } else {
                Some(json_of(old(self)@.items[old(self)@.position]))
            },
    {
        let i: usize = self.current_idx;
        assert(i < self.work_items.len());
        self.current_idx = i + 1;
        if done.contains(text) {
            None
        } else {
            self.yielded = Some(i);
            Some(self.work_items[i].clone())
        }
    }

    /// The next item that is not done, or nothing where none follows.
    pub fn next_item(&mut self) -> (item: Option<Value>)
        requires
            old(self)@.valid(),
        ensures
            final(self)@.valid(),
            exists|texts: Seq<Seq<char>>| #[trigger]
                old(self)@.yields(texts, option_json(item), final(self)@),
    {
        let done = self.done_texts();
        let ghost start = self@;
        let ghost mut texts: Seq<Seq<char>> = Seq::empty();
        while self.current_idx < self.work_items.len()
            invariant
                start == old(self)@,
                done@ == start.done(),
                start.told_apart(),
                self@.valid(),
                self@.items == self.work_items@,
                self@.position == self.current_idx,
                self@ == (Progress { position: self@.position, ..start }),
                start.position <= self@.position,
                are_key_texts(
                    start.item_key,
                    start.items.subrange(start.position, self@.position),
                    texts,
                ),
                forall|i: int| 0 <= i < texts.len() ==> start.done().contains(#[trigger] texts[i]),
            decreases self.work_items.len() - self.current_idx,
        {
            let text = self.key_text(self.current_idx);
            let ghost before = self@;
            let ghost passed = start.items.subrange(start.position, before.position);
            let ghost longer = start.items.subrange(start.position, before.position + 1);
            let item = self.visit(&done, text.as_str());
            proof {
                let more = texts.push(text@);
                assert(longer =~= passed.push(start.items[before.position]));
                assert(are_key_texts(start.item_key, longer, more)) by {
                    assert forall|i: int| 0 <= i < longer.len() implies is_key_text(
                        start.item_key,
                        #[trigger] longer[i],
                        more[i],
                    ) by {
                        if i < passed.len() {
                            assert(longer[i] == passed[i]);
                        }
                    }
                }
                texts = more;
                if item is Some {
                    assert(start.yields(texts, option_json(item), self@));
                }
            }
            if item.is_some() {
                return item;
            }
        }
        proof {
            assert(start.yields(texts, None, self@));
        }
        None
    }

    /// Marks a key, whose text is `text`, as complete unless it is done already.
    pub fn complete(&mut self, done: &StringHashSet, key: Value, text: &str)
        ensures
            final(self)@ == (Progress {
                completed: completing(old(self)@.completed, done@, json_of(key), text@),
                ..old(self)@
            }),
    {
        if !done.contains(text) {
            self.completed.push(key);
            assert(jsons_of(self.completed@) =~= old(self)@.completed.push(json_of(key)));
        }
    }

    /// Persists progress. Call it when an item is done.
    ///
    /// A new state replaces the one before. The item that `next_item` gave out last
    /// is marked complete. The progress counts even where the store refuses it.
    pub fn checkpoint(&mut self, new_state: Option<serde_json::Map<String, Value>>) -> (result:
        Result<Checkpoint, ResumeError>)
        requires
            old(self)@.valid(),
            old(self)@.turn < u64::MAX,
        ensures
            final(self)@.valid(),
            old(self)@.records(new_state, final(self)@),
            match result {
                Ok(checkpoint) => {
                    &&& checkpoint@ == final(self)@.row(checkpoint@.timestamp)
                    &&& is_seconds(checkpoint@.timestamp)
                    &&& S::appended(
                        &old(self)@.store,
                        checkpoint@,
                        &final(self)@.store,
                        None,
                    )
                },
                Err(error) => exists|timestamp: Json| #[trigger]
                    is_seconds(timestamp) && S::appended(
                        &old(self)@.store,
                        final(self)@.row(timestamp),
                        &final(self)@.store,
                        Some(error),
                    ),
            },
    {
        if let Some(state) = new_state {
            self.state = state;
        }
        if let Some(i) = self.yielded {
            let done = self.done_texts();
            let key = self.key(i);
            let text = compact_text(&key);
            self.complete(&done, key, text.as_str());
        }
        self.turn = self.turn + 1;
        let checkpoint = Checkpoint::new(
            self.turn,
            self.state.clone(),
            clone_values(&self.completed),
        );
        let appended = self.store.append(&checkpoint);
        assert(checkpoint@ =~= self@.row(checkpoint@.timestamp));
        match appended {
            Ok(()) => Ok(checkpoint),
            Err(error) => Err(error),
        }
    }
}

/// The contents of strings.
pub open spec fn string_views(strings: Seq<String>) -> Seq<Seq<char>> {
    strings.map_values(|s: String| s@)
}

/// The items whose key texts are not among those that are done, in their order.
pub fn pending_items(items: &Vec<Value>, texts: &Vec<String>, done: &StringHashSet) -> (kept: Vec<
    Value,
>)
    requires
        texts@.len() == items@.len(),
    ensures
        jsons_of(kept@) == pending(jsons_of(items@), string_views(texts@), done@),
{
    let mut kept: Vec<Value> = Vec::new();
    let ghost all = jsons_of(items@);
    let ghost keys = string_views(texts@);
    assert(jsons_of(kept@) =~= pending(all.take(0), keys.take(0), done@));
    for i in 0..items.len()
        invariant
            texts@.len() == items@.len(),
            all == jsons_of(items@),
            keys == string_views(texts@),
            jsons_of(kept@) == pending(all.take(i as int), keys.take(i as int), done@),
    {
        assert(all.take(i + 1).drop_last() =~= all.take(i as int));
        assert(keys.take(i + 1).drop_last() =~= keys.take(i as int));
        if !done.contains(texts[i].as_str()) {
            let ghost before = kept@;
            kept.push(items[i].clone());
            assert(jsons_of(kept@) =~= jsons_of(before).push(all[i as int]));
        }
    }
    assert(all.take(all.len() as int) =~= all);
    assert(keys.take(keys.len() as int) =~= keys);
    kept
}

/// One more element of a sequence is one more of the set.
proof fn lemma_take_set<A>(s: Seq<A>, i: int)
    requires
        0 <= i < s.len(),
    ensures
        s.take(i + 1).to_set() == s.take(i).to_set().insert(s[i]),
{
    let less = s.take(i);
    let more = s.take(i + 1);
    assert(more =~= less.push(s[i]));
    assert forall|a: A| #[trigger] more.contains(a) == (less.contains(a) || a == s[i]) by {
        if less.contains(a) {
            let j = choose|j: int| 0 <= j < less.len() && less[j] == a;
            assert(more[j] == a);
        }
        if a == s[i] {
            assert(more[i] == a);
        }
        if more.contains(a) && a != s[i] {
            let j = choose|j: int| 0 <= j < more.len() && more[j] == a;
            assert(less[j] == a);
        }
    }
    assert(s.take(i + 1).to_set() =~= s.take(i).to_set().insert(s[i]));
}

} // verus!
