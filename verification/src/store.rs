//! Checkpoint stores: their contract, and one that lives in memory.
use crate::checkpoint::{Checkpoint, Row};
use crate::error::ResumeError;
use vstd::prelude::*;

verus! {

/// The error that a result holds, if it holds one.
pub open spec fn refusal(result: Result<(), ResumeError>) -> Option<ResumeError> {
    match result {
        Ok(_) => None,
        Err(error) => Some(error),
    }
}

/// The contract of a checkpoint store. Implement `append` and `load_latest`, and
/// say with the two predicates what they do: a store that leaves the predicates
/// out promises nothing.
pub trait Sink: Send + Sync {
    /// Whether appending `row` to the store `before` may leave it as `after`, and
    /// fail with `refusal` where there is one.
    open spec fn appended(
        before: &Self,
        row: Row,
        after: &Self,
        refusal: Option<ResumeError>,
    ) -> bool {
        true
    }

    /// Whether the store may give `latest` as its latest checkpoint.
    open spec fn gives_latest(&self, latest: Result<Checkpoint, ResumeError>) -> bool {
        true
    }

    /// Appends a checkpoint.
    fn append(&mut self, checkpoint: &Checkpoint) -> (result: Result<(), ResumeError>)
        ensures
            Self::appended(old(self), checkpoint@, final(self), refusal(result)),
    ;

    /// The checkpoint that was appended last.
    fn load_latest(&self) -> (latest: Result<Checkpoint, ResumeError>)
        ensures
            self.gives_latest(latest),
    ;
}

/// A store in memory. It does not outlive the process; use it for tests and
/// demonstrations.
pub struct InMemoryStore {
    rows: Vec<Checkpoint>,
}

impl View for InMemoryStore {
    type V = Seq<Row>;

    closed spec fn view(&self) -> Seq<Row> {
        self.rows@.map_values(|checkpoint: Checkpoint| checkpoint@)
    }
}

impl InMemoryStore {
    /// A store without checkpoints.
    pub fn new() -> (store: Self)
        ensures
            store@ == Seq::<Row>::empty(),
    {
        let store = InMemoryStore { rows: Vec::new() };
        assert(store@ =~= Seq::<Row>::empty());
        store
    }

    /// All checkpoints, in the order in which they were appended.
    pub fn all(&self) -> (rows: Vec<Checkpoint>)
        ensures
            rows@.map_values(|checkpoint: Checkpoint| checkpoint@) == self@,
    {
        let rows = self.rows.clone();
        assert(rows@.map_values(|checkpoint: Checkpoint| checkpoint@) =~= self@);
        rows
    }

    /// How many checkpoints the store holds.
    pub fn len(&self) -> (n: usize)
        ensures
            n == self@.len(),
    {
        self.rows.len()
    }

    /// Whether the store holds no checkpoint.
    pub fn is_empty(&self) -> (b: bool)
        ensures
            b == (self@.len() == 0),
    {
        self.rows.len() == 0
    }
}

impl Default for InMemoryStore {
    fn default() -> (store: Self)
        ensures
            store@ == Seq::<Row>::empty(),
    {
        InMemoryStore::new()
    }
}

impl Sink for InMemoryStore {
    /// The row is added at the end, always.
    open spec fn appended(
        before: &Self,
        row: Row,
        after: &Self,
        refusal: Option<ResumeError>,
    ) -> bool {
        refusal is None && after@ == before@.push(row)
    }

    /// The last row, where there is one.
    open spec fn gives_latest(&self, latest: Result<Checkpoint, ResumeError>) -> bool {
        if self@.len() > 0 {
            latest is Ok && latest->Ok_0@ == self@.last()
        } else {
            latest matches Err(ResumeError::NoCheckpoint(message)) && message@
                == "no checkpoints in memory"@
        }
    }

    fn append(&mut self, checkpoint: &Checkpoint) -> (result: Result<(), ResumeError>) {
        self.rows.push(checkpoint.clone());
        assert(self@ =~= old(self)@.push(checkpoint@));
        Ok(())
    }

    fn load_latest(&self) -> (latest: Result<Checkpoint, ResumeError>) {
        if self.rows.len() > 0 {
            Ok(self.rows[self.rows.len() - 1].clone())
        } else {
            Err(ResumeError::NoCheckpoint("no checkpoints in memory".to_owned()))
        }
    }
}

/// A store in memory gives back, as its latest checkpoint, what was appended to
/// it last.
pub proof fn latest_is_what_was_appended(
    before: InMemoryStore,
    row: Row,
    after: InMemoryStore,
    refusal: Option<ResumeError>,
    latest: Result<Checkpoint, ResumeError>,
)
    requires
        InMemoryStore::appended(&before, row, &after, refusal),
        after.gives_latest(latest),
    ensures
        refusal is None,
        latest is Ok,
        latest->Ok_0@ == row,
{
}

} // verus!
