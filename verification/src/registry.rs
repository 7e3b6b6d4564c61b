//! The task registry: a keyed store from task id to the identifier of the
//! OS process currently executing it, together with the cancellation
//! decision.
//!
//! The store is abstracted as a finite map.  Registration overwrites (a
//! second registration under the same id replaces the tracked process),
//! removal of an absent id is a no-op, and cancellation of an unknown id
//! reports `NotFound` and changes nothing.  The lock that makes the store
//! concurrency-safe is layered on by the caller, outside this crate, and
//! is held only around these O(len) operations, never across I/O.

use vstd::prelude::*;

verus! {

/// One registry entry: a task id and the process identifier executing it.
#[derive(Debug, Clone)]
pub struct TaskRecord {
    pub id: String,
    pub pid: u32,
}

/// The error of cancelling a task that is not tracked.
#[derive(Debug, Clone, PartialEq, Eq)]
pub enum CancelError {
    NotFound,
}

/// The map that a sequence of records denotes; later records overwrite
/// earlier ones.
pub open spec fn map_of(entries: Seq<TaskRecord>) -> Map<Seq<char>, u32>
    decreases entries.len(),
{
    if entries.len() == 0 {
        Map::empty()
    } else {
        map_of(entries.drop_last()).insert(entries.last().id@, entries.last().pid)
    }
}

/// How many records carry the given id.
pub open spec fn count_id(entries: Seq<TaskRecord>, id: Seq<char>) -> nat
    decreases entries.len(),
{
    if entries.len() == 0 {
        0
    } else {
        (if entries.last().id@ == id {
            1nat
        } else {
            0nat
        }) + count_id(entries.drop_last(), id)
    }
}

/// The task registry.  The caller-facing state of the engine: one entry
/// per running task.
#[derive(Debug)]
pub struct ExecState {
    entries: Vec<TaskRecord>,
}

impl View for ExecState {
    type V = Map<Seq<char>, u32>;

    closed spec fn view(&self) -> Map<Seq<char>, u32> {
        map_of(self.entries@)
    }
}

proof fn lemma_map_of_contains(entries: Seq<TaskRecord>, id: Seq<char>)
    ensures
        map_of(entries).contains_key(id) <==> exists|i: int|
            0 <= i < entries.len() && #[trigger] entries[i].id@ == id,
    decreases entries.len(),
{
    if entries.len() == 0 {
    } else {
        lemma_map_of_contains(entries.drop_last(), id);
        let last = entries.len() - 1;
        if entries.last().id@ == id {
            assert(entries[last].id@ == id);
        } else if map_of(entries).contains_key(id) {
            let i = choose|i: int|
                0 <= i < entries.drop_last().len() && #[trigger] entries.drop_last()[i].id@ == id;
            assert(entries[i].id@ == id);
        } else if exists|i: int| 0 <= i < entries.len() && #[trigger] entries[i].id@ == id {
            let i = choose|i: int| 0 <= i < entries.len() && #[trigger] entries[i].id@ == id;
            assert(i < last);
            assert(entries.drop_last()[i].id@ == id);
        }
    }
}

proof fn lemma_map_of_get(entries: Seq<TaskRecord>, i: int)
    requires
        wf_entries(entries),
        0 <= i < entries.len(),
    ensures
        map_of(entries).contains_key(entries[i].id@),
        map_of(entries)[entries[i].id@] == entries[i].pid,
    decreases entries.len(),
{
    let last = entries.len() - 1;
    if i == last {
    } else {
        assert(wf_entries(entries.drop_last()));
        assert(entries.drop_last()[i] == entries[i]);
        lemma_map_of_get(entries.drop_last(), i);
        assert(entries[i].id@ != entries[last].id@);
    }
}

proof fn lemma_map_of_remove(entries: Seq<TaskRecord>, i: int)
    requires
        wf_entries(entries),
        0 <= i < entries.len(),
    ensures
        map_of(entries.remove(i)) == map_of(entries).remove(entries[i].id@),
    decreases entries.len(),
{
    let last = entries.len() - 1;
    let id = entries[i].id@;
    if i == last {
        assert(entries.remove(i) =~= entries.drop_last());
        lemma_map_of_contains(entries.drop_last(), id);
        assert(forall|k: int|
            0 <= k < entries.drop_last().len() ==> #[trigger] entries.drop_last()[k].id@ != id);
        assert(!map_of(entries.drop_last()).contains_key(id));
        assert(map_of(entries.drop_last()).insert(id, entries[i].pid).remove(id) =~= map_of(
            entries.drop_last(),
        ));
    } else {
        assert(wf_entries(entries.drop_last()));
        assert(entries.drop_last()[i] == entries[i]);
        lemma_map_of_remove(entries.drop_last(), i);
        assert(entries.remove(i).drop_last() =~= entries.drop_last().remove(i));
        assert(entries.remove(i).last() == entries.last());
        assert(map_of(entries.remove(i)) == map_of(entries.drop_last().remove(i)).insert(
            entries.last().id@,
            entries.last().pid,
        ));
        assert(entries.last().id@ != id);
        assert(map_of(entries.drop_last()).remove(id).insert(entries.last().id@, entries.last().pid)
            =~= map_of(entries.drop_last()).insert(entries.last().id@, entries.last().pid).remove(
            id,
        ));
    }
}

proof fn lemma_count_absent(entries: Seq<TaskRecord>, id: Seq<char>)
    requires
        forall|i: int| 0 <= i < entries.len() ==> #[trigger] entries[i].id@ != id,
    ensures
        count_id(entries, id) == 0,
    decreases entries.len(),
{
    if entries.len() > 0 {
        assert(forall|i: int|
            0 <= i < entries.drop_last().len() ==> #[trigger] entries.drop_last()[i].id@ != id);
        lemma_count_absent(entries.drop_last(), id);
        assert(entries.last().id@ != id);
    }
}

/// The records are keyed uniquely: no two entries share a task id.
pub open spec fn wf_entries(entries: Seq<TaskRecord>) -> bool {
    forall|i: int, j: int|
        0 <= i < j < entries.len() ==> (#[trigger] entries[i].id@) != (#[trigger] entries[j].id@)
}

impl ExecState {
    /// The registry's well-formedness: ids are unique among entries.
    pub closed spec fn wf(&self) -> bool {
        wf_entries(self.entries@)
    }

    /// The raw records, for stating representation-level properties.
    pub closed spec fn records(&self) -> Seq<TaskRecord> {
        self.entries@
    }

    /// An empty registry.
    pub fn new() -> (r: ExecState)
        ensures
            r.wf(),
            r@ == Map::<Seq<char>, u32>::empty(),
    {
        ExecState { entries: Vec::new() }
    }

    fn find_index(&self, id: &String) -> (r: Option<usize>)
        ensures
            r matches Some(i) ==> i < self.entries@.len() && self.entries@[i as int].id@ == id@,
            r is None ==> forall|i: int|
                0 <= i < self.entries@.len() ==> #[trigger] self.entries@[i].id@ != id@,
    {
        let mut i: usize = 0;
        while i < self.entries.len()
            invariant
                i <= self.entries@.len(),
                forall|j: int| 0 <= j < i ==> #[trigger] self.entries@[j].id@ != id@,
            decreases self.entries@.len() - i,
        {
            if self.entries[i].id == *id {
                return Some(i);
            }
            i = i + 1;
        }
        None
    }

    /// Looks up the process tracked for a task id.
    pub fn lookup(&self, id: &String) -> (r: Option<u32>)
        requires
            self.wf(),
        ensures
            r == if self@.contains_key(id@) {
                Some(self@[id@])
            } else {
                None::<u32>
            },
    {
        proof {
            lemma_map_of_contains(self.entries@, id@);
        }
        match self.find_index(id) {
            Some(i) => {
                proof {
                    lemma_map_of_get(self.entries@, i as int);
                }
                Some(self.entries[i].pid)
            },
            None => None,
        }
    }

    /// Removes the entry for a task id, if any, returning the process it
    /// tracked.  Removing an absent id is a no-op, so removal is
    /// idempotent and the race between a canceller and a natural exit is
    /// harmless.
    pub fn remove(&mut self, id: &String) -> (r: Option<u32>)
        requires
            old(self).wf(),
        ensures
            final(self).wf(),
            final(self)@ == old(self)@.remove(id@),
            !final(self)@.contains_key(id@),
            r == if old(self)@.contains_key(id@) {
                Some(old(self)@[id@])
            } else {
                None::<u32>
            },
    {
        proof {
            lemma_map_of_contains(self.entries@, id@);
        }
        match self.find_index(id) {
            Some(i) => {
                proof {
                    lemma_map_of_get(self.entries@, i as int);
                    lemma_map_of_remove(self.entries@, i as int);
                }
                let ghost before = self.entries@;
                let rec = self.entries.remove(i);
                proof {
                    assert(wf_entries(self.entries@)) by {
                        assert(forall|k: int|
                            0 <= k < i ==> #[trigger] self.entries@[k] == before[k]);
                        assert(forall|k: int|
                            i <= k < self.entries@.len() ==> #[trigger] self.entries@[k]
                                == before[k + 1]);
                    }
                    lemma_map_of_contains(self.entries@, id@);
                }
                Some(rec.pid)
            },
            None => {
                proof {
                    assert(old(self)@.remove(id@) =~= old(self)@);
                }
                None
            },
        }
    }

    /// Registers (or re-registers) a task id as executed by the given
    /// process, returning the previously tracked process if the id was
    /// already present.
    pub fn register(&mut self, id: String, pid: u32) -> (prev: Option<u32>)
        requires
            old(self).wf(),
        ensures
            final(self).wf(),
            final(self)@ == old(self)@.insert(id@, pid),
            final(self)@.contains_key(id@),
            prev == if old(self)@.contains_key(id@) {
                Some(old(self)@[id@])
            } else {
                None::<u32>
            },
    {
        let prev = self.remove(&id);
        proof {
            lemma_map_of_contains(self.entries@, id@);
        }
        let ghost before = self.entries@;
        self.entries.push(TaskRecord { id, pid });
        proof {
            assert(self.entries@.drop_last() =~= before);
            assert(wf_entries(self.entries@)) by {
                assert(forall|k: int| 0 <= k < before.len() ==> #[trigger] self.entries@[k]
                    == before[k]);
            }
            assert(old(self)@.remove(self.entries@.last().id@).insert(
                self.entries@.last().id@,
                pid,
            ) =~= old(self)@.insert(self.entries@.last().id@, pid));
        }
        prev
    }

    /// The cancellation decision: an unknown id is `NotFound` and leaves
    /// the registry unchanged; a tracked id has its entry removed and its
    /// process identifier returned, for the caller to kill the process
    /// tree best-effort.
    pub fn cancel(&mut self, id: &String) -> (r: Result<u32, CancelError>)
        requires
            old(self).wf(),
        ensures
            final(self).wf(),
            old(self)@.contains_key(id@) ==> (r matches Ok(pid) && pid == old(self)@[id@]
                && final(self)@ == old(self)@.remove(id@) && !final(self)@.contains_key(id@)),
            !old(self)@.contains_key(id@) ==> r == Err::<u32, CancelError>(CancelError::NotFound)
                && final(self)@ == old(self)@,
    {
        match self.remove(id) {
            Some(pid) => Ok(pid),
            None => {
                proof {
                    assert(old(self)@.remove(id@) =~= old(self)@);
                }
                Err(CancelError::NotFound)
            },
        }
    }
}

impl Default for ExecState {
    /// An empty registry.
    fn default() -> (r: ExecState)
        ensures
            r.wf(),
            r@ == Map::<Seq<char>, u32>::empty(),
    {
        ExecState::new()
    }
}

/// For every task id, at most one registry entry exists at any instant in
/// a well-formed registry.
pub proof fn lemma_at_most_one_entry(s: &ExecState, id: Seq<char>)
    requires
        s.wf(),
    ensures
        count_id(s.records(), id) <= 1,
{
    lemma_count_unique(s.records(), id);
}

proof fn lemma_count_unique(entries: Seq<TaskRecord>, id: Seq<char>)
    requires
        wf_entries(entries),
    ensures
        count_id(entries, id) <= 1,
    decreases entries.len(),
{
    if entries.len() > 0 {
        let last = entries.len() - 1;
        assert(wf_entries(entries.drop_last()));
        if entries.last().id@ == id {
            assert(forall|i: int|
                0 <= i < entries.drop_last().len() ==> #[trigger] entries.drop_last()[i].id@ != id);
            lemma_count_absent(entries.drop_last(), id);
        } else {
            lemma_count_unique(entries.drop_last(), id);
        }
    }
}

} // verus!
