//! The bookkeeping of a batch: which file may start, how many are in
//! flight, and how each one ended.
//!
//! The scheduler does no work itself. A caller asks it what to do, starts the
//! file it names, and reports each file that has ended, in whatever order
//! they end. The scheduler sees to it that no more files are in flight than
//! the pool has slots, that every file is started once, and that every file
//! has exactly one outcome when the batch is over.

use crate::pipeline::Outcome;
use vstd::prelude::*;

verus! {

/// The state of one file of the batch.
#[derive(Clone, Copy, Debug, PartialEq, Eq, Structural)]
pub enum Slot {
    /// Not started yet.
    Waiting,
    /// Started and not ended: the file holds a slot of the pool.
    Running,
    /// Ended, with this outcome.
    Finished(Outcome),
}

/// What the caller is to do next.
#[derive(Clone, Copy, Debug, PartialEq, Eq, Structural)]
pub enum Action {
    /// Start the file with this index.
    Start(usize),
    /// Start nothing now: wait until a file in flight has ended.
    Wait,
    /// Nothing is left to do: every file has ended.
    Finish,
}

/// How many files ended in which way.
#[derive(Clone, Copy, Debug, PartialEq, Eq, Structural)]
pub struct Tally {
    pub saved: usize,
    pub skipped: usize,
    pub failed: usize,
}

/// The bookkeeping of one batch.
#[derive(Debug)]
pub struct Scheduler {
    pool_size: usize,
    slots: Vec<Slot>,
    next: usize,
    running: usize,
    finished: usize,
}

/// `num_cpus::get`: the number of logical cores that this process may use.
/// The number depends on the machine and on how the process was started; all
/// that is claimed is that it is at least 1, as the crate documents.
#[verifier::external_body]
fn available_cores() -> (cores: usize)
    ensures
        cores >= 1,
{
    num_cpus::get()
}

/// How many of `slots` are running.
pub open spec fn running_in(slots: Seq<Slot>) -> nat
    decreases slots.len(),
{
    if slots.len() == 0 {
        0
    } else {
        running_in(slots.drop_last()) + if slots.last() is Running {
            1nat
        } else {
            0nat
        }
    }
}

/// How many of `slots` have ended with `outcome`; with `None`, how many have
/// ended in failure.
pub open spec fn ended_in(slots: Seq<Slot>, outcome: Option<Outcome>) -> nat
    decreases slots.len(),
{
    if slots.len() == 0 {
        0
    } else {
        ended_in(slots.drop_last(), outcome) + if ended_as(slots.last(), outcome) {
            1nat
        } else {
            0nat
        }
    }
}

/// Whether `slot` has ended with `outcome`; with `None`, whether it has
/// ended in failure.
pub open spec fn ended_as(slot: Slot, outcome: Option<Outcome>) -> bool {
    match (slot, outcome) {
        (Slot::Finished(Outcome::Failed(_)), None) => true,
        (Slot::Finished(ended), Some(wanted)) => ended == wanted,
        _ => false,
    }
}

/// How many of `slots` have ended.
pub open spec fn finished_in(slots: Seq<Slot>) -> nat {
    ended_in(slots, Some(Outcome::Saved)) + ended_in(slots, Some(Outcome::Skipped)) + ended_in(
        slots,
        None,
    )
}

/// Changing one slot changes the counts by that slot alone.
pub proof fn lemma_counts_update(slots: Seq<Slot>, at: int, slot: Slot, outcome: Option<Outcome>)
    requires
        0 <= at < slots.len(),
    ensures
        running_in(slots.update(at, slot)) + (if slots[at] is Running {
            1nat
        } else {
            0nat
        }) == running_in(slots) + (if slot is Running {
            1nat
        } else {
            0nat
        }),
        ended_in(slots.update(at, slot), outcome) + (if ended_as(slots[at], outcome) {
            1nat
        } else {
            0nat
        }) == ended_in(slots, outcome) + (if ended_as(slot, outcome) {
            1nat
        } else {
            0nat
        }),
    decreases slots.len(),
{
    let changed = slots.update(at, slot);
    if at == slots.len() - 1 {
        assert(changed.drop_last() =~= slots.drop_last());
    } else {
        lemma_counts_update(slots.drop_last(), at, slot, outcome);
        assert(changed.drop_last() =~= slots.drop_last().update(at, slot));
    }
}

/// Slots that all wait hold nothing that runs and nothing that has ended.
pub proof fn lemma_counts_waiting(slots: Seq<Slot>, outcome: Option<Outcome>)
    requires
        forall|i: int| 0 <= i < slots.len() ==> #[trigger] slots[i] == Slot::Waiting,
    ensures
        running_in(slots) == 0,
        ended_in(slots, outcome) == 0,
    decreases slots.len(),
{
    if slots.len() > 0 {
        lemma_counts_waiting(slots.drop_last(), outcome);
    }
}

/// No count is larger than the number of slots, and running and ended slots
/// together are no more than all.
pub proof fn lemma_counts_bounded(slots: Seq<Slot>)
    ensures
        running_in(slots) + finished_in(slots) <= slots.len(),
        running_in(slots) + finished_in(slots) == slots.len() <==> (forall|i: int|
            0 <= i < slots.len() ==> !(#[trigger] slots[i] is Waiting)),
    decreases slots.len(),
{
    if slots.len() > 0 {
        let front = slots.drop_last();
        lemma_counts_bounded(front);
        if forall|i: int| 0 <= i < slots.len() ==> !(#[trigger] slots[i] is Waiting) {
            assert forall|i: int| 0 <= i < front.len() implies !(#[trigger] front[i] is Waiting) by {
                assert(front[i] == slots[i]);
            }
        }
        if running_in(slots) + finished_in(slots) == slots.len() {
            assert forall|i: int| 0 <= i < slots.len() implies !(#[trigger] slots[i] is Waiting) by {
                if i < front.len() {
                    assert(front[i] == slots[i]);
                }
            }
        }
    }
}

impl Scheduler {
    /// The number of slots of the pool, for use in contracts.
    pub closed spec fn spec_pool_size(&self) -> usize {
        self.pool_size
    }

    /// The state of every file, in the order of the batch.
    pub closed spec fn slots(&self) -> Seq<Slot> {
        self.slots@
    }

    /// The index of the file that starts next; the number of files where all
    /// have been started.
    pub closed spec fn spec_next(&self) -> usize {
        self.next
    }

    /// Number of files in flight, for use in contracts.
    pub closed spec fn spec_in_flight(&self) -> usize {
        self.running
    }

    /// Number of files that have ended, for use in contracts.
    pub closed spec fn spec_finished(&self) -> usize {
        self.finished
    }

    /// Number of files in the batch, for use in contracts.
    pub open spec fn spec_len(&self) -> usize {
        self.slots().len() as usize
    }

    /// The books are in order: files start in the order of the batch, the
    /// counts are those of the slots, and no more files are in flight than
    /// the pool has slots.
    pub open spec fn wf(&self) -> bool {
        &&& self.slots().len() <= usize::MAX
        &&& self.next() <= self.slots().len()
        &&& forall|i: int| 0 <= i < self.next() ==> !(#[trigger] self.slots()[i] is Waiting)
        &&& forall|i: int|
            self.next() <= i < self.slots().len() ==> #[trigger] self.slots()[i] is Waiting
        &&& self.in_flight() == running_in(self.slots())
        &&& self.finished() == finished_in(self.slots())
        &&& self.in_flight() + self.finished() == self.next()
        &&& self.in_flight() <= self.pool_size()
    }

    /// How much is left to do: one start and one end for each file, less
    /// the starts and the ends that have been booked.
    pub open spec fn work_left(&self) -> int {
        2 * self.slots().len() - self.next() - self.finished()
    }

    /// Whether every file has ended.
    pub open spec fn spec_is_done(&self) -> bool {
        self.finished() == self.slots().len()
    }

    /// What `poll` answers in this state.
    pub open spec fn spec_action(&self) -> Action {
        if self.next() < self.slots().len() && self.in_flight() < self.pool_size() {
            Action::Start(self.next())
        } else if self.is_done() {
            Action::Finish
        } else {
            Action::Wait
        }
    }

    /// The books of a batch of `files` files, none of them started, for a
    /// pool of `pool_size` slots.
    pub fn new(files: usize, pool_size: usize) -> (made: Scheduler)
        ensures
            made.wf(),
            made.len() == files,
            made.pool_size() == pool_size,
            made.next() == 0,
            made.in_flight() == 0,
            made.finished() == 0,
            forall|i: int| 0 <= i < files ==> #[trigger] made.slots()[i] == Slot::Waiting,
    {
        let mut slots: Vec<Slot> = Vec::new();
        let mut at: usize = 0;
        while at < files
            invariant
                at <= files,
                slots@.len() == at,
                forall|i: int| 0 <= i < at ==> #[trigger] slots@[i] == Slot::Waiting,
            decreases files - at,
        {
            slots.push(Slot::Waiting);
            at = at + 1;
        }
        proof {
            lemma_counts_waiting(slots@, Some(Outcome::Saved));
            lemma_counts_waiting(slots@, Some(Outcome::Skipped));
            lemma_counts_waiting(slots@, None);
        }
        Scheduler { pool_size, slots, next: 0, running: 0, finished: 0 }
    }

    /// The books of a batch of `files` files for a pool with one slot for
    /// each core that this process may use.
    pub fn for_host(files: usize) -> (made: Scheduler)
        ensures
            made.wf(),
            made.len() == files,
            made.pool_size() >= 1,
            made.next() == 0,
            made.in_flight() == 0,
            made.finished() == 0,
            forall|i: int| 0 <= i < files ==> #[trigger] made.slots()[i] == Slot::Waiting,
    {
        Scheduler::new(files, available_cores())
    }

    /// Number of slots of the pool.
    #[verifier::when_used_as_spec(spec_pool_size)]
    pub fn pool_size(&self) -> (n: usize)
        ensures
            n == self.spec_pool_size(),
    {
        self.pool_size
    }

    /// Number of files in the batch.
    #[verifier::when_used_as_spec(spec_len)]
    pub fn len(&self) -> (n: usize)
        ensures
            n == self.spec_len(),
    {
        self.slots.len()
    }

    /// The index of the file that starts next.
    #[verifier::when_used_as_spec(spec_next)]
    pub fn next(&self) -> (n: usize)
        ensures
            n == self.spec_next(),
    {
        self.next
    }

    /// Number of files in flight.
    #[verifier::when_used_as_spec(spec_in_flight)]
    pub fn in_flight(&self) -> (n: usize)
        ensures
            n == self.spec_in_flight(),
    {
        self.running
    }

    /// Number of files that have ended.
    #[verifier::when_used_as_spec(spec_finished)]
    pub fn finished(&self) -> (n: usize)
        ensures
            n == self.spec_finished(),
    {
        self.finished
    }

    /// Whether every file has ended.
    #[verifier::when_used_as_spec(spec_is_done)]
    pub fn is_done(&self) -> (done: bool)
        ensures
            done == self.spec_is_done(),
    {
        self.finished == self.slots.len()
    }

    /// Says what to do next, and books a file that it tells to start as in
    /// flight.
    ///
    /// A file starts whenever one is waiting and the pool has a free slot;
    /// files start in the order of the batch. Otherwise the answer is
    /// `Finish` once every file has ended, and `Wait` until then. With a pool
    /// of at least one slot, `Wait` is only said while a file is in flight:
    /// there is always a file whose end the caller can wait for.
    pub fn poll(&mut self) -> (action: Action)
        requires
            old(self).wf(),
        ensures
            final(self).wf(),
            action == old(self).spec_action(),
            final(self).pool_size() == old(self).pool_size(),
            final(self).finished() == old(self).finished(),
            match action {
                Action::Start(file) => {
                    &&& file == old(self).next()
                    &&& old(self).slots()[file as int] == Slot::Waiting
                    &&& final(self).slots() == old(self).slots().update(file as int, Slot::Running)
                    &&& final(self).next() == file + 1
                    &&& final(self).in_flight() == old(self).in_flight() + 1
                    &&& final(self).work_left() == old(self).work_left() - 1
                },
                Action::Wait => {
                    &&& *final(self) == *old(self)
                    &&& !old(self).is_done()
                    &&& old(self).pool_size() >= 1 ==> old(self).in_flight() >= 1
                },
                Action::Finish => {
                    &&& *final(self) == *old(self)
                    &&& old(self).is_done()
                    &&& old(self).in_flight() == 0
                },
            },
    {
        proof {
            lemma_counts_bounded(self.slots@);
        }
        if self.next < self.slots.len() && self.running < self.pool_size {
            let file = self.next;
            proof {
                lemma_counts_update(self.slots@, file as int, Slot::Running, Some(Outcome::Saved));
                lemma_counts_update(self.slots@, file as int, Slot::Running, Some(Outcome::Skipped));
                lemma_counts_update(self.slots@, file as int, Slot::Running, None);
            }
            self.slots.set(file, Slot::Running);
            self.next = file + 1;
            self.running = self.running + 1;
            Action::Start(file)
        } else if self.finished == self.slots.len() {
            Action::Finish
        } else {
            Action::Wait
        }
    }

    /// Books the end of a file in flight. Gives `false`, and changes
    /// nothing, where the file is not in flight: where it has not been
    /// started, has ended already, or is not of the batch.
    pub fn complete(&mut self, file: usize, outcome: Outcome) -> (booked: bool)
        requires
            old(self).wf(),
        ensures
            final(self).wf(),
            booked == (file < old(self).len() && old(self).slots()[file as int] == Slot::Running),
            booked ==> {
                &&& final(self).slots() == old(self).slots().update(
                    file as int,
                    Slot::Finished(outcome),
                )
                &&& final(self).in_flight() == old(self).in_flight() - 1
                &&& final(self).finished() == old(self).finished() + 1
                &&& final(self).next() == old(self).next()
                &&& final(self).pool_size() == old(self).pool_size()
                &&& final(self).work_left() == old(self).work_left() - 1
            },
            !booked ==> *final(self) == *old(self),
    {
        if file >= self.slots.len() {
            return false;
        }
        match self.slots[file] {
            Slot::Running => {},
            _ => {
                return false;
            },
        }
        proof {
            lemma_counts_bounded(self.slots@);
            lemma_counts_update(
                self.slots@,
                file as int,
                Slot::Finished(outcome),
                Some(Outcome::Saved),
            );
            lemma_counts_update(
                self.slots@,
                file as int,
                Slot::Finished(outcome),
                Some(Outcome::Skipped),
            );
            lemma_counts_update(self.slots@, file as int, Slot::Finished(outcome), None);
        }
        self.slots.set(file, Slot::Finished(outcome));
        self.running = self.running - 1;
        self.finished = self.finished + 1;
        true
    }

    /// How the file with this index ended, or `None` where it has not ended
    /// or is not of the batch.
    pub fn outcome(&self, file: usize) -> (ended: Option<Outcome>)
        ensures
            ended == (if file < self.len() {
                match self.slots()[file as int] {
                    Slot::Finished(outcome) => Some(outcome),
                    _ => None,
                }
            } else {
                None
            }),
    {
        if file < self.slots.len() {
            match self.slots[file] {
                Slot::Finished(outcome) => Some(outcome),
                _ => None,
            }
        } else {
            None
        }
    }

    /// How many files have been saved, skipped and failed so far. The three
    /// numbers add up to the number of files that have ended, which at the end
    /// of the batch is the number of files.
    pub fn tally(&self) -> (counts: Tally)
        requires
            self.wf(),
        ensures
            counts.saved == ended_in(self.slots(), Some(Outcome::Saved)),
            counts.skipped == ended_in(self.slots(), Some(Outcome::Skipped)),
            counts.failed == ended_in(self.slots(), None),
            counts.saved + counts.skipped + counts.failed == self.finished(),
            self.is_done() ==> counts.saved + counts.skipped + counts.failed == self.len(),
    {
        let mut counts = Tally { saved: 0, skipped: 0, failed: 0 };
        let mut at: usize = 0;
        let ghost all = self.slots@;
        while at < self.slots.len()
            invariant
                at <= self.slots@.len(),
                all == self.slots@,
                counts.saved == ended_in(all.subrange(0, at as int), Some(Outcome::Saved)),
                counts.skipped == ended_in(all.subrange(0, at as int), Some(Outcome::Skipped)),
                counts.failed == ended_in(all.subrange(0, at as int), None),
                counts.saved + counts.skipped + counts.failed <= at,
            decreases self.slots@.len() - at,
        {
            proof {
                assert(all.subrange(0, at + 1).drop_last() =~= all.subrange(0, at as int));
            }
            match self.slots[at] {
                Slot::Finished(Outcome::Saved) => {
                    counts.saved = counts.saved + 1;
                },
                Slot::Finished(Outcome::Skipped) => {
                    counts.skipped = counts.skipped + 1;
                },
                Slot::Finished(Outcome::Failed(_)) => {
                    counts.failed = counts.failed + 1;
                },
                _ => {},
            }
            at = at + 1;
        }
        proof {
            assert(all.subrange(0, at as int) =~= all);
        }
        counts
    }

    /// Whether a file has failed so far.
    pub fn any_failed(&self) -> (failed: bool)
        requires
            self.wf(),
        ensures
            failed == (ended_in(self.slots(), None) > 0),
            failed == (exists|i: int|
                0 <= i < self.len() && #[trigger] ended_as(self.slots()[i], None)),
    {
        proof {
            lemma_ended_exists(self.slots@, None);
        }
        self.tally().failed > 0
    }
}

/// At no time are more files in flight than the pool has slots, and the
/// files in flight and the files that have ended are together the files
/// that have been started.
pub proof fn lemma_pool_bound(books: Scheduler)
    requires
        books.wf(),
    ensures
        books.in_flight() <= books.pool_size(),
        books.in_flight() + books.finished() == books.next(),
        books.next() <= books.len(),
{
}

/// Work is left exactly until the batch is over. As every start and every
/// end that is booked takes one from it, and `poll` with a pool of at least
/// one slot either starts a file or waits for one that is in flight, a batch
/// of `n` files is over after `n` starts and `n` ends.
pub proof fn lemma_work_left(books: Scheduler)
    requires
        books.wf(),
    ensures
        0 <= books.work_left() <= 2 * books.len(),
        books.work_left() == 0 <==> books.is_done(),
        books.work_left() == 2 * (books.len() - books.next()) + books.in_flight(),
{
    lemma_counts_bounded(books.slots());
}

/// When the batch is over every file has ended, each with one outcome, and
/// none is in flight.
pub proof fn lemma_done_all_ended(books: Scheduler)
    requires
        books.wf(),
        books.is_done(),
    ensures
        books.in_flight() == 0,
        books.next() == books.len(),
        forall|i: int| 0 <= i < books.len() ==> #[trigger] books.slots()[i] is Finished,
        books.spec_action() == Action::Finish,
{
    lemma_counts_bounded(books.slots());
    lemma_no_running(books.slots());
}

/// Where nothing runs, a slot that does not wait has ended.
proof fn lemma_no_running(slots: Seq<Slot>)
    requires
        running_in(slots) == 0,
    ensures
        forall|i: int| 0 <= i < slots.len() ==> !(#[trigger] slots[i] is Running),
    decreases slots.len(),
{
    if slots.len() > 0 {
        let front = slots.drop_last();
        lemma_no_running(front);
        assert forall|i: int| 0 <= i < slots.len() implies !(#[trigger] slots[i] is Running) by {
            if i < front.len() {
                assert(front[i] == slots[i]);
            }
        }
    }
}

/// Some slot has ended in a given way exactly when the count of such slots
/// is not zero.
pub proof fn lemma_ended_exists(slots: Seq<Slot>, outcome: Option<Outcome>)
    ensures
        ended_in(slots, outcome) > 0 <==> exists|i: int|
            0 <= i < slots.len() && #[trigger] ended_as(slots[i], outcome),
    decreases slots.len(),
{
    if slots.len() > 0 {
        let front = slots.drop_last();
        lemma_ended_exists(front, outcome);
        if ended_in(slots, outcome) > 0 {
            if ended_as(slots.last(), outcome) {
                assert(ended_as(slots[slots.len() - 1], outcome));
            } else {
                let i = choose|i: int| 0 <= i < front.len() && #[trigger] ended_as(front[i], outcome);
                assert(ended_as(slots[i], outcome));
            }
        }
        if exists|i: int| 0 <= i < slots.len() && #[trigger] ended_as(slots[i], outcome) {
            let i = choose|i: int| 0 <= i < slots.len() && #[trigger] ended_as(slots[i], outcome);
            if i < front.len() {
                assert(ended_as(front[i], outcome));
            }
        }
    }
}

} // verus!
