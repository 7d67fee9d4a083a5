//! The idempotent writer: persists a page record by record, skipping the
//! records whose natural key the store already holds.
//!
//! The writer owns no connection. A driver carries out the step that the
//! writer names against the store and hands the outcome to
//! `PageWriter::advance`, until the writer has finished. The store itself is
//! modelled as the sequence of the rows it holds, in the order they came.

use crate::models::Series;
use crate::scheduler::boundary_of;
use crate::totals::{lemma_peak, peak};
use vstd::prelude::*;

verus! {

/// What the driver does next for the page.
#[derive(Clone, Copy, Debug, PartialEq, Eq, Structural)]
pub enum WriterStep {
    /// Ask the store whether it holds the key of record `row`.
    Check { row: usize },
    /// Insert record `row`.
    Insert { row: usize },
    /// Insert the pools of record `row`, under the record's `start_time`.
    InsertPools { row: usize },
    /// Nothing is left to do; `written` records were inserted.
    Finished { written: usize },
}

/// What the store made of a step.
#[derive(Clone, Copy, Debug, PartialEq, Eq, Structural)]
pub enum WriterEvent {
    /// The answer to a check.
    Found { present: bool },
    /// The check failed.
    CheckFailed,
    /// The insert was carried out, or failed.
    Inserted { ok: bool },
    /// The pools were passed to the store, whatever became of each.
    PoolsInserted,
}

/// Where the writer is with its current record.
#[derive(Clone, Copy, Debug, PartialEq, Eq, Structural)]
pub enum Phase {
    Checking,
    Inserting,
    Pools,
}

/// The progress of writing one page.
#[derive(Clone, Copy, Debug, PartialEq, Eq, Structural)]
pub struct PageWriter {
    /// The number of records of the page.
    pub rows: usize,
    /// Whether the records have pools that are written after them.
    pub with_pools: bool,
    /// The record the writer is at.
    pub row: usize,
    /// Where the writer is with that record.
    pub phase: Phase,
    /// The number of records inserted so far.
    pub written: usize,
}

/// Whether the records of a series have pools that are written after them:
/// those of the earnings series have.
pub fn carries_pools(series: Series) -> (yes: bool)
    ensures
        yes == (series == Series::Earnings),
{
    match series {
        Series::Earnings => true,
        _ => false,
    }
}

impl PageWriter {
    /// The writer is within its page and has not counted more inserts than
    /// it has seen records.
    pub open spec fn well_formed(self) -> bool {
        &&& self.row <= self.rows
        &&& self.row == self.rows ==> self.phase == Phase::Checking
        &&& self.written <= self.row + if self.phase == Phase::Pools {
            1int
        } else {
            0int
        }
    }

    /// The step that the writer waits for.
    pub open spec fn step(self) -> WriterStep {
        if self.row >= self.rows {
            WriterStep::Finished { written: self.written }
        } else {
            match self.phase {
                Phase::Checking => WriterStep::Check { row: self.row },
                Phase::Inserting => WriterStep::Insert { row: self.row },
                Phase::Pools => WriterStep::InsertPools { row: self.row },
            }
        }
    }

    /// The writer at the next record.
    pub open spec fn at_next_row(self) -> PageWriter {
        PageWriter { row: (self.row + 1) as usize, phase: Phase::Checking, ..self }
    }

    /// The writer after an event. An event that does not answer the step the
    /// writer waits for changes nothing.
    pub open spec fn advanced(self, event: WriterEvent) -> PageWriter {
        if self.row >= self.rows {
            self
        } else {
            match (self.phase, event) {
                (Phase::Checking, WriterEvent::Found { present }) => if present {
                    self.at_next_row()
                } else {
                    PageWriter { phase: Phase::Inserting, ..self }
                },
                (Phase::Checking, WriterEvent::CheckFailed) => self.at_next_row(),
                (Phase::Inserting, WriterEvent::Inserted { ok }) => {
                    let counted = PageWriter {
                        written: if ok {
                            (self.written + 1) as usize
                        } else {
                            self.written
                        },
                        ..self
                    };
                    if self.with_pools {
                        PageWriter { phase: Phase::Pools, ..counted }
                    } else {
                        counted.at_next_row()
                    }
                },
                (Phase::Pools, WriterEvent::PoolsInserted) => self.at_next_row(),
                _ => self,
            }
        }
    }

    /// Begins writing a page of `rows` records.
    pub fn begin(rows: usize, with_pools: bool) -> (writer: PageWriter)
        ensures
            writer == (PageWriter { rows, with_pools, row: 0, phase: Phase::Checking, written: 0 }),
            writer.well_formed(),
    {
        PageWriter { rows, with_pools, row: 0, phase: Phase::Checking, written: 0 }
    }

    /// Tests whether the writer is well formed. A writer that `begin` made
    /// and `advance` moved always is.
    pub fn is_well_formed(&self) -> (ok: bool)
        ensures
            ok == self.well_formed(),
    {
        if self.row > self.rows {
            return false;
        }
        if self.row == self.rows && self.phase != Phase::Checking {
            return false;
        }
        if self.phase == Phase::Pools {
            self.written <= self.row || self.written - self.row == 1
        } else {
            self.written <= self.row
        }
    }

    /// The step that the writer waits for.
    pub fn current(&self) -> (step: WriterStep)
        ensures
            step == self.step(),
    {
        if self.row >= self.rows {
            WriterStep::Finished { written: self.written }
        } else {
            match self.phase {
                Phase::Checking => WriterStep::Check { row: self.row },
                Phase::Inserting => WriterStep::Insert { row: self.row },
                Phase::Pools => WriterStep::InsertPools { row: self.row },
            }
        }
    }

    /// Takes the outcome of the current step and names the next one.
    ///
    /// A record whose key the store holds is skipped, and so is one whose
    /// check failed. A record whose key is absent is inserted; where the
    /// records have pools, the pools follow the insert, whether or not it
    /// succeeded. A failed insert is not counted and does not end the page.
    pub fn advance(&mut self, event: WriterEvent) -> (step: WriterStep)
        requires
            old(self).well_formed(),
        ensures
            *final(self) == old(self).advanced(event),
            final(self).well_formed(),
            step == final(self).step(),
    {
        if self.row < self.rows {
            match (self.phase, event) {
                (Phase::Checking, WriterEvent::Found { present }) => {
                    if present {
                        self.row = self.row + 1;
                    } else {
                        self.phase = Phase::Inserting;
                    }
                },
                (Phase::Checking, WriterEvent::CheckFailed) => {
                    self.row = self.row + 1;
                },
                (Phase::Inserting, WriterEvent::Inserted { ok }) => {
                    if ok {
                        self.written = self.written + 1;
                    }
                    if self.with_pools {
                        self.phase = Phase::Pools;
                    } else {
                        self.row = self.row + 1;
                        self.phase = Phase::Checking;
                    }
                },
                (Phase::Pools, WriterEvent::PoolsInserted) => {
                    self.row = self.row + 1;
                    self.phase = Phase::Checking;
                },
                _ => {},
            }
        }
        self.current()
    }
}

/// A record as the store keeps it: its natural key and where it ends.
pub struct StoredRow {
    pub start_time: i64,
    pub end_time: i64,
}

/// Whether the store holds a record with the given key.
pub open spec fn holds(store: Seq<StoredRow>, key: i64) -> bool {
    exists|i: int| 0 <= i < store.len() && (#[trigger] store[i]).start_time == key
}

/// The store after the first `upto` records of a page have been written: a
/// record whose key the store holds is skipped, any other is appended.
pub open spec fn persisted(store: Seq<StoredRow>, page: Seq<StoredRow>, upto: int) -> Seq<
    StoredRow,
>
    decreases upto,
{
    if upto <= 0 {
        store
    } else if holds(persisted(store, page, upto - 1), page[upto - 1].start_time) {
        persisted(store, page, upto - 1)
    } else {
        persisted(store, page, upto - 1).push(page[upto - 1])
    }
}

/// The store after a whole page has been written.
pub open spec fn after_page(store: Seq<StoredRow>, page: Seq<StoredRow>) -> Seq<StoredRow> {
    persisted(store, page, page.len() as int)
}

/// Whether no two records of the store share a key.
pub open spec fn keys_unique(store: Seq<StoredRow>) -> bool {
    forall|i: int, j: int|
        0 <= i < j < store.len() ==> (#[trigger] store[i]).start_time != (
        #[trigger] store[j]).start_time
}

/// What a store that answers truthfully and never fails makes of a step, and
/// the store afterwards.
pub open spec fn truthful(store: Seq<StoredRow>, page: Seq<StoredRow>, step: WriterStep) -> (
    WriterEvent,
    Seq<StoredRow>,
) {
    match step {
        WriterStep::Check { row } => (
            WriterEvent::Found { present: holds(store, page[row as int].start_time) },
            store,
        ),
        WriterStep::Insert { row } => (
            WriterEvent::Inserted { ok: true },
            store.push(page[row as int]),
        ),
        WriterStep::InsertPools { row } => (WriterEvent::PoolsInserted, store),
        WriterStep::Finished { written } => (WriterEvent::PoolsInserted, store),
    }
}

/// The writer and the store after the writer has been driven against a
/// truthful store for at most `steps` steps.
pub open spec fn driven(
    writer: PageWriter,
    store: Seq<StoredRow>,
    page: Seq<StoredRow>,
    steps: nat,
) -> (PageWriter, Seq<StoredRow>)
    decreases steps,
{
    if steps == 0 || writer.step() is Finished {
        (writer, store)
    } else {
        driven(
            writer.advanced(truthful(store, page, writer.step()).0),
            truthful(store, page, writer.step()).1,
            page,
            (steps - 1) as nat,
        )
    }
}

/// From any record on, a writer driven against a truthful store brings the
/// store to what `persisted` says and counts the records it added.
proof fn lemma_driven_from(
    writer: PageWriter,
    origin: Seq<StoredRow>,
    page: Seq<StoredRow>,
    steps: nat,
)
    requires
        writer.well_formed(),
        writer.rows == page.len(),
        writer.phase == Phase::Checking,
        steps >= 3 * (writer.rows - writer.row),
        writer.written == persisted(origin, page, writer.row as int).len() - origin.len(),
    ensures
        driven(writer, persisted(origin, page, writer.row as int), page, steps).1 == after_page(
            origin,
            page,
        ),
        driven(writer, persisted(origin, page, writer.row as int), page, steps).0.step() == (
        WriterStep::Finished { written: (after_page(origin, page).len() - origin.len()) as usize }),
    decreases writer.rows - writer.row,
{
    let store = persisted(origin, page, writer.row as int);
    lemma_persisted(origin, page, writer.row as int);
    if writer.row < writer.rows {
        let row = page[writer.row as int];
        lemma_persisted(origin, page, writer.row + 1);
        reveal_with_fuel(driven, 4);
        if holds(store, row.start_time) {
            // One step: the check finds the key, and the record is skipped.
            lemma_driven_from(writer.at_next_row(), origin, page, (steps - 1) as nat);
        } else {
            // Two steps, check and insert, and a third for the pools.
            let counted = PageWriter { written: (writer.written + 1) as usize, ..writer };
            assert(persisted(origin, page, writer.row + 1) == store.push(row));
            if writer.with_pools {
                lemma_driven_from(counted.at_next_row(), origin, page, (steps - 3) as nat);
            } else {
                lemma_driven_from(counted.at_next_row(), origin, page, (steps - 2) as nat);
            }
        }
    }
}

/// The writer implements the model of the store: driven against a store that
/// answers truthfully and never fails, it leaves the store as `after_page`
/// says and reports the number of records that it added.
pub proof fn lemma_writer_persists(store: Seq<StoredRow>, page: Seq<StoredRow>, with_pools: bool)
    requires
        page.len() <= usize::MAX,
    ensures
        ({
            let writer = PageWriter {
                rows: page.len() as usize,
                with_pools,
                row: 0,
                phase: Phase::Checking,
                written: 0,
            };
            let end = driven(writer, store, page, 3 * page.len());
            &&& end.1 == after_page(store, page)
            &&& end.0.step() == (WriterStep::Finished {
                written: (after_page(store, page).len() - store.len()) as usize,
            })
        }),
{
    let writer = PageWriter {
        rows: page.len() as usize,
        with_pools,
        row: 0,
        phase: Phase::Checking,
        written: 0,
    };
    lemma_driven_from(writer, store, page, 3 * page.len());
}

/// The column of `end_time` of the store.
pub open spec fn end_times_of(store: Seq<StoredRow>) -> Seq<int> {
    Seq::new(store.len(), |i: int| store[i].end_time as int)
}

/// The largest `end_time` that the store holds, if it holds a record.
pub open spec fn latest_end_time(store: Seq<StoredRow>) -> Option<i64> {
    if store.len() == 0 {
        None
    } else {
        Some(peak(end_times_of(store), 0, store.len() as int) as i64)
    }
}

/// The checkpoint that the store reports.
pub open spec fn checkpoint(store: Seq<StoredRow>, fallback: i64) -> i64 {
    boundary_of(latest_end_time(store), fallback)
}

/// Writing keeps what the store held, in place and unchanged, and only adds
/// records of the page; it holds every key of the page afterwards.
pub proof fn lemma_persisted(store: Seq<StoredRow>, page: Seq<StoredRow>, upto: int)
    requires
        0 <= upto <= page.len(),
    ensures
        store.len() <= persisted(store, page, upto).len() <= store.len() + upto,
        persisted(store, page, upto).subrange(0, store.len() as int) == store,
        forall|i: int|
            0 <= i < upto ==> holds(persisted(store, page, upto), (#[trigger] page[i]).start_time),
        forall|key: i64|
            holds(store, key) ==> #[trigger] holds(persisted(store, page, upto), key),
        keys_unique(store) ==> keys_unique(persisted(store, page, upto)),
    decreases upto,
{
    if upto > 0 {
        lemma_persisted(store, page, upto - 1);
        let before = persisted(store, page, upto - 1);
        let now = persisted(store, page, upto);
        let row = page[upto - 1];
        if !holds(before, row.start_time) {
            assert(now[before.len() as int] == row);
            assert forall|i: int| 0 <= i < upto implies holds(
                now,
                (#[trigger] page[i]).start_time,
            ) by {
                if i < upto - 1 {
                    let at = choose|at: int|
                        0 <= at < before.len() && (#[trigger] before[at]).start_time
                            == page[i].start_time;
                    assert(now[at] == before[at]);
                }
            }
            assert forall|key: i64| holds(store, key) implies #[trigger] holds(now, key) by {
                let at = choose|at: int|
                    0 <= at < before.len() && (#[trigger] before[at]).start_time == key;
                assert(now[at] == before[at]);
            }
            if keys_unique(store) {
                assert forall|i: int, j: int| 0 <= i < j < now.len() implies (
                #[trigger] now[i]).start_time != (#[trigger] now[j]).start_time by {
                    assert(now[i] == before[i]);
                    if j < before.len() {
                        assert(now[j] == before[j]);
                    }
                }
            }
        }
    }
}

/// Writing a page to a store that holds all its keys changes nothing.
proof fn lemma_persisted_again(store: Seq<StoredRow>, page: Seq<StoredRow>, upto: int)
    requires
        0 <= upto <= page.len(),
        forall|i: int| 0 <= i < page.len() ==> holds(store, (#[trigger] page[i]).start_time),
    ensures
        persisted(store, page, upto) == store,
    decreases upto,
{
    if upto > 0 {
        lemma_persisted_again(store, page, upto - 1);
    }
}

/// Idempotence: writing a page a second time changes nothing, so the store
/// holds as many records after two runs as after one.
pub proof fn lemma_persist_idempotent(store: Seq<StoredRow>, page: Seq<StoredRow>)
    ensures
        after_page(after_page(store, page), page) == after_page(store, page),
        after_page(after_page(store, page), page).len() == after_page(store, page).len(),
{
    lemma_persisted(store, page, page.len() as int);
    lemma_persisted_again(after_page(store, page), page, page.len() as int);
}

/// Idempotence of the writer: driven a second time over the same page, against
/// the store that the first run left, the writer inserts nothing and leaves
/// the store as it is.
pub proof fn lemma_writer_idempotent(store: Seq<StoredRow>, page: Seq<StoredRow>, with_pools: bool)
    requires
        page.len() <= usize::MAX,
    ensures
        ({
            let writer = PageWriter {
                rows: page.len() as usize,
                with_pools,
                row: 0,
                phase: Phase::Checking,
                written: 0,
            };
            let once = driven(writer, store, page, 3 * page.len());
            let twice = driven(writer, once.1, page, 3 * page.len());
            &&& twice.1 == once.1
            &&& twice.0.step() == (WriterStep::Finished { written: 0 })
        }),
{
    lemma_writer_persists(store, page, with_pools);
    lemma_writer_persists(after_page(store, page), page, with_pools);
    lemma_persist_idempotent(store, page);
}

/// The latest `end_time` of a store that a page was written to, where the
/// store held a record before, is no earlier than it was.
pub proof fn lemma_latest_end_time_grows(store: Seq<StoredRow>, page: Seq<StoredRow>)
    requires
        store.len() > 0,
    ensures
        latest_end_time(after_page(store, page)) is Some,
        latest_end_time(after_page(store, page))->0 >= latest_end_time(store)->0,
{
    let later = after_page(store, page);
    lemma_persisted(store, page, page.len() as int);
    lemma_peak(end_times_of(store), 0, store.len() as int);
    lemma_peak(end_times_of(later), 0, later.len() as int);
    let at = choose|at: int|
        0 <= at < store.len() && #[trigger] end_times_of(store)[at] == peak(
            end_times_of(store),
            0,
            store.len() as int,
        );
    assert(end_times_of(later)[at] == end_times_of(store)[at]);
    let top = choose|top: int|
        0 <= top < later.len() && #[trigger] end_times_of(later)[top] == peak(
            end_times_of(later),
            0,
            later.len() as int,
        );
}

/// Holds unless the store is empty and every record that writing `page` adds
/// ends before the fallback: the one case in which a fetch cycle lowers the
/// checkpoint, from the fallback to the latest of those records.
pub open spec fn keeps_checkpoint(store: Seq<StoredRow>, page: Seq<StoredRow>, fallback: i64) -> bool {
    store.len() == 0 && after_page(store, page).len() > 0 ==> exists|i: int|
        0 <= i < after_page(store, page).len() && (#[trigger] after_page(store, page)[i]).end_time
            >= fallback
}

/// Checkpoint monotonicity, for one fetch cycle: writing a page does not
/// lower the checkpoint.
pub proof fn lemma_checkpoint_monotone(store: Seq<StoredRow>, page: Seq<StoredRow>, fallback: i64)
    requires
        keeps_checkpoint(store, page, fallback),
    ensures
        checkpoint(after_page(store, page), fallback) >= checkpoint(store, fallback),
{
    let later = after_page(store, page);
    lemma_persisted(store, page, page.len() as int);
    if store.len() > 0 {
        lemma_latest_end_time_grows(store, page);
    } else if later.len() > 0 {
        lemma_peak(end_times_of(later), 0, later.len() as int);
        let i = choose|i: int| 0 <= i < later.len() && (#[trigger] later[i]).end_time >= fallback;
        assert(end_times_of(later)[i] == later[i].end_time);
        let top = choose|top: int|
            0 <= top < later.len() && #[trigger] end_times_of(later)[top] == peak(
                end_times_of(later),
                0,
                later.len() as int,
            );
    }
}

/// The store after the first `upto` of a sequence of fetch cycles, each of
/// which writes one page.
pub open spec fn after_cycles(store: Seq<StoredRow>, pages: Seq<Seq<StoredRow>>, upto: int) -> Seq<
    StoredRow,
>
    decreases upto,
{
    if upto <= 0 {
        store
    } else {
        after_page(after_cycles(store, pages, upto - 1), pages[upto - 1])
    }
}

/// Checkpoint monotonicity: over any sequence of fetch cycles, the checkpoint
/// after a later cycle is no lower than after an earlier one.
pub proof fn lemma_checkpoint_never_decreases(
    store: Seq<StoredRow>,
    pages: Seq<Seq<StoredRow>>,
    fallback: i64,
    earlier: int,
    later: int,
)
    requires
        0 <= earlier <= later <= pages.len(),
        forall|c: int|
            earlier <= c < later ==> keeps_checkpoint(
                #[trigger] after_cycles(store, pages, c),
                pages[c],
                fallback,
            ),
    ensures
        checkpoint(after_cycles(store, pages, earlier), fallback) <= checkpoint(
            after_cycles(store, pages, later),
            fallback,
        ),
    decreases later - earlier,
{
    if earlier < later {
        lemma_checkpoint_never_decreases(store, pages, fallback, earlier, later - 1);
        let before = after_cycles(store, pages, later - 1);
        lemma_checkpoint_monotone(before, pages[later - 1], fallback);
    }
}

} // verus!
