//! The ledger of images to fetch, and the bookkeeping of an acquisition run.
//!
//! A run fetches what the ledger has not yet marked as completed. The
//! transport is the caller's: it asks [`Acquisition::next_fetch`] which record to
//! fetch next, fetches it, and hands what came back to
//! [`Acquisition::resolve`], which says what to write to the archive and to
//! the output ledger.

use crate::progress::Progress;
use vstd::prelude::*;
use vstd::string::*;

verus! {

/// The largest number of fetches under way at one time.
pub const MAX_IN_FLIGHT: usize = 6;

/// The shortest time between two admissions, in milliseconds.
pub const FETCH_INTERVAL_MS: u64 = 200;

/// One line of the ledger: an image, where it comes from, under which name it
/// is archived, and how its fetch ended.
#[derive(Debug, Clone)]
pub struct ImageDownloadRecord {
    pub filename: String,
    pub url: String,
    pub completed: bool,
    pub error: Option<String>,
}

/// What a ledger line says.
pub struct LedgerEntry {
    pub filename: Seq<char>,
    pub url: Seq<char>,
    pub completed: bool,
    pub error: Option<Seq<char>>,
}

impl View for ImageDownloadRecord {
    type V = LedgerEntry;

    open spec fn view(&self) -> LedgerEntry {
        LedgerEntry {
            filename: self.filename@,
            url: self.url@,
            completed: self.completed,
            error: match self.error {
                Some(reason) => Some(reason@),
                None => None,
            },
        }
    }
}

/// What each of a sequence of ledger lines says.
pub open spec fn entries_of(records: Seq<ImageDownloadRecord>) -> Seq<LedgerEntry> {
    Seq::new(records.len(), |i: int| records[i]@)
}

impl ImageDownloadRecord {
    /// A second copy of this line.
    pub fn duplicate(&self) -> (copy: ImageDownloadRecord)
        ensures
            copy@ == self@,
    {
        ImageDownloadRecord {
            filename: self.filename.clone(),
            url: self.url.clone(),
            completed: self.completed,
            error: match &self.error {
                Some(reason) => Some(reason.clone()),
                None => None,
            },
        }
    }
}

/// What a fetch gave: the whole body, or why there is none.
#[derive(Debug)]
pub enum FetchOutcome {
    Body(Vec<u8>),
    Failed(String),
}

/// The line of a record after its fetch ended in `outcome`: completed and
/// without error when there is a body, else not completed and with the
/// failure's description. Name and source stay.
pub open spec fn resolved_entry(entry: LedgerEntry, outcome: FetchOutcome) -> LedgerEntry {
    LedgerEntry {
        filename: entry.filename,
        url: entry.url,
        completed: outcome is Body,
        error: match outcome {
            FetchOutcome::Body(_) => None,
            FetchOutcome::Failed(reason) => Some(reason@),
        },
    }
}

/// A named blob to add to the archive.
#[derive(Debug)]
pub struct ArchiveMember {
    pub name: String,
    pub bytes: Vec<u8>,
}

/// What to do once a fetch has ended.
#[derive(Debug)]
pub struct Resolution {
    /// The line to append to the output ledger.
    pub record: ImageDownloadRecord,
    /// The member to add to the archive, if the fetch gave a body.
    pub member: Option<ArchiveMember>,
}

/// The answer to a request for the next record to fetch.
#[derive(Debug)]
pub enum Admission {
    /// Fetch this record, and resolve it under this index.
    Fetch { index: usize, record: ImageDownloadRecord },
    /// Too soon after the last admission: ask again in this many milliseconds.
    Wait { millis: u64 },
    /// As many fetches as allowed are under way: resolve one first.
    Busy,
    /// Every record to fetch has been admitted.
    Drained,
}

/// Where a record of the run stands.
#[derive(Debug, Clone, Copy)]
pub enum Slot {
    /// Already completed in the input: written to the output ledger as it
    /// was, as line `position`.
    Passed { position: usize },
    /// To be fetched, not yet admitted.
    Waiting,
    /// Admitted, fetch under way.
    InFlight,
    /// Fetch ended: written to the output ledger as line `position`.
    Done { position: usize },
    /// To be fetched, but beyond the limit of the run: neither fetched nor
    /// written.
    LeftOut,
}

/// The line of the output ledger that a record in this slot was written as.
pub open spec fn written_at(slot: Slot) -> Option<usize> {
    match slot {
        Slot::Passed { position } => Some(position),
        Slot::Done { position } => Some(position),
        _ => None,
    }
}

/// Whether some line of the output ledger `order` is about record `index`.
pub open spec fn has_line_about(order: Seq<usize>, index: int) -> bool {
    exists|k: int| 0 <= k < order.len() && #[trigger] order[k] == index
}

/// How many of `slots` are in flight.
pub open spec fn in_flight_count(slots: Seq<Slot>) -> nat
    decreases slots.len(),
{
    if slots.len() == 0 {
        0
    } else {
        in_flight_count(slots.drop_last()) + if slots.last() is InFlight {
            1nat
        } else {
            0nat
        }
    }
}

/// The places, in order, of the records that are completed, or of those that
/// are not.
pub open spec fn places_where(entries: Seq<LedgerEntry>, completed: bool) -> Seq<usize>
    decreases entries.len(),
{
    if entries.len() == 0 {
        Seq::empty()
    } else {
        let before = places_where(entries.drop_last(), completed);
        if entries.last().completed == completed {
            before.push((entries.len() - 1) as usize)
        } else {
            before
        }
    }
}

/// How many of `pending` records a run with this `limit` takes on: all of
/// them without a limit, else the first `limit`.
pub open spec fn scope_of(pending: nat, limit: nat) -> nat {
    if limit > 0 && limit < pending {
        limit
    } else {
        pending
    }
}

/// Where the record at `place` stands as a run with this `limit` begins. A
/// completed record is passed through as the next line of the output
/// ledger. Another waits to be fetched if fewer records to fetch than the
/// run takes on stand before it, and else is left out.
pub open spec fn first_slot(entries: Seq<LedgerEntry>, place: int, limit: nat) -> Slot {
    if entries[place].completed {
        Slot::Passed { position: places_where(entries.subrange(0, place), true).len() as usize }
    } else if places_where(entries.subrange(0, place), false).len() < scope_of(
        places_where(entries, false).len(),
        limit,
    ) {
        Slot::Waiting
    } else {
        Slot::LeftOut
    }
}

/// The state of an acquisition run.
pub struct AcquisitionState {
    /// The records of the input ledger, as it gave them.
    pub entries: Seq<LedgerEntry>,
    /// Where each of them stands.
    pub slots: Seq<Slot>,
    /// The output ledger so far: which record each line is about.
    pub order: Seq<usize>,
    /// The records to fetch, in input order.
    pub queue: Seq<usize>,
    /// How many of the queue have been admitted.
    pub admitted: nat,
    /// How many fetches are under way.
    pub in_flight: nat,
    /// How many records were passed through as already completed.
    pub passed: nat,
    /// How many records to fetch were left out as beyond the limit.
    pub left_out: nat,
    /// When the last record was admitted.
    pub last_admission: Option<u64>,
    pub completed: nat,
    pub skipped: nat,
    pub failed: nat,
    pub total: nat,
}

impl AcquisitionState {
    /// The number of records of the input ledger.
    pub open spec fn records(self) -> nat {
        self.entries.len()
    }

    /// The counters add up.
    pub open spec fn balanced(self) -> bool {
        &&& self.slots.len() == self.records()
        &&& self.records() == self.total
        &&& self.passed + self.queue.len() + self.left_out == self.total
        &&& self.admitted <= self.queue.len()
        &&& self.order.len() + self.in_flight == self.passed + self.admitted
        &&& self.completed + self.failed + self.passed == self.order.len()
        &&& self.skipped == self.passed + self.left_out
        &&& self.in_flight <= MAX_IN_FLIGHT
        &&& self.in_flight == in_flight_count(self.slots)
        &&& self.total <= usize::MAX
    }

    /// The output ledger and the slots tell the same story: line `k` is about
    /// the record whose slot says it was written as line `k`.
    pub open spec fn ledger_agrees(self) -> bool {
        &&& forall|k: int|
            0 <= k < self.order.len() ==> (#[trigger] self.order[k]) < self.records() && written_at(
                self.slots[self.order[k] as int],
            ) == Some(k as usize)
        &&& forall|i: int|
            0 <= i < self.records() ==> match #[trigger] self.slots[i] {
                Slot::Passed { position } => position < self.order.len()
                    && self.order[position as int] == i,
                Slot::Done { position } => position < self.order.len()
                    && self.order[position as int] == i,
                _ => true,
            }
    }

    /// The queue holds, in input order, records that were not completed in
    /// the input; those admitted are in flight or done, the others wait.
    /// Every record is passed through, in the queue or left out, and none is
    /// left out where none is counted so.
    pub open spec fn queue_agrees(self) -> bool {
        &&& forall|j: int|
            0 <= j < self.queue.len() ==> (#[trigger] self.queue[j]) < self.records()
                && !self.entries[self.queue[j] as int].completed
        &&& forall|j: int, l: int|
            0 <= j < l < self.queue.len() ==> (#[trigger] self.queue[j]) < (#[trigger] self.queue[l])
        &&& forall|j: int|
            0 <= j < self.queue.len() ==> match self.slots[(#[trigger] self.queue[j]) as int] {
                Slot::InFlight => j < self.admitted,
                Slot::Done { .. } => j < self.admitted,
                Slot::Waiting => j >= self.admitted,
                Slot::Passed { .. } => false,
                Slot::LeftOut => false,
            }
        &&& forall|i: int|
            0 <= i < self.records() ==> if (#[trigger] self.entries[i]).completed {
                self.slots[i] is Passed
            } else {
                self.slots[i] is LeftOut || exists|j: int|
                    0 <= j < self.queue.len() && #[trigger] self.queue[j] == i
            }
        &&& self.left_out == 0 ==> forall|i: int|
            0 <= i < self.records() ==> !(#[trigger] self.slots[i] is LeftOut)
    }

    /// What holds of every state of a run.
    pub open spec fn wf(self) -> bool {
        &&& self.balanced()
        &&& self.ledger_agrees()
        &&& self.queue_agrees()
    }

    /// Nothing is left to admit and no fetch is under way.
    pub open spec fn finished(self) -> bool {
        self.admitted == self.queue.len() && self.in_flight == 0
    }

    /// Whether a record may be admitted at `now`: always before the first
    /// admission, and after it once a whole interval has gone by since the
    /// last one.
    pub open spec fn gate_open(self, now: u64) -> bool {
        match self.last_admission {
            None => true,
            Some(last) => now >= last && now - last >= FETCH_INTERVAL_MS,
        }
    }

    /// How many milliseconds a caller has to wait at `now` for the next
    /// admission. A clock that reads earlier than the last admission counts
    /// as no time gone by.
    pub open spec fn gate_wait(self, now: u64) -> int {
        match self.last_admission {
            None => 0,
            Some(last) => if now >= last {
                FETCH_INTERVAL_MS - (now - last)
            } else {
                FETCH_INTERVAL_MS as int
            },
        }
    }

    /// The state after the next record of the queue is admitted at `now`.
    pub open spec fn after_admission(self, now: u64) -> AcquisitionState {
        AcquisitionState {
            slots: self.slots.update(self.queue[self.admitted as int] as int, Slot::InFlight),
            admitted: self.admitted + 1,
            in_flight: self.in_flight + 1,
            last_admission: Some(now),
            ..self
        }
    }

    /// The state after the fetch of record `index` has ended, with a body or
    /// without.
    pub open spec fn after_resolution(self, index: usize, with_body: bool) -> AcquisitionState {
        AcquisitionState {
            slots: self.slots.update(
                index as int,
                Slot::Done { position: self.order.len() as usize },
            ),
            order: self.order.push(index),
            in_flight: (self.in_flight - 1) as nat,
            completed: if with_body {
                self.completed + 1
            } else {
                self.completed
            },
            failed: if with_body {
                self.failed
            } else {
                self.failed + 1
            },
            ..self
        }
    }

    /// Whether the state is that of a run that has just begun on `given`
    /// with `limit`. Every record already completed is passed through, in
    /// input order. Of the others the run takes on the first `limit`, or all
    /// of them without a limit, to be fetched in input order; it leaves out
    /// the rest. The completed and the left out count as skipped.
    pub open spec fn begins(self, given: Seq<LedgerEntry>, limit: nat) -> bool {
        let pending = places_where(given, false);
        &&& self.entries == given
        &&& self.slots == Seq::new(given.len(), |place: int| first_slot(given, place, limit))
        &&& self.order == places_where(given, true)
        &&& self.queue == pending.subrange(0, scope_of(pending.len(), limit) as int)
        &&& self.passed == self.order.len()
        &&& self.left_out == pending.len() - scope_of(pending.len(), limit)
        &&& self.admitted == 0
        &&& self.in_flight == 0
        &&& self.last_admission.is_none()
        &&& self.completed == 0
        &&& self.skipped == self.passed + self.left_out
        &&& self.failed == 0
        &&& self.total == given.len()
    }
}

/// An acquisition run: which records are to be fetched, which fetches are
/// under way, what has been written to the output ledger, and the tally.
pub struct Acquisition {
    records: Vec<ImageDownloadRecord>,
    slots: Vec<Slot>,
    order: Vec<usize>,
    queue: Vec<usize>,
    admitted: usize,
    in_flight: usize,
    passed: usize,
    left_out: usize,
    last_admission: Option<u64>,
    progress: Progress,
}

impl View for Acquisition {
    type V = AcquisitionState;

    closed spec fn view(&self) -> AcquisitionState {
        AcquisitionState {
            entries: entries_of(self.records@),
            slots: self.slots@,
            order: self.order@,
            queue: self.queue@,
            admitted: self.admitted as nat,
            in_flight: self.in_flight as nat,
            passed: self.passed as nat,
            left_out: self.left_out as nat,
            last_admission: self.last_admission,
            completed: self.progress.completed_count(),
            skipped: self.progress.skipped_count(),
            failed: self.progress.failed_count(),
            total: self.progress.total_count(),
        }
    }
}

impl Acquisition {
    /// Begins a run on the records of the input ledger.
    ///
    /// The records already completed are handed back, in input order and
    /// unchanged, to be written to the output ledger at once; they count as
    /// skipped. The others are to be fetched, in input order. With a `limit`
    /// above zero and below their number, only the first `limit` of them are
    /// taken on; the rest are left out of the run, neither fetched nor
    /// written, and count as skipped too.
    pub fn begin(records: Vec<ImageDownloadRecord>, limit: usize) -> (started: (
        Acquisition,
        Vec<ImageDownloadRecord>,
    ))
        ensures
            started.0@.wf(),
            started.0@.begins(entries_of(records@), limit as nat),
            started.1@.len() == started.0@.order.len(),
            forall|k: int|
                0 <= k < started.1@.len() ==> (#[trigger] started.1@[k])@
                    == started.0@.entries[started.0@.order[k] as int],
    {
        let ghost entries = entries_of(records@);
        let total = records.len();
        let mut slots: Vec<Slot> = Vec::new();
        let mut order: Vec<usize> = Vec::new();
        let mut queue: Vec<usize> = Vec::new();
        let mut passed_through: Vec<ImageDownloadRecord> = Vec::new();
        let mut pending: usize = 0;
        let mut left_out: usize = 0;
        let mut i: usize = 0;
        while i < total
            invariant
                i <= total,
                records@.len() == total,
                entries == entries_of(records@),
                slots@ == Seq::new(i as nat, |place: int| first_slot(entries, place, limit as nat)),
                order@ == places_where(entries.subrange(0, i as int), true),
                pending == places_where(entries.subrange(0, i as int), false).len(),
                pending <= i,
                queue@ == places_where(entries.subrange(0, i as int), false).subrange(
                    0,
                    scope_of(pending as nat, limit as nat) as int,
                ),
                left_out == pending - scope_of(pending as nat, limit as nat),
                passed_through@.len() == order@.len(),
                forall|k: int|
                    0 <= k < order@.len() ==> (#[trigger] order@[k]) < i && passed_through@[k]@
                        == entries[order@[k] as int],
            decreases total - i,
        {
            proof {
                assert(entries.subrange(0, i + 1).drop_last() =~= entries.subrange(0, i as int));
                assert(entries.subrange(0, i + 1).last() == records@[i as int]@);
                // A record to fetch stands among all the records to fetch.
                lemma_places(entries, false);
                assert(entries[i as int] == records@[i as int]@);
            }
            let ghost pending_before = places_where(entries.subrange(0, i as int), false);
            if records[i].completed {
                slots.push(Slot::Passed { position: order.len() });
                order.push(i);
                passed_through.push(records[i].duplicate());
            } else {
                if limit == 0 || pending < limit {
                    slots.push(Slot::Waiting);
                    queue.push(i);
                    assert(queue@ =~= pending_before.push(i).subrange(0, pending + 1));
                } else {
                    slots.push(Slot::LeftOut);
                    left_out += 1;
                    assert(queue@ =~= pending_before.push(i).subrange(0, limit as int));
                }
                pending += 1;
            }
            assert(slots@ =~= Seq::new(
                (i + 1) as nat,
                |place: int| first_slot(entries, place, limit as nat),
            ));
            i += 1;
        }
        let passed = order.len();
        proof {
            assert(entries.subrange(0, total as int) =~= entries);
            lemma_places_split(entries);
        }
        let acquisition = Acquisition {
            records,
            slots,
            order,
            queue,
            admitted: 0,
            in_flight: 0,
            passed,
            left_out,
            last_admission: None,
            progress: Progress::with_total(total, passed + left_out),
        };
        proof {
            lemma_begin_is_well_formed(acquisition@, entries, limit as nat);
        }
        (acquisition, passed_through)
    }

    /// Asks for the next record to fetch, at the time `now_ms` of a clock
    /// that counts milliseconds.
    ///
    /// A record is admitted when one is left in the queue, fewer than
    /// [`MAX_IN_FLIGHT`] fetches are under way, and [`FETCH_INTERVAL_MS`] have
    /// gone by since the last admission. Otherwise nothing changes, and the
    /// answer says which of the three stands in the way: first an empty
    /// queue, then the fetches under way, then the time.
    pub fn next_fetch(&mut self, now_ms: u64) -> (admission: Admission)
        requires
            old(self)@.wf(),
        ensures
            final(self)@.wf(),
            match admission {
                Admission::Drained => {
                    &&& old(self)@.admitted == old(self)@.queue.len()
                    &&& final(self)@ == old(self)@
                },
                Admission::Busy => {
                    &&& old(self)@.admitted < old(self)@.queue.len()
                    &&& old(self)@.in_flight == MAX_IN_FLIGHT
                    &&& final(self)@ == old(self)@
                },
                Admission::Wait { millis } => {
                    &&& old(self)@.admitted < old(self)@.queue.len()
                    &&& old(self)@.in_flight < MAX_IN_FLIGHT
                    &&& !old(self)@.gate_open(now_ms)
                    &&& millis == old(self)@.gate_wait(now_ms)
                    &&& final(self)@ == old(self)@
                },
                Admission::Fetch { index, record } => {
                    &&& old(self)@.admitted < old(self)@.queue.len()
                    &&& old(self)@.in_flight < MAX_IN_FLIGHT
                    &&& old(self)@.gate_open(now_ms)
                    &&& index == old(self)@.queue[old(self)@.admitted as int]
                    &&& record@ == old(self)@.entries[index as int]
                    &&& final(self)@ == old(self)@.after_admission(now_ms)
                },
            },
    {
        if self.admitted >= self.queue.len() {
            return Admission::Drained;
        }
        if self.in_flight >= MAX_IN_FLIGHT {
            return Admission::Busy;
        }
        match self.last_admission {
            Some(last) => {
                let elapsed = if now_ms >= last {
                    now_ms - last
                } else {
                    0
                };
                if elapsed < FETCH_INTERVAL_MS {
                    return Admission::Wait { millis: FETCH_INTERVAL_MS - elapsed };
                }
            },
            None => {},
        }
        let ghost before = self@;
        let index = self.queue[self.admitted];
        let record = self.records[index].duplicate();
        self.slots.set(index, Slot::InFlight);
        self.admitted += 1;
        self.in_flight += 1;
        self.last_admission = Some(now_ms);
        proof {
            lemma_admission_keeps_well_formed(before, now_ms);
            assert(self@ == before.after_admission(now_ms));
        }
        Admission::Fetch { index, record }
    }

    /// Takes in how the fetch admitted under `index` ended.
    ///
    /// With a body the record is completed and its error cleared, and the
    /// body is to be archived under the record's file name; without one the
    /// record is not completed and carries the failure's description, and
    /// nothing is archived. Either way the record is the next line of the
    /// output ledger and the tally moves by one. Where no fetch is under way
    /// under `index`, nothing changes and there is nothing to do.
    pub fn resolve(&mut self, index: usize, outcome: FetchOutcome) -> (resolution: Option<
        Resolution,
    >)
        requires
            old(self)@.wf(),
        ensures
            final(self)@.wf(),
            match resolution {
                None => {
                    &&& !(index < old(self)@.records() && old(self)@.slots[index as int] is InFlight)
                    &&& final(self)@ == old(self)@
                },
                Some(done) => {
                    &&& index < old(self)@.records()
                    &&& old(self)@.slots[index as int] is InFlight
                    &&& final(self)@ == old(self)@.after_resolution(index, outcome is Body)
                    &&& done.record@ == resolved_entry(old(self)@.entries[index as int], outcome)
                    &&& match outcome {
                        FetchOutcome::Body(body) => done.member matches Some(member)
                            && member.name@ == old(self)@.entries[index as int].filename
                            && member.bytes@ == body@,
                        FetchOutcome::Failed(_) => done.member.is_none(),
                    }
                },
            },
    {
        if index >= self.slots.len() {
            return None;
        }
        match self.slots[index] {
            Slot::InFlight => {},
            _ => {
                return None;
            },
        }
        let ghost before = self@;
        proof {
            lemma_resolution_keeps_well_formed(before, index, outcome is Body);
        }
        let filename = self.records[index].filename.clone();
        let url = self.records[index].url.clone();
        let (record, member) = match outcome {
            FetchOutcome::Body(body) => {
                self.progress.add_completed();
                (
                    ImageDownloadRecord {
                        filename: filename.clone(),
                        url,
                        completed: true,
                        error: None,
                    },
                    Some(ArchiveMember { name: filename, bytes: body }),
                )
            },
            FetchOutcome::Failed(reason) => {
                self.progress.add_failed();
                (ImageDownloadRecord { filename, url, completed: false, error: Some(reason) }, None)
            },
        };
        self.slots.set(index, Slot::Done { position: self.order.len() });
        self.order.push(index);
        self.in_flight -= 1;
        assert(self@ == before.after_resolution(index, outcome is Body));
        Some(Resolution { record, member })
    }

    /// Whether the run is over: nothing is left to admit and no fetch is
    /// under way.
    pub fn is_finished(&self) -> (finished: bool)
        ensures
            finished == self@.finished(),
    {
        self.admitted == self.queue.len() && self.in_flight == 0
    }

    /// The tally of the run.
    pub fn progress(&self) -> (progress: &Progress)
        ensures
            progress.completed_count() == self@.completed,
            progress.skipped_count() == self@.skipped,
            progress.failed_count() == self@.failed,
            progress.total_count() == self@.total,
    {
        &self.progress
    }

    /// How many fetches are under way.
    pub fn in_flight(&self) -> (count: usize)
        ensures
            count == self@.in_flight,
    {
        self.in_flight
    }

    /// Which record each line written to the output ledger so far is about,
    /// by its place in the input ledger.
    pub fn ledger_order(&self) -> (order: &Vec<usize>)
        ensures
            order@ == self@.order,
    {
        &self.order
    }
}

/// The places that [`places_where`] lists are places of the ledger whose
/// records are as asked for; they stand in rising order; and each such place
/// is listed, after as many as there are such places before it.
pub proof fn lemma_places(entries: Seq<LedgerEntry>, completed: bool)
    requires
        entries.len() <= usize::MAX,
    ensures
        places_where(entries, completed).len() <= entries.len(),
        forall|k: int|
            0 <= k < places_where(entries, completed).len() ==> (#[trigger] places_where(
                entries,
                completed,
            )[k]) < entries.len() && entries[places_where(entries, completed)[k] as int].completed
                == completed,
        forall|k: int, l: int|
            0 <= k < l < places_where(entries, completed).len() ==> (#[trigger] places_where(
                entries,
                completed,
            )[k]) < (#[trigger] places_where(entries, completed)[l]),
        forall|place: int|
            0 <= place < entries.len() && (#[trigger] entries[place]).completed == completed ==> {
                let before = places_where(entries.subrange(0, place), completed).len();
                before < places_where(entries, completed).len() && places_where(
                    entries,
                    completed,
                )[before as int] == place
            },
    decreases entries.len(),
{
    if entries.len() > 0 {
        let front = entries.drop_last();
        let listed = places_where(entries, completed);
        let listed_front = places_where(front, completed);
        lemma_places(front, completed);
        assert forall|k: int| 0 <= k < listed.len() implies (#[trigger] listed[k]) < entries.len()
            && entries[listed[k] as int].completed == completed by {
            if k < listed_front.len() {
                assert(listed[k] == listed_front[k]);
                assert(front[listed_front[k] as int] == entries[listed_front[k] as int]);
            }
        }
        assert forall|k: int, l: int| 0 <= k < l < listed.len() implies (#[trigger] listed[k]) < (
        #[trigger] listed[l]) by {
            assert(listed[k] == listed_front[k]);
            if l < listed_front.len() {
                assert(listed[l] == listed_front[l]);
            }
        }
        assert forall|place: int|
            0 <= place < entries.len() && (#[trigger] entries[place]).completed
                == completed implies {
            let before = places_where(entries.subrange(0, place), completed).len();
            before < listed.len() && listed[before as int] == place
        } by {
            if place < front.len() {
                assert(front[place] == entries[place]);
                assert(front.subrange(0, place) =~= entries.subrange(0, place));
                let before = places_where(front.subrange(0, place), completed).len();
                assert(listed[before as int] == listed_front[before as int]);
            } else {
                assert(entries.subrange(0, place) =~= front);
            }
        }
    }
}

/// Every place of the ledger is listed among those of the completed records
/// or among those of the others.
pub proof fn lemma_places_split(entries: Seq<LedgerEntry>)
    ensures
        places_where(entries, true).len() + places_where(entries, false).len() == entries.len(),
    decreases entries.len(),
{
    if entries.len() > 0 {
        lemma_places_split(entries.drop_last());
    }
}

/// Where no slot is in flight, none is counted.
pub proof fn lemma_nothing_in_flight_nothing_counted(slots: Seq<Slot>)
    requires
        forall|i: int| 0 <= i < slots.len() ==> !(#[trigger] slots[i] is InFlight),
    ensures
        in_flight_count(slots) == 0,
    decreases slots.len(),
{
    if slots.len() > 0 {
        assert forall|i: int| 0 <= i < slots.drop_last().len() implies !(
        #[trigger] slots.drop_last()[i] is InFlight) by {
            assert(slots.drop_last()[i] == slots[i]);
        }
        lemma_nothing_in_flight_nothing_counted(slots.drop_last());
        assert(!(slots[slots.len() - 1] is InFlight));
    }
}

/// A run is well formed as it begins.
pub proof fn lemma_begin_is_well_formed(
    state: AcquisitionState,
    given: Seq<LedgerEntry>,
    limit: nat,
)
    requires
        state.begins(given, limit),
        given.len() <= usize::MAX,
    ensures
        state.wf(),
{
    let entries = state.entries;
    let pending = places_where(entries, false);
    let quota = scope_of(pending.len(), limit);
    lemma_places(entries, true);
    lemma_places(entries, false);
    lemma_places_split(entries);
    lemma_nothing_in_flight_nothing_counted(state.slots);
    assert forall|place: int| 0 <= place < entries.len() implies places_where(
        entries.subrange(0, place),
        true,
    ).len() <= place by {
        lemma_places(entries.subrange(0, place), true);
    }
    assert(state.balanced());
    assert(state.ledger_agrees()) by {
        assert forall|k: int| 0 <= k < state.order.len() implies (#[trigger] state.order[k])
            < state.records() && written_at(state.slots[state.order[k] as int]) == Some(
            k as usize,
        ) by {
            let place = state.order[k] as int;
            assert(entries[place].completed);
            let before = places_where(entries.subrange(0, place), true).len();
            // Two places of the list hold `place`, so they are one.
            assert(state.order[before as int] == place);
            if before < k {
                assert(state.order[before as int] < state.order[k]);
            } else if k < before {
                assert(state.order[k] < state.order[before as int]);
            }
        }
        assert forall|i: int| 0 <= i < state.records() implies match #[trigger] state.slots[i] {
            Slot::Passed { position } => position < state.order.len()
                && state.order[position as int] == i,
            Slot::Done { position } => position < state.order.len()
                && state.order[position as int] == i,
            _ => true,
        } by {
            assert(entries[i].completed == entries[i].completed);
        }
    }
    assert(state.queue_agrees()) by {
        assert forall|j: int| 0 <= j < state.queue.len() implies (#[trigger] state.queue[j])
            < state.records() && !entries[state.queue[j] as int].completed by {
            assert(state.queue[j] == pending[j]);
        }
        assert forall|j: int, l: int| 0 <= j < l < state.queue.len() implies (
        #[trigger] state.queue[j]) < (#[trigger] state.queue[l]) by {
            assert(state.queue[j] == pending[j] && state.queue[l] == pending[l]);
        }
        assert forall|j: int| 0 <= j < state.queue.len() implies state.slots[(
        #[trigger] state.queue[j]) as int] is Waiting by {
            let place = pending[j] as int;
            assert(state.queue[j] == pending[j]);
            assert(!entries[place].completed);
            let before = places_where(entries.subrange(0, place), false).len();
            assert(pending[before as int] == place);
            if before < j {
                assert(pending[before as int] < pending[j]);
            } else if j < before {
                assert(pending[j] < pending[before as int]);
            }
        }
        assert forall|i: int| 0 <= i < state.records() implies if (
        #[trigger] state.entries[i]).completed {
            state.slots[i] is Passed
        } else {
            state.slots[i] is LeftOut || exists|j: int|
                0 <= j < state.queue.len() && #[trigger] state.queue[j] == i
        } by {
            if !entries[i].completed {
                let before = places_where(entries.subrange(0, i), false).len();
                assert(pending[before as int] == i);
                if before < quota {
                    assert(state.queue[before as int] == i);
                }
            }
        }
        if state.left_out == 0 {
            assert forall|i: int| 0 <= i < state.records() implies !(
            #[trigger] state.slots[i] is LeftOut) by {
                if !entries[i].completed {
                    let before = places_where(entries.subrange(0, i), false).len();
                    assert(pending[before as int] == i);
                }
            }
        }
    }
}

/// Admitting the next record of the queue keeps a run well formed.
pub proof fn lemma_admission_keeps_well_formed(state: AcquisitionState, now: u64)
    requires
        state.wf(),
        state.admitted < state.queue.len(),
        state.in_flight < MAX_IN_FLIGHT,
    ensures
        state.after_admission(now).wf(),
{
    let after = state.after_admission(now);
    let index = state.queue[state.admitted as int];
    lemma_in_flight_update(state.slots, index as int, Slot::InFlight);
    assert(after.balanced());
    assert(after.ledger_agrees());
    assert(after.queue_agrees()) by {
        assert forall|n: int| 0 <= n < after.records() implies if (
        #[trigger] after.entries[n]).completed {
            after.slots[n] is Passed
        } else {
            after.slots[n] is LeftOut || exists|j: int|
                0 <= j < after.queue.len() && #[trigger] after.queue[j] == n
        } by {
            assert(state.entries[n] == after.entries[n]);
            if !state.entries[n].completed && !(state.slots[n] is LeftOut) {
                let j = choose|j: int| 0 <= j < state.queue.len() && state.queue[j] == n;
                assert(after.queue[j] == n);
            }
        }
    }
}

/// Taking in the end of a fetch that is under way keeps a run well formed.
/// While a fetch is under way, fewer lines are written than the ledger has
/// records.
pub proof fn lemma_resolution_keeps_well_formed(
    state: AcquisitionState,
    index: usize,
    with_body: bool,
)
    requires
        state.wf(),
        index < state.records(),
        state.slots[index as int] is InFlight,
    ensures
        state.in_flight > 0,
        state.order.len() < state.records(),
        state.after_resolution(index, with_body).wf(),
{
    let after = state.after_resolution(index, with_body);
    lemma_in_flight_update(
        state.slots,
        index as int,
        Slot::Done { position: state.order.len() as usize },
    );
    assert(after.balanced());
    assert(after.ledger_agrees());
    assert(after.queue_agrees()) by {
        assert forall|n: int| 0 <= n < after.records() implies if (
        #[trigger] after.entries[n]).completed {
            after.slots[n] is Passed
        } else {
            after.slots[n] is LeftOut || exists|j: int|
                0 <= j < after.queue.len() && #[trigger] after.queue[j] == n
        } by {
            assert(state.entries[n] == after.entries[n]);
            if !state.entries[n].completed && !(state.slots[n] is LeftOut) {
                let j = choose|j: int| 0 <= j < state.queue.len() && state.queue[j] == n;
                assert(after.queue[j] == n);
            }
        }
    }
}

/// Setting a slot changes the number in flight by what the slot gains or
/// loses.
pub proof fn lemma_in_flight_update(slots: Seq<Slot>, index: int, slot: Slot)
    requires
        0 <= index < slots.len(),
    ensures
        in_flight_count(slots.update(index, slot)) + (if slots[index] is InFlight {
            1nat
        } else {
            0nat
        }) == in_flight_count(slots) + (if slot is InFlight {
            1nat
        } else {
            0nat
        }),
    decreases slots.len(),
{
    let updated = slots.update(index, slot);
    if index == slots.len() - 1 {
        assert(updated.drop_last() =~= slots.drop_last());
    } else {
        assert(updated.drop_last() =~= slots.drop_last().update(index, slot));
        lemma_in_flight_update(slots.drop_last(), index, slot);
    }
}

/// Where none is counted in flight, no slot is in flight.
pub proof fn lemma_nothing_counted_nothing_in_flight(slots: Seq<Slot>)
    requires
        in_flight_count(slots) == 0,
    ensures
        forall|i: int| 0 <= i < slots.len() ==> !(#[trigger] slots[i] is InFlight),
    decreases slots.len(),
{
    if slots.len() > 0 {
        lemma_nothing_counted_nothing_in_flight(slots.drop_last());
        assert forall|i: int| 0 <= i < slots.len() implies !(#[trigger] slots[i] is InFlight) by {
            if i < slots.len() - 1 {
                assert(slots.drop_last()[i] == slots[i]);
            }
        }
    }
}

/// At every moment of a run the records counted as completed, skipped or
/// failed are no more than the records of the input ledger, and once the run
/// is over they are all of them.
pub proof fn lemma_tally_within_total(state: AcquisitionState)
    requires
        state.wf(),
    ensures
        state.completed + state.skipped + state.failed <= state.total,
        state.finished() ==> state.completed + state.skipped + state.failed == state.total,
{
}

/// The limit counts the records still to fetch: a run takes on the first
/// `limit` of them, or all of them where it has no limit or they are no
/// more, and passes through every completed record whatever the limit.
pub proof fn lemma_limit_counts_records_to_fetch(
    state: AcquisitionState,
    given: Seq<LedgerEntry>,
    limit: nat,
)
    requires
        state.begins(given, limit),
    ensures
        state.order == places_where(given, true),
        state.queue.len() + state.left_out == places_where(given, false).len(),
        0 < limit < places_where(given, false).len() ==> state.queue.len() == limit,
        limit == 0 || limit >= places_where(given, false).len() ==> state.left_out == 0
            && state.queue == places_where(given, false),
{
    let pending = places_where(given, false);
    assert(pending.subrange(0, pending.len() as int) =~= pending);
}

/// Once a run is over, every record that was not left out is the subject
/// of exactly one line of the output ledger, and where none was left out
/// that is every record of the input ledger.
pub proof fn lemma_finished_ledger_is_complete(state: AcquisitionState)
    requires
        state.wf(),
        state.finished(),
    ensures
        state.order.len() + state.left_out == state.records(),
        forall|i: int|
            0 <= i < state.records() && !(#[trigger] state.slots[i] is LeftOut) ==> has_line_about(
                state.order,
                i,
            ),
        state.left_out == 0 ==> forall|i: int|
            0 <= i < state.records() ==> #[trigger] has_line_about(state.order, i),
        forall|k: int, l: int|
            0 <= k < state.order.len() && 0 <= l < state.order.len() && (#[trigger] state.order[k])
                == (#[trigger] state.order[l]) ==> k == l,
{
    lemma_nothing_counted_nothing_in_flight(state.slots);
    assert forall|i: int|
        0 <= i < state.records() && !(#[trigger] state.slots[i] is LeftOut) implies has_line_about(
        state.order,
        i,
    ) by {
        let slot = state.slots[i];
        assert(state.entries[i].completed == state.entries[i].completed);
        if !state.entries[i].completed {
            let j = choose|j: int| 0 <= j < state.queue.len() && state.queue[j] == i;
            assert(state.slots[state.queue[j] as int] is Done);
        }
        let position = written_at(slot).unwrap();
        assert(state.order[position as int] == i);
    }
    if state.left_out == 0 {
        assert forall|i: int| 0 <= i < state.records() implies #[trigger] has_line_about(
            state.order,
            i,
        ) by {
            assert(!(state.slots[i] is LeftOut));
        }
    }
}

/// A run on a ledger in which every record is already completed has nothing
/// to fetch: it is over as it begins, no fetch is or will be under way, so
/// that nothing is archived, and every record counts as skipped.
pub proof fn lemma_completed_ledger_is_idle(
    state: AcquisitionState,
    given: Seq<LedgerEntry>,
    limit: nat,
)
    requires
        state.wf(),
        state.begins(given, limit),
        forall|i: int| 0 <= i < given.len() ==> (#[trigger] given[i]).completed,
    ensures
        state.finished(),
        state.queue.len() == 0,
        state.left_out == 0,
        forall|i: int| 0 <= i < state.records() ==> #[trigger] state.slots[i] is Passed,
        state.skipped == state.total,
        state.completed == 0,
        state.failed == 0,
{
    let pending = places_where(given, false);
    lemma_places(given, false);
    if pending.len() > 0 {
        let first = pending[0];
        assert(!given[first as int].completed);
    }
    assert forall|i: int| 0 <= i < state.records() implies #[trigger] state.slots[i] is Passed by {
        assert(state.entries[i] == given[i]);
    }
}

} // verus!
