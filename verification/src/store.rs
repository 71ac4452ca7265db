//! The measurement store: debounced ingestion of automated readings, merging
//! of manual inputs, and flushing of the oldest rows to durable storage.

use crate::data::{clone_data202303, ordered, timestamps, Data202303};
use crate::p1_meter::CompleteP1Measurement;
use crate::ringbuffer::{
    after_push, cursor, freeze, halved, lemma_cursor_view, new, RingBuffer, RingBufferViewIter,
};
use std::time::{Duration, UNIX_EPOCH};
use vstd::prelude::*;

verus! {

/// The number of rows that the window holds: one per minute for a day.
pub const WINDOW_CAPACITY: usize = 1440;

/// The least number of seconds between two automated readings that are both
/// stored.
pub const DEBOUNCE_SECONDS: i64 = 60;

/// The greatest number of rows that one flush offers to storage.
pub const BATCH_LIMIT: usize = 100;

/// The window of measurements that the process keeps in memory.
pub struct AppState<Q> {
    pub data: RingBuffer<Data202303<Q>>,
}

impl<Q> Default for AppState<Q> {
    fn default() -> (state: Self)
        ensures
            state.wf(),
            state.is_ordered(),
            state.data@ == Seq::<Data202303<Q>>::empty(),
            state.data.spec_capacity() == WINDOW_CAPACITY,
    {
        AppState { data: new::<Data202303<Q>>(WINDOW_CAPACITY) }
    }
}

impl<Q> AppState<Q> {
    /// The window is a well-formed buffer.
    pub open spec fn wf(&self) -> bool {
        self.data.wf()
    }

    /// The rows of the window stand in the order of their timestamps. Every
    /// operation of the store keeps a window so ordered.
    pub open spec fn is_ordered(&self) -> bool {
        ordered(timestamps(self.data@))
    }
}

/// The time of an automated reading: that of the meter's datagram where
/// there is one, else the clock's.
pub open spec fn reading_time<Q>(p1: Option<CompleteP1Measurement<Q>>, now: i64) -> i64 {
    match p1 {
        Some(m) => m.timestamp,
        None => now,
    }
}

/// The row that an automated reading is stored as.
pub open spec fn automated_record<Q>(
    p1: Option<CompleteP1Measurement<Q>>,
    pv_2022: Option<Q>,
    timestamp: i64,
) -> Data202303<Q> {
    match p1 {
        Some(m) => Data202303 {
            timestamp,
            pv2012_kWh: None,
            pv2022_kWh: pv_2022,
            peak_conso_kWh: Some(m.peak_hour_consumption),
            off_conso_kWh: Some(m.off_hour_consumption),
            peak_inj_kWh: Some(m.peak_hour_injection),
            off_inj_kWh: Some(m.off_hour_injection),
            gas_m3: None,
            water_m3: None,
        },
        None => Data202303 {
            timestamp,
            pv2012_kWh: None,
            pv2022_kWh: pv_2022,
            peak_conso_kWh: None,
            off_conso_kWh: None,
            peak_inj_kWh: None,
            off_inj_kWh: None,
            gas_m3: None,
            water_m3: None,
        },
    }
}

/// A reading at `timestamp` comes too soon after the newest row.
pub open spec fn debounced<Q>(rows: Seq<Data202303<Q>>, timestamp: i64) -> bool {
    rows.len() > 0 && timestamp - rows.last().timestamp < DEBOUNCE_SECONDS
}

/// An automated reading is stored: it carries a value and does not come too
/// soon.
pub open spec fn accepted<Q>(
    rows: Seq<Data202303<Q>>,
    p1: Option<CompleteP1Measurement<Q>>,
    pv_2022: Option<Q>,
    now: i64,
) -> bool {
    (p1 is Some || pv_2022 is Some) && !debounced(rows, reading_time(p1, now))
}

/// The rows after an automated reading was offered at clock time `now` to a
/// window of capacity `cap` that holds `rows`.
pub open spec fn after_reading<Q>(
    rows: Seq<Data202303<Q>>,
    cap: nat,
    p1: Option<CompleteP1Measurement<Q>>,
    pv_2022: Option<Q>,
    now: i64,
) -> Seq<Data202303<Q>> {
    if accepted(rows, p1, pv_2022, now) {
        after_push(rows, cap, automated_record(p1, pv_2022, reading_time(p1, now)))
    } else {
        rows
    }
}

/// The row that an automated reading pushes out of the window, if any.
pub open spec fn displaced_by_reading<Q>(
    rows: Seq<Data202303<Q>>,
    cap: nat,
    p1: Option<CompleteP1Measurement<Q>>,
    pv_2022: Option<Q>,
    now: i64,
) -> Option<Data202303<Q>> {
    if accepted(rows, p1, pv_2022, now) && rows.len() >= cap {
        Some(rows[0])
    } else {
        None
    }
}

/// The rows after an automated reading was offered and, where a full window
/// gave up a row for it, the window was thinned to every second row.
pub open spec fn after_ingest<Q>(
    rows: Seq<Data202303<Q>>,
    cap: nat,
    p1: Option<CompleteP1Measurement<Q>>,
    pv_2022: Option<Q>,
    now: i64,
) -> Seq<Data202303<Q>> {
    if displaced_by_reading(rows, cap, p1, pv_2022, now) is Some {
        halved(after_reading(rows, cap, p1, pv_2022, now))
    } else {
        after_reading(rows, cap, p1, pv_2022, now)
    }
}

/// What holds of the window `after` and of the report once a reading was
/// offered to the window `before`: the reading was stored by the time of
/// its datagram or, where it has none, by some reading of the clock; or it
/// was dropped because the clock could not be read. A window that gave up a
/// row was thinned.
pub open spec fn ingested<Q>(
    before: Seq<Data202303<Q>>,
    cap: nat,
    p1: Option<CompleteP1Measurement<Q>>,
    pv_2022: Option<Q>,
    after: Seq<Data202303<Q>>,
) -> bool {
    match p1 {
        Some(m) => after == after_ingest(before, cap, p1, pv_2022, m.timestamp),
        None => after == before || exists|now: i64|
            after == #[trigger] after_ingest(before, cap, p1, pv_2022, now),
    }
}

/// The window spans more than `dump_interval` seconds, so that its oldest
/// rows are due for storage.
pub open spec fn flush_due<Q>(rows: Seq<Data202303<Q>>, dump_interval: i64) -> bool {
    rows.len() > 0 && rows.last().timestamp - rows[0].timestamp > dump_interval
}

/// The rows that stay once storage has answered a batch with `outcome`:
/// as many of the oldest rows leave as storage confirms to have inserted,
/// and none where it reports an error.
pub open spec fn after_acknowledge<Q, E>(
    rows: Seq<Data202303<Q>>,
    outcome: Result<usize, E>,
) -> Seq<Data202303<Q>> {
    match outcome {
        Ok(n) => if n < rows.len() {
            rows.skip(n as int)
        } else {
            Seq::empty()
        },
        Err(_) => rows,
    }
}

/// How a flush ended.
#[derive(Debug, PartialEq)]
pub enum Flush<E> {
    /// The window does not yet span the dump interval: storage was not
    /// called.
    NotDue,
    /// Storage confirmed this many rows, which left the window.
    Saved(usize),
    /// Storage reported no error and no row: the window is unchanged.
    NothingSaved,
    /// Storage reported this error: the window is unchanged.
    Failed(E),
}

/// The report that a flush gives of storage's answer.
pub open spec fn flush_report<E>(outcome: Result<usize, E>) -> Flush<E> {
    match outcome {
        Ok(n) => if n > 0 {
            Flush::Saved(n)
        } else {
            Flush::NothingSaved
        },
        Err(e) => Flush::Failed(e),
    }
}

/// What holds of the rows `after` and of the report once the window
/// `before` was flushed through `persist`: where the window does not span
/// more than `dump_interval` seconds nothing happens; else `persist` is
/// called once, on a cursor over the first `limit` rows, and its answer
/// decides which rows stay.
pub open spec fn flushed<Q, E, F: FnOnce(RingBufferViewIter<'_, Data202303<Q>>) -> Result<usize, E>>(
    before: RingBuffer<Data202303<Q>>,
    persist: F,
    dump_interval: i64,
    limit: usize,
    after: Seq<Data202303<Q>>,
    report: Flush<E>,
) -> bool {
    if flush_due(before@, dump_interval) {
        exists|outcome: Result<usize, E>|
            {
                &&& #[trigger] persist.ensures((cursor(&before, Some(limit)),), outcome)
                &&& after == after_acknowledge(before@, outcome)
                &&& report == flush_report(outcome)
            }
    } else {
        report is NotDue && after == before@
    }
}

/// The time that has passed since the Unix epoch by the system clock, read
/// with `SystemTime::elapsed`; `None` where the clock stands before the
/// epoch. Nothing is claimed of the reading.
#[verifier::external_body]
fn since_unix_epoch() -> (elapsed: Option<Duration>) {
    match UNIX_EPOCH.elapsed() {
        Ok(elapsed) => Some(elapsed),
        Err(_) => None,
    }
}

/// `Duration::as_secs` gives the whole seconds of a duration. Nothing is
/// claimed of their number.
pub assume_specification[ std::time::Duration::as_secs ](elapsed: &Duration) -> (secs: u64);

/// Seconds since the Unix epoch by the system clock; `None` where the clock
/// stands before the epoch.
fn unix_now() -> (now: Option<i64>) {
    match since_unix_epoch() {
        Some(elapsed) => {
            let secs: u64 = elapsed.as_secs();
            let signed: i64 = #[verifier::truncate] (secs as i64);
            Some(signed)
        },
        None => None,
    }
}

/// The timestamp of a row.
pub fn timestamp_of<Q>(row: &Data202303<Q>) -> (t: i64)
    ensures
        t == row.timestamp,
{
    row.timestamp
}

/// The number of seconds from `earlier` to `later`, negative where `later`
/// comes first.
pub fn seconds_between(earlier: i64, later: i64) -> (elapsed: i128)
    ensures
        elapsed == later - earlier,
{
    let from: i128 = earlier as i128;
    let to: i128 = later as i128;
    to - from
}

impl<Q: Copy> AppState<Q> {
    /// Offers an automated reading taken at clock time `now`. The reading
    /// is dropped where neither source has a value, or where it comes less
    /// than a minute after the newest row. Returns the row that a full
    /// window gave up.
    pub fn set_data_at(
        &mut self,
        p1: Option<CompleteP1Measurement<Q>>,
        pv_2022: Option<Q>,
        now: i64,
    ) -> (displaced: Option<Data202303<Q>>)
        requires
            old(self).wf(),
        ensures
            final(self).wf(),
            final(self).data.spec_capacity() == old(self).data.spec_capacity(),
            old(self).is_ordered() ==> final(self).is_ordered(),
            final(self).data@ == after_reading(
                old(self).data@,
                old(self).data.spec_capacity(),
                p1,
                pv_2022,
                now,
            ),
            displaced == displaced_by_reading(
                old(self).data@,
                old(self).data.spec_capacity(),
                p1,
                pv_2022,
                now,
            ),
    {
        proof {
            if self.is_ordered() {
                lemma_ingest_keeps_order(self.data@, self.data.spec_capacity(), p1, pv_2022, now);
            }
        }
        if p1.is_none() && pv_2022.is_none() {
            return None;
        }
        let timestamp = match &p1 {
            Some(m) => m.timestamp,
            None => now,
        };
        let last_update = self.data.peek_last(timestamp_of);
        let too_soon = match last_update {
            Some(last) => {
                let elapsed = seconds_between(last, timestamp);
                let window: i128 = DEBOUNCE_SECONDS as i128;
                elapsed < window
            },
            None => false,
        };
        if too_soon {
            return None;
        }
        self.data.push(
            match p1 {
                Some(p1) => Data202303 {
                    timestamp,
                    pv2012_kWh: None,
                    pv2022_kWh: pv_2022,
                    peak_conso_kWh: Some(p1.peak_hour_consumption),
                    off_conso_kWh: Some(p1.off_hour_consumption),
                    peak_inj_kWh: Some(p1.peak_hour_injection),
                    off_inj_kWh: Some(p1.off_hour_injection),
                    gas_m3: None,
                    water_m3: None,
                },
                None => Data202303 {
                    timestamp,
                    pv2012_kWh: None,
                    pv2022_kWh: pv_2022,
                    peak_conso_kWh: None,
                    off_conso_kWh: None,
                    peak_inj_kWh: None,
                    off_inj_kWh: None,
                    gas_m3: None,
                    water_m3: None,
                },
            },
        )
    }

    /// Offers an automated reading. Its time is that of the meter's
    /// datagram; a reading without one is stamped by the system clock, and
    /// dropped where the clock stands before the epoch.
    pub fn set_data(&mut self, p1: Option<CompleteP1Measurement<Q>>, pv_2022: Option<Q>) -> (displaced:
        Option<Data202303<Q>>)
        requires
            old(self).wf(),
        ensures
            final(self).wf(),
            final(self).data.spec_capacity() == old(self).data.spec_capacity(),
            old(self).is_ordered() ==> final(self).is_ordered(),
            p1 matches Some(m) ==> final(self).data@ == after_reading(
                old(self).data@,
                old(self).data.spec_capacity(),
                p1,
                pv_2022,
                m.timestamp,
            ) && displaced == displaced_by_reading(
                old(self).data@,
                old(self).data.spec_capacity(),
                p1,
                pv_2022,
                m.timestamp,
            ),
            p1 is None ==> (final(self).data@ == old(self).data@ && displaced is None)
                || exists|now: i64|
                {
                    &&& final(self).data@ == #[trigger] after_reading(
                        old(self).data@,
                        old(self).data.spec_capacity(),
                        p1,
                        pv_2022,
                        now,
                    )
                    &&& displaced == displaced_by_reading(
                        old(self).data@,
                        old(self).data.spec_capacity(),
                        p1,
                        pv_2022,
                        now,
                    )
                },
            p1 is None && pv_2022 is None ==> final(self).data@ == old(self).data@ && displaced is None,
    {
        match p1 {
            Some(m) => {
                let timestamp = m.timestamp;
                self.set_data_at(Some(m), pv_2022, timestamp)
            },
            None => match unix_now() {
                Some(now) => self.set_data_at(None, pv_2022, now),
                None => None,
            },
        }
    }

    /// A copy of the oldest row.
    pub fn get_first_data(&self) -> (first: Option<Data202303<Q>>)
        requires
            self.wf(),
        ensures
            first == (if self.data@.len() > 0 {
                Some(self.data@[0])
            } else {
                None
            }),
    {
        self.data.peek_first(clone_data202303)
    }

    /// A copy of the newest row.
    pub fn get_last_data(&self) -> (last: Option<Data202303<Q>>)
        requires
            self.wf(),
        ensures
            last == (if self.data@.len() > 0 {
                Some(self.data@.last())
            } else {
                None
            }),
    {
        self.data.peek_last(clone_data202303)
    }

    /// Thins the window to every second row.
    pub fn halve_data(&mut self)
        requires
            old(self).wf(),
        ensures
            final(self).wf(),
            final(self).data.spec_capacity() == old(self).data.spec_capacity(),
            old(self).is_ordered() ==> final(self).is_ordered(),
            final(self).data@ == halved(old(self).data@),
    {
        proof {
            if self.is_ordered() {
                lemma_halved_keeps_order(self.data@);
            }
        }
        self.data.halve_data();
    }

    /// Whether the window spans more than `dump_interval` seconds.
    pub fn is_flush_due(&self, dump_interval: i64) -> (due: bool)
        requires
            self.wf(),
        ensures
            due == flush_due(self.data@, dump_interval),
    {
        match (self.data.peek_first(timestamp_of), self.data.peek_last(timestamp_of)) {
            (Some(first), Some(last)) => {
                let span = seconds_between(first, last);
                let interval: i128 = dump_interval as i128;
                span > interval
            },
            _ => false,
        }
    }

    /// Takes storage's answer to a batch: evicts as many of the oldest rows
    /// as storage confirms, and keeps every row where it confirms none or
    /// reports an error.
    pub fn acknowledge<E>(&mut self, outcome: Result<usize, E>) -> (report: Flush<E>)
        requires
            old(self).wf(),
        ensures
            final(self).wf(),
            final(self).data.spec_capacity() == old(self).data.spec_capacity(),
            old(self).is_ordered() ==> final(self).is_ordered(),
            final(self).data@ == after_acknowledge(old(self).data@, outcome),
            report == flush_report(outcome),
    {
        proof {
            lemma_acknowledge(self.data@, outcome);
        }
        match outcome {
            Ok(n) => {
                if n > 0 {
                    self.data.drop_first(n);
                    Flush::Saved(n)
                } else {
                    assert(self.data@.skip(0) =~= self.data@);
                    Flush::NothingSaved
                }
            },
            Err(e) => Flush::Failed(e),
        }
    }

    /// Hands up to `batch_limit` of the oldest rows to `persist` where the
    /// window spans more than `dump_interval` seconds, and evicts the rows
    /// that `persist` confirms.
    pub fn flush<E, F>(&mut self, persist: F, dump_interval: i64, batch_limit: usize) -> (report:
        Flush<E>) where F: FnOnce(RingBufferViewIter<'_, Data202303<Q>>) -> Result<usize, E>
        requires
            old(self).wf(),
            flush_due(old(self).data@, dump_interval) ==> persist.requires(
                (cursor(&old(self).data, Some(batch_limit)),),
            ),
        ensures
            final(self).wf(),
            final(self).data.spec_capacity() == old(self).data.spec_capacity(),
            old(self).is_ordered() ==> final(self).is_ordered(),
            flushed(old(self).data, persist, dump_interval, batch_limit, final(self).data@, report),
    {
        if !self.is_flush_due(dump_interval) {
            return Flush::NotDue;
        }
        let outcome = persist(freeze(&self.data).iter_limited(batch_limit));
        self.acknowledge(outcome)
    }
}

/// Stores an automated reading and then flushes: the reading is offered to
/// the window, a window that gave up a row for it is thinned to every
/// second row, and where the window then spans more than `dump_interval`
/// seconds, up to a hundred of its oldest rows are handed to `persist` and
/// those that it confirms are evicted.
pub fn save_data<Q: Copy, E, F>(
    state: &mut AppState<Q>,
    p1: Option<CompleteP1Measurement<Q>>,
    pv_2022: Option<Q>,
    persist: F,
    dump_interval: i64,
) -> (report: Flush<E>) where F: FnOnce(RingBufferViewIter<'_, Data202303<Q>>) -> Result<usize, E>
    requires
        old(state).wf(),
        forall|it: RingBufferViewIter<'_, Data202303<Q>>| it.wf() ==> persist.requires((it,)),
    ensures
        final(state).wf(),
        final(state).data.spec_capacity() == old(state).data.spec_capacity(),
        old(state).is_ordered() ==> final(state).is_ordered(),
        exists|window: RingBuffer<Data202303<Q>>|
            {
                &&& window.wf()
                &&& ingested(
                    old(state).data@,
                    old(state).data.spec_capacity(),
                    p1,
                    pv_2022,
                    window@,
                )
                &&& #[trigger] flushed(
                    window,
                    persist,
                    dump_interval,
                    BATCH_LIMIT,
                    final(state).data@,
                    report,
                )
            },
{
    let ghost before = state.data@;
    let ghost cap = state.data.spec_capacity();
    let displaced = state.set_data(p1, pv_2022);
    let ghost stored = state.data@;
    if let Some(_) = displaced {
        state.halve_data();
    }
    let ghost window = state.data;
    proof {
        if p1 is None && !(stored == before && displaced is None) {
            let now = choose|now: i64|
                stored == #[trigger] after_reading(before, cap, p1, pv_2022, now) && displaced
                    == displaced_by_reading(before, cap, p1, pv_2022, now);
            assert(window@ == after_ingest(before, cap, p1, pv_2022, now));
        }
        assert(ingested(before, cap, p1, pv_2022, window@));
        lemma_cursor_view(&window, Some(BATCH_LIMIT));
    }
    let report = state.flush(persist, dump_interval, BATCH_LIMIT);
    assert(flushed(window, persist, dump_interval, BATCH_LIMIT, state.data@, report));
    report
}

/// How long the driver rests after a cycle whose work took `elapsed`, so
/// that cycles begin one `period` apart: the rest of the period, or `None`
/// where the work took the whole period or longer and the next cycle begins
/// at once.
pub fn pause_after(period: u128, elapsed: u128) -> (pause: Option<u128>)
    ensures
        pause == (if elapsed < period {
            Some((period - elapsed) as u128)
        } else {
            None
        }),
{
    if elapsed < period {
        Some(period - elapsed)
    } else {
        None
    }
}

/// An automated reading is stored if and only if it carries a value and the
/// window is empty or its newest row is at least a minute older: a reading
/// 59 seconds after the newest row is dropped, one 60 seconds after it is
/// stored.
pub proof fn lemma_debounce<Q>(
    rows: Seq<Data202303<Q>>,
    cap: nat,
    p1: Option<CompleteP1Measurement<Q>>,
    pv_2022: Option<Q>,
    now: i64,
)
    requires
        rows.len() > 0,
        p1 is Some || pv_2022 is Some,
    ensures
        reading_time(p1, now) - rows.last().timestamp < 60 ==> after_reading(
            rows,
            cap,
            p1,
            pv_2022,
            now,
        ) == rows,
        reading_time(p1, now) - rows.last().timestamp >= 60 ==> after_reading(
            rows,
            cap,
            p1,
            pv_2022,
            now,
        ) == after_push(rows, cap, automated_record(p1, pv_2022, reading_time(p1, now))),
{
}

/// Storing an automated reading, and thinning the window where it was full,
/// keeps a window that is ordered by time ordered.
pub proof fn lemma_ingest_keeps_order<Q>(
    rows: Seq<Data202303<Q>>,
    cap: nat,
    p1: Option<CompleteP1Measurement<Q>>,
    pv_2022: Option<Q>,
    now: i64,
)
    requires
        ordered(timestamps(rows)),
    ensures
        ordered(timestamps(after_reading(rows, cap, p1, pv_2022, now))),
        ordered(timestamps(after_ingest(rows, cap, p1, pv_2022, now))),
{
    let stored = after_reading(rows, cap, p1, pv_2022, now);
    if accepted(rows, p1, pv_2022, now) {
        let row = automated_record(p1, pv_2022, reading_time(p1, now));
        let longer = rows.push(row);
        assert forall|i: int, j: int| 0 <= i <= j < longer.len() implies timestamps(longer)[i]
            <= timestamps(longer)[j] by {
            if j == rows.len() && i < rows.len() {
                assert(timestamps(rows)[i] <= timestamps(rows)[rows.len() - 1]);
            }
            if j < rows.len() {
                assert(timestamps(rows)[i] <= timestamps(rows)[j]);
            }
        }
        if rows.len() >= cap {
            assert forall|i: int, j: int| 0 <= i <= j < stored.len() implies timestamps(
                stored,
            )[i] <= timestamps(stored)[j] by {
                assert(timestamps(longer)[i + 1] <= timestamps(longer)[j + 1]);
            }
        }
    }
    lemma_halved_keeps_order(stored);
}

/// Thinning keeps a window that is ordered by time ordered.
pub proof fn lemma_halved_keeps_order<Q>(rows: Seq<Data202303<Q>>)
    requires
        ordered(timestamps(rows)),
    ensures
        ordered(timestamps(halved(rows))),
{
    let thin = halved(rows);
    assert forall|i: int, j: int| 0 <= i <= j < thin.len() implies timestamps(thin)[i]
        <= timestamps(thin)[j] by {
        assert(timestamps(rows)[2 * i + 1] <= timestamps(rows)[2 * j + 1]);
    }
}

/// Where storage confirms `k` rows of a window that holds at least as many,
/// exactly the `k` oldest rows leave and the others stay in their order;
/// where it confirms none or fails, every row stays.
pub proof fn lemma_acknowledge<Q, E>(rows: Seq<Data202303<Q>>, outcome: Result<usize, E>)
    ensures
        outcome matches Ok(k) ==> k <= rows.len() ==> {
            &&& after_acknowledge(rows, outcome).len() == rows.len() - k
            &&& forall|j: int|
                0 <= j < rows.len() - k ==> after_acknowledge(rows, outcome)[j] == rows[j + k]
        },
        outcome matches Ok(k) ==> k == 0 ==> after_acknowledge(rows, outcome) == rows,
        outcome is Err ==> after_acknowledge(rows, outcome) == rows,
        ordered(timestamps(rows)) ==> ordered(timestamps(after_acknowledge(rows, outcome))),
{
    let kept = after_acknowledge(rows, outcome);
    if let Ok(k) = outcome {
        if k == 0 {
            assert(rows.skip(0) =~= rows);
        }
        if ordered(timestamps(rows)) && k < rows.len() {
            assert forall|i: int, j: int| 0 <= i <= j < kept.len() implies timestamps(kept)[i]
                <= timestamps(kept)[j] by {
                assert(timestamps(rows)[i + k] <= timestamps(rows)[j + k]);
            }
        }
    }
}

} // verus!
