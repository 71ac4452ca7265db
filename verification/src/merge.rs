//! Merging of manual inputs into the window: a binary search with a
//! tolerance locates the row that an input belongs to, or the place at which
//! a new row keeps the window ordered by time.

use crate::data::{clone_data202303, ordered, timestamps, Data202303};
use crate::ringbuffer::{after_insert, freeze};
use crate::store::{seconds_between, AppState};
use vstd::prelude::*;

verus! {

/// The greatest distance in seconds at which a manual input is merged into
/// an existing row.
pub const TOLERANCE_SECONDS: i64 = 60;

/// The distance between two points in time, in seconds.
pub open spec fn distance(a: int, b: int) -> int {
    if a >= b {
        a - b
    } else {
        b - a
    }
}

/// Whether the row at index `mid` is a better match for `target` than the
/// best match so far: it lies within the tolerance, and it is nearer than
/// the best or as near and earlier.
pub open spec fn improves(ts: Seq<int>, target: int, best: Option<int>, mid: int) -> bool {
    distance(ts[mid], target) <= TOLERANCE_SECONDS && match best {
        None => true,
        Some(b) => distance(ts[b], target) > distance(ts[mid], target) || (distance(
            ts[b],
            target,
        ) == distance(ts[mid], target) && ts[b] > ts[mid]),
    }
}

/// The binary search for `target` among the timestamps `ts`, from the
/// bounds `left` and `right`, the previous midpoint `old_mid` and the best
/// match `best` found so far. Each step probes the midpoint, keeps it where
/// it improves on the best match, and moves `left` up to it where its
/// timestamp is below `target`, else `right` down to it. The search ends
/// when the bounds meet or the midpoint stays where it was. The result is
/// the final left bound and the best match among the probed rows.
pub open spec fn search(
    ts: Seq<int>,
    target: int,
    left: int,
    right: int,
    old_mid: int,
    best: Option<int>,
) -> (int, Option<int>)
    decreases
        2 * (right - left) + (if (left + right) / 2 != old_mid {
            1int
        } else {
            0int
        }),
{
    let mid = (left + right) / 2;
    let best = if improves(ts, target, best, mid) {
        Some(mid)
    } else {
        best
    };
    let left2 = if ts[mid] < target {
        mid
    } else {
        left
    };
    let right2 = if ts[mid] < target {
        right
    } else {
        mid
    };
    if left2 < right2 && mid != old_mid {
        search(ts, target, left2, right2, mid, best)
    } else {
        (left2, best)
    }
}

/// Where a manual input for time `target` goes among rows with the
/// timestamps `ts`: the index of the row to merge it into and `true`, or
/// the index at which to insert a new row and `false`.
pub open spec fn locate(ts: Seq<int>, target: int) -> (int, bool) {
    if ts.len() == 0 {
        (0, false)
    } else {
        let found = search(ts, target, 0, ts.len() as int, ts.len() as int, None);
        match found.1 {
            Some(b) => (b, true),
            None => (
                if ts[found.0] < target {
                    found.0 + 1
                } else {
                    found.0
                },
                false,
            ),
        }
    }
}

/// The row at index `a` matches `target` at least as well as the row at
/// index `b`: it is nearer, or as near and not later.
pub open spec fn matches_no_worse(ts: Seq<int>, target: int, a: int, b: int) -> bool {
    distance(ts[a], target) < distance(ts[b], target) || (distance(ts[a], target) == distance(
        ts[b],
        target,
    ) && ts[a] <= ts[b])
}

/// The row at index `idx` is a nearest match for `target`: it lies within
/// the tolerance, no row is nearer, and no row that is as near is earlier.
pub open spec fn is_nearest(ts: Seq<int>, target: int, idx: int) -> bool {
    &&& 0 <= idx < ts.len()
    &&& distance(ts[idx], target) <= TOLERANCE_SECONDS
    &&& forall|j: int| 0 <= j < ts.len() ==> matches_no_worse(ts, target, idx, j)
}

/// No row lies within the tolerance of `target`, and `idx` is where a row
/// for `target` belongs: after every row that is earlier than `target` and
/// before every other row.
pub open spec fn is_gap(ts: Seq<int>, target: int, idx: int) -> bool {
    &&& 0 <= idx <= ts.len()
    &&& forall|j: int| 0 <= j < ts.len() ==> distance(ts[j], target) > TOLERANCE_SECONDS
    &&& forall|j: int| 0 <= j < ts.len() ==> (j < idx <==> ts[j] < target)
}

/// The quantity of a row after a merge: the one that the input supplies,
/// or the one that the row held where the input supplies none.
pub open spec fn supplied_or<Q>(supplied: Option<Q>, held: Option<Q>) -> Option<Q> {
    match supplied {
        Some(quantity) => Some(quantity),
        None => held,
    }
}

/// The row `existing` with the manual quantities that the input supplies
/// written over its own. The timestamp, the automated quantities and the
/// manual quantities that the input leaves out stay.
pub open spec fn merged_record<Q>(
    existing: Data202303<Q>,
    pv2012: Option<Q>,
    gas: Option<Q>,
    water: Option<Q>,
) -> Data202303<Q> {
    Data202303 {
        timestamp: existing.timestamp,
        pv2012_kWh: supplied_or(pv2012, existing.pv2012_kWh),
        pv2022_kWh: existing.pv2022_kWh,
        peak_conso_kWh: existing.peak_conso_kWh,
        off_conso_kWh: existing.off_conso_kWh,
        peak_inj_kWh: existing.peak_inj_kWh,
        off_inj_kWh: existing.off_inj_kWh,
        gas_m3: supplied_or(gas, existing.gas_m3),
        water_m3: supplied_or(water, existing.water_m3),
    }
}

/// A new row that holds the manual quantities and nothing else.
pub open spec fn manual_record<Q>(
    timestamp: i64,
    pv2012: Option<Q>,
    gas: Option<Q>,
    water: Option<Q>,
) -> Data202303<Q> {
    Data202303 {
        timestamp,
        pv2012_kWh: pv2012,
        pv2022_kWh: None,
        peak_conso_kWh: None,
        off_conso_kWh: None,
        peak_inj_kWh: None,
        off_inj_kWh: None,
        gas_m3: gas,
        water_m3: water,
    }
}

/// The rows after a manual input for `timestamp` was saved in a window of
/// capacity `cap` that holds `rows`.
pub open spec fn after_manual<Q>(
    rows: Seq<Data202303<Q>>,
    cap: nat,
    timestamp: i64,
    pv2012: Option<Q>,
    gas: Option<Q>,
    water: Option<Q>,
) -> Seq<Data202303<Q>> {
    let place = locate(timestamps(rows), timestamp as int);
    if place.1 {
        rows.update(place.0, merged_record(rows[place.0], pv2012, gas, water))
    } else {
        after_insert(rows, cap, place.0, manual_record(timestamp, pv2012, gas, water))
    }
}

/// The index of the best match that a search holds.
pub open spec fn best_index<Q>(best: Option<(usize, Data202303<Q>)>) -> Option<int> {
    match best {
        Some(b) => Some(b.0 as int),
        None => None,
    }
}

/// The distance in seconds between two timestamps.
pub fn seconds_apart(a: i64, b: i64) -> (d: i128)
    ensures
        d == distance(a as int, b as int),
{
    let elapsed = seconds_between(a, b);
    if elapsed < 0 {
        -elapsed
    } else {
        elapsed
    }
}

/// The quantity that a merge stores: the supplied one, or the held one
/// where none is supplied.
pub fn supplied_or_held<Q>(supplied: Option<Q>, held: Option<Q>) -> (stored: Option<Q>)
    ensures
        stored == supplied_or(supplied, held),
{
    match supplied {
        Some(quantity) => Some(quantity),
        None => held,
    }
}

/// Whether a manual input holds no quantity at all, so that there is
/// nothing to save.
pub fn is_empty_input<Q>(pv2012: &Option<Q>, gas: &Option<Q>, water: &Option<Q>) -> (empty: bool)
    ensures
        empty == (*pv2012 is None && *gas is None && *water is None),
{
    pv2012.is_none() && gas.is_none() && water.is_none()
}

/// Saves a manual input for `timestamp`. The input is merged into the
/// nearest row that the search probes within the tolerance: the quantities
/// that it supplies are written over those of the row, and every other
/// quantity of the row stays. Where the search finds no such row, a new row
/// with the supplied quantities is inserted at its place in the order of
/// timestamps. Returns the index that was written and whether the input was
/// merged.
pub fn save_manual_inputs<Q: Copy>(
    state: &mut AppState<Q>,
    timestamp: i64,
    #[allow(non_snake_case)]
    pv2012_kWh: Option<Q>,
    gas_m3: Option<Q>,
    water_m3: Option<Q>,
) -> (place: (usize, bool))
    requires
        old(state).wf(),
    ensures
        final(state).wf(),
        final(state).data.spec_capacity() == old(state).data.spec_capacity(),
        old(state).is_ordered() ==> final(state).is_ordered(),
        (place.0 as int, place.1) == locate(timestamps(old(state).data@), timestamp as int),
        old(state).is_ordered() && place.1 ==> is_nearest(
            timestamps(old(state).data@),
            timestamp as int,
            place.0 as int,
        ),
        old(state).is_ordered() && !place.1 ==> is_gap(
            timestamps(old(state).data@),
            timestamp as int,
            place.0 as int,
        ),
        final(state).data@ == after_manual(
            old(state).data@,
            old(state).data.spec_capacity(),
            timestamp,
            pv2012_kWh,
            gas_m3,
            water_m3,
        ),
{
    let len = state.data.len();
    let ghost rows = state.data@;
    let ghost ts = timestamps(rows);
    proof {
        if state.is_ordered() {
            lemma_locate_nearest(ts, timestamp as int);
            lemma_manual_keeps_order(
                rows,
                state.data.spec_capacity(),
                timestamp,
                pv2012_kWh,
                gas_m3,
                water_m3,
            );
        }
    }
    let ghost target = timestamp as int;
    let located: Result<(usize, Data202303<Q>), usize> = if len == 0 {
        Err(0)
    } else {
        let vw = freeze(&state.data);
        let mut left: usize = 0;
        let mut right: usize = vw.len();
        let mut best: Option<(usize, Data202303<Q>)> = None;
        let mut old_mid: usize = right;
        let ghost goal = search(ts, target, 0, len as int, len as int, None);
        loop
            invariant_except_break
                left < right <= len,
                search(ts, target, left as int, right as int, old_mid as int, best_index(best))
                    == goal,
            invariant
                vw.wf(),
                vw@ == rows,
                ts == timestamps(rows),
                target == timestamp as int,
                len == rows.len(),
                best matches Some(b) ==> b.0 < len && b.1 == rows[b.0 as int],
            ensures
                left < len,
                (left as int, best_index(best)) == goal,
            decreases
                2 * (right - left) + (if (left + right) / 2 != old_mid {
                    1int
                } else {
                    0int
                }),
        {
            let mid = left + (right - left) / 2;
            assert(mid == (left + right) / 2);
            let elt = vw.at(mid).unwrap();
            assert(elt.timestamp as int == ts[mid as int]);
            let elt_diff = seconds_apart(elt.timestamp, timestamp);
            let tolerance: i128 = TOLERANCE_SECONDS as i128;
            if elt_diff <= tolerance {
                let better = match &best {
                    None => true,
                    Some(b) => {
                        let best_diff = seconds_apart(b.1.timestamp, timestamp);
                        best_diff > elt_diff || (best_diff == elt_diff && b.1.timestamp
                            > elt.timestamp)
                    },
                };
                if better {
                    best = Some((mid, clone_data202303(elt)));
                }
            }
            if elt.timestamp < timestamp {
                left = mid;
            } else {
                right = mid;
            }
            if !(left < right && mid != old_mid) {
                break ;
            }
            old_mid = mid;
        }
        match best {
            Some(b) => Ok(b),
            None => {
                let at_left = vw.at(left).unwrap();
                assert(at_left.timestamp as int == ts[left as int]);
                if at_left.timestamp < timestamp {
                    Err(left + 1)
                } else {
                    Err(left)
                }
            },
        }
    };
    match located {
        Ok((idx, existing_data)) => {
            state.data.replace(
                idx,
                Data202303 {
                    timestamp: existing_data.timestamp,
                    pv2012_kWh: supplied_or_held(pv2012_kWh, existing_data.pv2012_kWh),
                    pv2022_kWh: existing_data.pv2022_kWh,
                    peak_conso_kWh: existing_data.peak_conso_kWh,
                    off_conso_kWh: existing_data.off_conso_kWh,
                    peak_inj_kWh: existing_data.peak_inj_kWh,
                    off_inj_kWh: existing_data.off_inj_kWh,
                    gas_m3: supplied_or_held(gas_m3, existing_data.gas_m3),
                    water_m3: supplied_or_held(water_m3, existing_data.water_m3),
                },
            );
            (idx, true)
        },
        Err(idx) => {
            state.data.insert_at(
                idx,
                Data202303 {
                    timestamp,
                    pv2012_kWh,
                    pv2022_kWh: None,
                    peak_conso_kWh: None,
                    off_conso_kWh: None,
                    peak_inj_kWh: None,
                    off_inj_kWh: None,
                    gas_m3,
                    water_m3,
                },
            );
            (idx, false)
        },
    }
}

/// The best match `best` accounts for the row at index `j`: where that row
/// lies within the tolerance, there is a best match and it is no worse.
pub open spec fn covers(ts: Seq<int>, target: int, best: Option<int>, j: int) -> bool {
    distance(ts[j], target) <= TOLERANCE_SECONDS ==> (best matches Some(b) && matches_no_worse(
        ts,
        target,
        b,
        j,
    ))
}

/// The search stays inside the rows: its left bound and its best match are
/// indices of rows.
proof fn lemma_search_in_range(
    ts: Seq<int>,
    target: int,
    left: int,
    right: int,
    old_mid: int,
    best: Option<int>,
)
    requires
        0 <= left < right <= ts.len(),
        best matches Some(b) ==> 0 <= b < ts.len(),
    ensures
        ({
            let found = search(ts, target, left, right, old_mid, best);
            &&& 0 <= found.0 < ts.len()
            &&& found.1 matches Some(b) ==> 0 <= b < ts.len()
        }),
    decreases
        2 * (right - left) + (if (left + right) / 2 != old_mid {
            1int
        } else {
            0int
        }),
{
    let mid = (left + right) / 2;
    let better = if improves(ts, target, best, mid) {
        Some(mid)
    } else {
        best
    };
    if ts[mid] < target {
        if mid != old_mid {
            lemma_search_in_range(ts, target, mid, right, mid, better);
        }
    } else {
        if left < mid && mid != old_mid {
            lemma_search_in_range(ts, target, left, mid, mid, better);
        }
    }
}

/// The place that is located for a manual input lies inside the window: a
/// merge names a row, an insertion an index up to the number of rows.
pub proof fn lemma_locate_in_range(ts: Seq<int>, target: int)
    ensures
        locate(ts, target).1 ==> 0 <= locate(ts, target).0 < ts.len(),
        !locate(ts, target).1 ==> 0 <= locate(ts, target).0 <= ts.len(),
{
    if ts.len() > 0 {
        lemma_search_in_range(ts, target, 0, ts.len() as int, ts.len() as int, None);
    }
}

/// On ordered timestamps the search probes all that matters: its best match
/// accounts for every row, and its left bound marks where `target` belongs.
proof fn lemma_search_ordered(
    ts: Seq<int>,
    target: int,
    left: int,
    right: int,
    old_mid: int,
    best: Option<int>,
)
    requires
        ordered(ts),
        0 <= left < right <= ts.len(),
        old_mid == left || old_mid == right,
        left == 0 || (ts[left] < target && covers(ts, target, best, left)),
        right == ts.len() || (ts[right] >= target && covers(ts, target, best, right)),
        best matches Some(b) ==> 0 <= b < ts.len() && distance(ts[b], target) <= TOLERANCE_SECONDS,
    ensures
        ({
            let found = search(ts, target, left, right, old_mid, best);
            &&& 0 <= found.0 < ts.len()
            &&& found.1 matches Some(b) ==> 0 <= b < ts.len() && distance(ts[b], target)
                <= TOLERANCE_SECONDS
            &&& forall|j: int| 0 <= j < ts.len() ==> covers(ts, target, found.1, j)
            &&& ts[found.0] < target ==> forall|j: int|
                0 <= j < ts.len() ==> (j <= found.0 <==> ts[j] < target)
            &&& ts[found.0] >= target ==> found.0 == 0 && forall|j: int|
                0 <= j < ts.len() ==> ts[j] >= target
        }),
    decreases
        2 * (right - left) + (if (left + right) / 2 != old_mid {
            1int
        } else {
            0int
        }),
{
    let mid = (left + right) / 2;
    let better = if improves(ts, target, best, mid) {
        Some(mid)
    } else {
        best
    };
    assert(covers(ts, target, better, mid));
    assert(left == 0 || covers(ts, target, better, left));
    assert(right == ts.len() || covers(ts, target, better, right));
    if ts[mid] < target {
        if mid != old_mid {
            lemma_search_ordered(ts, target, mid, right, mid, better);
        } else {
            assert(right == mid + 1);
            assert forall|j: int| 0 <= j < ts.len() implies covers(ts, target, better, j) by {
                if j <= mid {
                    assert(ts[j] <= ts[mid]);
                } else {
                    assert(ts[right] <= ts[j]);
                }
            }
            assert forall|j: int| 0 <= j < ts.len() implies (j <= mid <==> ts[j] < target) by {
                if j <= mid {
                    assert(ts[j] <= ts[mid]);
                } else {
                    assert(ts[right] <= ts[j]);
                }
            }
        }
    } else {
        if left < mid && mid != old_mid {
            lemma_search_ordered(ts, target, left, mid, mid, better);
        } else {
            assert(mid == left);
            assert(left == 0);
            assert forall|j: int| 0 <= j < ts.len() implies covers(ts, target, better, j)
                && ts[j] >= target by {
                assert(ts[0] <= ts[j]);
            }
        }
    }
}

/// On ordered timestamps a manual input is merged into a row that no other
/// row beats: it lies within the tolerance, no row is nearer to `target`,
/// and no row that is as near is earlier. Where no row lies within the
/// tolerance the input is inserted, after every row that is earlier than
/// `target` and before every other row.
pub proof fn lemma_locate_nearest(ts: Seq<int>, target: int)
    requires
        ordered(ts),
    ensures
        locate(ts, target).1 ==> is_nearest(ts, target, locate(ts, target).0),
        !locate(ts, target).1 ==> is_gap(ts, target, locate(ts, target).0),
{
    if ts.len() > 0 {
        let n = ts.len() as int;
        lemma_search_ordered(ts, target, 0, n, n, None);
        let found = search(ts, target, 0, n, n, None);
        let place = locate(ts, target);
        if place.1 {
            assert forall|j: int| 0 <= j < ts.len() implies matches_no_worse(
                ts,
                target,
                place.0,
                j,
            ) by {
                assert(covers(ts, target, found.1, place.0));
                assert(covers(ts, target, found.1, j));
            }
        } else {
            assert forall|j: int| 0 <= j < ts.len() implies distance(ts[j], target)
                > TOLERANCE_SECONDS by {
                assert(covers(ts, target, found.1, j));
            }
        }
    }
}

/// A merge changes one row, and of that row only the manual quantities
/// that the input supplies: its timestamp, its automated quantities and the
/// manual quantities that the input leaves out stay as they were, and every
/// other row stays as it was.
pub proof fn lemma_merge_preserves<Q>(
    rows: Seq<Data202303<Q>>,
    cap: nat,
    timestamp: i64,
    pv2012: Option<Q>,
    gas: Option<Q>,
    water: Option<Q>,
)
    requires
        locate(timestamps(rows), timestamp as int).1,
    ensures
        ({
            let idx = locate(timestamps(rows), timestamp as int).0;
            let after = after_manual(rows, cap, timestamp, pv2012, gas, water);
            &&& 0 <= idx < rows.len()
            &&& after.len() == rows.len()
            &&& forall|j: int| 0 <= j < rows.len() && j != idx ==> after[j] == rows[j]
            &&& after[idx].timestamp == rows[idx].timestamp
            &&& after[idx].pv2022_kWh == rows[idx].pv2022_kWh
            &&& after[idx].peak_conso_kWh == rows[idx].peak_conso_kWh
            &&& after[idx].off_conso_kWh == rows[idx].off_conso_kWh
            &&& after[idx].peak_inj_kWh == rows[idx].peak_inj_kWh
            &&& after[idx].off_inj_kWh == rows[idx].off_inj_kWh
            &&& pv2012 is Some ==> after[idx].pv2012_kWh == pv2012
            &&& pv2012 is None ==> after[idx].pv2012_kWh == rows[idx].pv2012_kWh
            &&& gas is Some ==> after[idx].gas_m3 == gas
            &&& gas is None ==> after[idx].gas_m3 == rows[idx].gas_m3
            &&& water is Some ==> after[idx].water_m3 == water
            &&& water is None ==> after[idx].water_m3 == rows[idx].water_m3
        }),
{
    lemma_locate_in_range(timestamps(rows), timestamp as int);
}

/// Saving a manual input keeps a window that is ordered by time ordered.
pub proof fn lemma_manual_keeps_order<Q>(
    rows: Seq<Data202303<Q>>,
    cap: nat,
    timestamp: i64,
    pv2012: Option<Q>,
    gas: Option<Q>,
    water: Option<Q>,
)
    requires
        ordered(timestamps(rows)),
        rows.len() <= cap,
    ensures
        ordered(timestamps(after_manual(rows, cap, timestamp, pv2012, gas, water))),
{
    let ts = timestamps(rows);
    let place = locate(ts, timestamp as int);
    let after = after_manual(rows, cap, timestamp, pv2012, gas, water);
    lemma_locate_nearest(ts, timestamp as int);
    if place.1 {
        assert(timestamps(after) =~= ts);
    } else {
        let row = manual_record(timestamp, pv2012, gas, water);
        let longer = rows.insert(place.0, row);
        assert forall|i: int, j: int| 0 <= i <= j < longer.len() implies timestamps(longer)[i]
            <= timestamps(longer)[j] by {
            if i < place.0 {
                assert(ts[i] < timestamp);
            }
            if i > place.0 {
                assert(ts[i - 1] >= timestamp);
            }
            if j < place.0 {
                assert(ts[j] < timestamp);
            }
            if j > place.0 {
                assert(ts[j - 1] >= timestamp);
            }
        }
        if rows.len() >= cap {
            assert forall|i: int, j: int| 0 <= i <= j < after.len() implies timestamps(after)[i]
                <= timestamps(after)[j] by {
                assert(timestamps(longer)[i + 1] <= timestamps(longer)[j + 1]);
            }
        }
    }
}

} // verus!
