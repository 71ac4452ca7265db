//! The measurement record that the buffer holds.

use vstd::prelude::*;

verus! {

/// One row of meter readings, keyed by its timestamp in seconds since the
/// Unix epoch. Every quantity is optional: a reading that was not available
/// in a cycle is absent. `Q` is the type in which quantities are measured;
/// the library moves such values and never computes with them.
#[derive(Debug, PartialEq)]
#[allow(non_snake_case)]
pub struct Data202303<Q> {
    pub timestamp: i64,
    pub pv2012_kWh: Option<Q>,
    pub pv2022_kWh: Option<Q>,
    pub peak_conso_kWh: Option<Q>,
    pub off_conso_kWh: Option<Q>,
    pub peak_inj_kWh: Option<Q>,
    pub off_inj_kWh: Option<Q>,
    pub gas_m3: Option<Q>,
    pub water_m3: Option<Q>,
}

/// Copies a record field by field.
pub fn clone_data202303<Q: Copy>(x: &Data202303<Q>) -> (copy: Data202303<Q>)
    ensures
        copy == *x,
{
    Data202303 {
        timestamp: x.timestamp,
        pv2012_kWh: x.pv2012_kWh,
        pv2022_kWh: x.pv2022_kWh,
        peak_conso_kWh: x.peak_conso_kWh,
        off_conso_kWh: x.off_conso_kWh,
        peak_inj_kWh: x.peak_inj_kWh,
        off_inj_kWh: x.off_inj_kWh,
        gas_m3: x.gas_m3,
        water_m3: x.water_m3,
    }
}

/// The timestamps of `rows`, in the same order.
pub open spec fn timestamps<Q>(rows: Seq<Data202303<Q>>) -> Seq<int> {
    Seq::new(rows.len(), |i: int| rows[i].timestamp as int)
}

/// The timestamps `ts` do not decrease.
pub open spec fn ordered(ts: Seq<int>) -> bool {
    forall|i: int, j: int| 0 <= i <= j < ts.len() ==> ts[i] <= ts[j]
}

} // verus!
