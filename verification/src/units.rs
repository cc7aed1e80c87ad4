//! Unit-tagged energy amounts.
//!
//! The energy counter reports whole micro-watt-hours, so amounts are held
//! exactly as integer counts of micro-watt-hours. The canonical reporting
//! unit is the milli-watt-hour; an `mWh` keeps the same micro-watt-hour
//! resolution, which makes the source-to-canonical conversion lossless.
//! Arithmetic is only offered between amounts of one unit; a cross-unit
//! value must be converted explicitly.

use vstd::prelude::*;

verus! {

/// An energy amount in micro-watt-hours: the unit the counter reports in.
#[allow(non_camel_case_types)]
#[derive(Debug, Clone, Copy, PartialEq, Eq, Structural)]
pub struct uWh {
    /// The amount, as a whole count of micro-watt-hours.
    pub micros: i64,
}

/// An energy amount in milli-watt-hours: the canonical reporting unit.
///
/// The amount is held in thousandths of a milli-watt-hour, so the value in
/// milli-watt-hours is `micros / 1000` with the remainder kept, not dropped.
#[allow(non_camel_case_types)]
#[derive(Debug, Clone, Copy, PartialEq, Eq, Structural)]
pub struct mWh {
    /// The amount, in thousandths of a milli-watt-hour.
    pub micros: i64,
}

impl uWh {
    /// Tags a raw counter reading with the unit the counter reports in.
    pub fn from_raw(raw: u32) -> (r: uWh)
        ensures
            r.micros == raw as int,
    {
        uWh { micros: raw as i64 }
    }
}

/// Integer division rounded toward zero, as the machine divides.
pub open spec fn div_toward_zero(a: int, b: int) -> int
    recommends
        b > 0,
{
    if a >= 0 {
        a / b
    } else {
        -((-a) / b)
    }
}

/// What converting a source-unit amount to the canonical unit yields: the
/// same count of micro-watt-hours, read as thousandths of a milli-watt-hour
/// (the fixed 1/1000 scale between the units).
pub open spec fn canonical_of(value: uWh) -> mWh {
    mWh { micros: value.micros }
}

impl From<uWh> for mWh {
    /// The explicit source-to-canonical conversion.
    fn from(value: uWh) -> (r: mWh) {
        mWh { micros: value.micros }
    }
}

impl vstd::std_specs::convert::FromSpecImpl<uWh> for mWh {
    open spec fn obeys_from_spec() -> bool {
        true
    }

    open spec fn from_spec(value: uWh) -> mWh {
        canonical_of(value)
    }
}

impl mWh {
    /// The sum of two amounts of this unit.
    pub fn plus(self, other: mWh) -> (r: mWh)
        requires
            i64::MIN <= self.micros + other.micros <= i64::MAX,
        ensures
            r.micros == self.micros + other.micros,
    {
        mWh { micros: self.micros + other.micros }
    }

    /// The difference of two amounts of this unit.
    pub fn minus(self, other: mWh) -> (r: mWh)
        requires
            i64::MIN <= self.micros - other.micros <= i64::MAX,
        ensures
            r.micros == self.micros - other.micros,
    {
        mWh { micros: self.micros - other.micros }
    }

    /// The amount scaled by an integer factor.
    pub fn scaled_by(self, k: i64) -> (r: mWh)
        requires
            i64::MIN <= self.micros * k <= i64::MAX,
        ensures
            r.micros == self.micros * k,
    {
        mWh { micros: self.micros * k }
    }

    /// The amount divided by a positive integer, rounded toward zero (the
    /// engine's only divisor, an elapsed span, is positive by construction).
    pub fn divided_by(self, k: i64) -> (r: mWh)
        requires
            k >= 1,
        ensures
            r.micros == div_toward_zero(self.micros as int, k as int),
    {
        mWh { micros: self.micros / k }
    }
}

/// Law: the unit conversion is linear and invertible, exactly. A counter
/// reading tagged as micro-watt-hours and converted to the canonical unit
/// still counts the same micro-watt-hours, so the reading is recovered with
/// no tolerance needed; and converting a sum gives the sum of conversions.
pub proof fn lemma_convert_roundtrip(raw: u32, a: uWh, b: uWh)
    ensures
        canonical_of(uWh { micros: raw as i64 }).micros == raw as int,
        canonical_of(uWh { micros: a.micros }).micros == a.micros,
        a.micros + b.micros <= i64::MAX && a.micros + b.micros >= i64::MIN ==> canonical_of(
            uWh { micros: (a.micros + b.micros) as i64 },
        ).micros == canonical_of(a).micros + canonical_of(b).micros,
{
}

} // verus!
