//! Air Quality Index derivation.
//!
//! Implements the EPA piecewise-linear index for PM2.5 and PM10 over the
//! 2024-revision breakpoint tables. Concentrations arrive as fixed-point
//! integers in hundredths of a microgram per cubic meter; they are truncated
//! per EPA convention (PM2.5 to one decimal, PM10 to a whole number) before
//! the table lookup, so the whole derivation is exact integer arithmetic.

use vstd::prelude::*;
use vstd::arithmetic::div_mod::{
    lemma_basic_div, lemma_div_decreases, lemma_div_is_ordered, lemma_div_multiples_vanish_fancy,
    lemma_div_pos_is_pos, lemma_fundamental_div_mod, lemma_fundamental_div_mod_converse,
};

verus! {

/// Health-impact band derived from the overall index.
#[derive(Debug, Clone, Copy, PartialEq, Eq, Structural)]
pub enum AqiCategory {
    Good,
    Moderate,
    UnhealthyForSensitiveGroups,
    Unhealthy,
    VeryUnhealthy,
    Hazardous,
}

/// Which pollutant produced the overall index.
#[derive(Debug, Clone, Copy, PartialEq, Eq, Structural)]
pub enum Pollutant {
    Pm25,
    Pm10,
}

/// Category for a given overall index value, by the fixed integer bands.
pub open spec fn spec_category(aqi: int) -> AqiCategory {
    if aqi <= 50 {
        AqiCategory::Good
    } else if aqi <= 100 {
        AqiCategory::Moderate
    } else if aqi <= 150 {
        AqiCategory::UnhealthyForSensitiveGroups
    } else if aqi <= 200 {
        AqiCategory::Unhealthy
    } else if aqi <= 300 {
        AqiCategory::VeryUnhealthy
    } else {
        AqiCategory::Hazardous
    }
}

impl AqiCategory {
    /// The category's display label.
    pub open spec fn spec_str(self) -> Seq<char> {
        match self {
            AqiCategory::Good => "Good"@,
            AqiCategory::Moderate => "Moderate"@,
            AqiCategory::UnhealthyForSensitiveGroups => "Unhealthy for Sensitive Groups"@,
            AqiCategory::Unhealthy => "Unhealthy"@,
            AqiCategory::VeryUnhealthy => "Very Unhealthy"@,
            AqiCategory::Hazardous => "Hazardous"@,
        }
    }

    pub fn as_str(&self) -> (r: &'static str)
        ensures
            r@ == self.spec_str(),
    {
        match self {
            AqiCategory::Good => "Good",
            AqiCategory::Moderate => "Moderate",
            AqiCategory::UnhealthyForSensitiveGroups => "Unhealthy for Sensitive Groups",
            AqiCategory::Unhealthy => "Unhealthy",
            AqiCategory::VeryUnhealthy => "Very Unhealthy",
            AqiCategory::Hazardous => "Hazardous",
        }
    }

    /// Category for an overall index value.
    pub fn from_aqi(aqi: u16) -> (r: AqiCategory)
        ensures
            r == spec_category(aqi as int),
    {
        if aqi <= 50 {
            AqiCategory::Good
        } else if aqi <= 100 {
            AqiCategory::Moderate
        } else if aqi <= 150 {
            AqiCategory::UnhealthyForSensitiveGroups
        } else if aqi <= 200 {
            AqiCategory::Unhealthy
        } else if aqi <= 300 {
            AqiCategory::VeryUnhealthy
        } else {
            AqiCategory::Hazardous
        }
    }
}

impl Pollutant {
    /// The pollutant's display label.
    pub open spec fn spec_str(self) -> Seq<char> {
        match self {
            Pollutant::Pm25 => "PM2.5"@,
            Pollutant::Pm10 => "PM10"@,
        }
    }

    pub fn as_str(&self) -> (r: &'static str)
        ensures
            r@ == self.spec_str(),
    {
        match self {
            Pollutant::Pm25 => "PM2.5",
            Pollutant::Pm10 => "PM10",
        }
    }
}

/// One row of a piecewise-linear AQI table. Concentration bounds are in the
/// table's fixed-point unit (tenths for PM2.5, whole for PM10), both ends
/// inclusive; the index endpoints map the concentration range linearly.
#[derive(Debug, Clone, Copy, PartialEq, Eq, Structural)]
pub struct Breakpoint {
    pub conc_lo: i64,
    pub conc_hi: i64,
    pub index_lo: u16,
    pub index_hi: u16,
}

/// PM2.5 breakpoints (24-hour average, tenths of a microgram per cubic
/// meter), per the 2024 EPA revision.
pub open spec fn spec_pm25_table() -> Seq<Breakpoint> {
    seq![
        Breakpoint { conc_lo: 0, conc_hi: 90, index_lo: 0, index_hi: 50 },
        Breakpoint { conc_lo: 91, conc_hi: 354, index_lo: 51, index_hi: 100 },
        Breakpoint { conc_lo: 355, conc_hi: 554, index_lo: 101, index_hi: 150 },
        Breakpoint { conc_lo: 555, conc_hi: 1254, index_lo: 151, index_hi: 200 },
        Breakpoint { conc_lo: 1255, conc_hi: 2254, index_lo: 201, index_hi: 300 },
        Breakpoint { conc_lo: 2255, conc_hi: 3254, index_lo: 301, index_hi: 500 },
        Breakpoint { conc_lo: 3255, conc_hi: 9999, index_lo: 501, index_hi: 999 },
    ]
}

/// PM10 breakpoints (24-hour average, whole micrograms per cubic meter).
pub open spec fn spec_pm10_table() -> Seq<Breakpoint> {
    seq![
        Breakpoint { conc_lo: 0, conc_hi: 54, index_lo: 0, index_hi: 50 },
        Breakpoint { conc_lo: 55, conc_hi: 154, index_lo: 51, index_hi: 100 },
        Breakpoint { conc_lo: 155, conc_hi: 254, index_lo: 101, index_hi: 150 },
        Breakpoint { conc_lo: 255, conc_hi: 354, index_lo: 151, index_hi: 200 },
        Breakpoint { conc_lo: 355, conc_hi: 424, index_lo: 201, index_hi: 300 },
        Breakpoint { conc_lo: 425, conc_hi: 604, index_lo: 301, index_hi: 500 },
        Breakpoint { conc_lo: 605, conc_hi: 999, index_lo: 501, index_hi: 999 },
    ]
}

/// A usable table: non-empty, each row a proper range with bounded values,
/// and rows strictly ordered without overlap.
pub open spec fn table_wf(t: Seq<Breakpoint>) -> bool {
    &&& t.len() > 0
    &&& forall|i: int|
        0 <= i < t.len() ==> {
            let bp = #[trigger] t[i];
            &&& 0 <= bp.conc_lo < bp.conc_hi <= 100_000
            &&& bp.index_lo <= bp.index_hi <= 999
        }
    &&& forall|i: int, j: int|
        0 <= i < j < t.len() ==> (#[trigger] t[i]).conc_hi < (#[trigger] t[j]).conc_lo
}

pub proof fn lemma_tables_wf()
    ensures
        table_wf(spec_pm25_table()),
        table_wf(spec_pm10_table()),
{
    assert(table_wf(spec_pm25_table()));
    assert(table_wf(spec_pm10_table()));
}

/// Nearest-integer division for a non-negative numerator and positive
/// denominator, rounding halves up.
pub open spec fn round_div(n: int, d: int) -> int
    recommends
        0 <= n,
        0 < d,
{
    (2 * n + d) / (2 * d)
}

/// The EPA linear interpolation for a concentration inside one row:
/// `round((indexHi - indexLo) / (concHi - concLo) * (c - concLo)) + indexLo`.
pub open spec fn spec_linear_index(bp: Breakpoint, c: int) -> int {
    bp.index_lo + round_div(
        (bp.index_hi - bp.index_lo) * (c - bp.conc_lo),
        bp.conc_hi - bp.conc_lo,
    )
}

/// Whether a concentration falls in a row's inclusive range.
pub open spec fn row_matches(bp: Breakpoint, c: int) -> bool {
    bp.conc_lo <= c <= bp.conc_hi
}

/// The first row of the table whose range contains `c`.
pub open spec fn first_match(t: Seq<Breakpoint>, c: int) -> Option<Breakpoint>
    decreases t.len(),
{
    if t.len() == 0 {
        None
    } else if row_matches(t[0], c) {
        Some(t[0])
    } else {
        first_match(t.drop_first(), c)
    }
}

/// The sub-index a table assigns to a concentration: linear interpolation in
/// the first matching row; saturation to 500 above the table's top; no index
/// below the table's floor.
pub open spec fn spec_table_index(t: Seq<Breakpoint>, c: int) -> Option<int> {
    match first_match(t, c) {
        Some(bp) => Some(spec_linear_index(bp, c)),
        None => if t.len() > 0 && c > t.last().conc_hi {
            Some(500)
        } else {
            None
        },
    }
}

proof fn lemma_first_match_skip(t: Seq<Breakpoint>, c: int, k: int)
    requires
        0 <= k <= t.len(),
        forall|j: int| 0 <= j < k ==> !row_matches(#[trigger] t[j], c),
    ensures
        first_match(t, c) == first_match(t.skip(k), c),
    decreases k,
{
    if k == 0 {
        assert(t.skip(0) =~= t);
    } else {
        lemma_first_match_skip(t, c, k - 1);
        let s = t.skip(k - 1);
        assert(s[0] == t[k - 1]);
        assert(!row_matches(s[0], c));
        assert(s.drop_first() =~= t.skip(k));
    }
}

/// If no earlier row matches and row `k` does, the lookup lands on row `k`.
proof fn lemma_first_match_at(t: Seq<Breakpoint>, c: int, k: int)
    requires
        0 <= k < t.len(),
        forall|j: int| 0 <= j < k ==> !row_matches(#[trigger] t[j], c),
        row_matches(t[k], c),
    ensures
        first_match(t, c) == Some(t[k]),
{
    lemma_first_match_skip(t, c, k);
    assert(t.skip(k)[0] == t[k]);
}

/// Inside a proper row the interpolated index stays between the row's two
/// index endpoints.
proof fn lemma_linear_in_range(bp: Breakpoint, c: int)
    requires
        0 <= bp.conc_lo < bp.conc_hi,
        bp.index_lo <= bp.index_hi,
        row_matches(bp, c),
    ensures
        bp.index_lo <= spec_linear_index(bp, c) <= bp.index_hi,
{
    let q = bp.index_hi - bp.index_lo;
    let d = bp.conc_hi - bp.conc_lo;
    let n = q * (c - bp.conc_lo);
    assert(0 <= n <= q * d) by (nonlinear_arith)
        requires
            0 <= q,
            0 <= c - bp.conc_lo <= d,
            n == q * (c - bp.conc_lo),
    ;
    lemma_div_pos_is_pos(2 * n + d, 2 * d);
    lemma_div_is_ordered(2 * n + d, 2 * (q * d) + d, 2 * d);
    assert(2 * (q * d) + d == (2 * d) * q + d) by (nonlinear_arith);
    lemma_div_multiples_vanish_fancy(q, d, 2 * d);
    assert((2 * (q * d) + d) / (2 * d) == q);
}

/// Inclusive boundary law: at a row's lower concentration bound the lookup
/// returns exactly `index_lo`, and at its upper bound exactly `index_hi`.
pub proof fn lemma_row_boundary(bp: Breakpoint)
    requires
        0 <= bp.conc_lo < bp.conc_hi,
        bp.index_lo <= bp.index_hi,
    ensures
        spec_linear_index(bp, bp.conc_lo as int) == bp.index_lo,
        spec_linear_index(bp, bp.conc_hi as int) == bp.index_hi,
{
    let q = bp.index_hi - bp.index_lo;
    let d = bp.conc_hi - bp.conc_lo;
    assert(q * (bp.conc_lo - bp.conc_lo) == 0);
    lemma_basic_div(d, 2 * d);
    assert(round_div(0, d) == 0);
    assert(2 * (q * d) + d == (2 * d) * q + d) by (nonlinear_arith);
    lemma_div_multiples_vanish_fancy(q, d, 2 * d);
    assert(round_div(q * d, d) == ((2 * d) * q + d) / (2 * d));
    assert(round_div(q * d, d) == q);
}

/// Inclusive boundary law over a whole table: every breakpoint's endpoints
/// map exactly to that row's index endpoints.
pub proof fn lemma_boundary_exact(t: Seq<Breakpoint>, k: int)
    requires
        table_wf(t),
        0 <= k < t.len(),
    ensures
        spec_table_index(t, t[k].conc_lo as int) == Some(t[k].index_lo as int),
        spec_table_index(t, t[k].conc_hi as int) == Some(t[k].index_hi as int),
{
    let bp = t[k];
    assert(forall|j: int| 0 <= j < k ==> (#[trigger] t[j]).conc_hi < bp.conc_lo);
    lemma_first_match_at(t, bp.conc_lo as int, k);
    lemma_first_match_at(t, bp.conc_hi as int, k);
    lemma_row_boundary(bp);
}

/// Saturation law: above the table's final upper bound the lookup yields
/// exactly 500, never nothing.
pub proof fn lemma_saturation(t: Seq<Breakpoint>, c: int)
    requires
        table_wf(t),
        c > t.last().conc_hi,
    ensures
        spec_table_index(t, c) == Some(500int),
{
    let n = t.len() as int;
    assert forall|j: int| 0 <= j < n implies !row_matches(#[trigger] t[j], c) by {
        if j < n - 1 {
            assert(t[j].conc_hi < t[n - 1].conc_lo);
        }
    }
    lemma_first_match_skip(t, c, n);
    assert(t.skip(n).len() == 0);
}

/// Floor division of a fixed-point value by a positive scale; the remainder
/// is discarded toward negative infinity, as EPA truncation floors do.
fn floor_div_i64(c: i64, d: u64) -> (r: i64)
    requires
        1 < d <= 1000,
    ensures
        r as int == (c as int) / (d as int),
{
    if c >= 0 {
        let q: u64 = (c as u64) / d;
        q as i64
    } else {
        let m: i64 = -(c + 1);
        let mu: u64 = m as u64;
        let q: u64 = mu / d;
        let s: u64 = mu % d;
        proof {
            if mu > 0 {
                lemma_div_decreases(mu as int, d as int);
            }
        }
        let r: i64 = -((q as i64) + 1);
        proof {
            let ci = c as int;
            let di = d as int;
            let qi = q as int;
            let si = s as int;
            lemma_fundamental_div_mod(mu as int, di);
            assert(mu as int == di * qi + si);
            assert(ci == (-qi - 1) * di + (di - si - 1)) by (nonlinear_arith)
                requires
                    mu as int == di * qi + si,
                    ci == -(mu as int) - 1,
            ;
            lemma_fundamental_div_mod_converse(ci, di, -qi - 1, di - si - 1);
        }
        r
    }
}

/// Truncate a PM2.5 concentration in hundredths to tenths of a microgram per
/// cubic meter (one decimal place, floored), per EPA convention.
pub fn truncate_pm25(value_centi: i64) -> (r: i64)
    ensures
        r as int == (value_centi as int) / 10,
{
    floor_div_i64(value_centi, 10)
}

/// Truncate a PM10 concentration in hundredths to whole micrograms per cubic
/// meter (floored), per EPA convention.
pub fn truncate_pm10(value_centi: i64) -> (r: i64)
    ensures
        r as int == (value_centi as int) / 100,
{
    floor_div_i64(value_centi, 100)
}

/// Sub-index for one pollutant: scan the table for the first row containing
/// the (already truncated) concentration and interpolate linearly; saturate
/// to 500 above the table's top; nothing below the table's floor.
#[verifier::loop_isolation(false)]
pub fn calculate_pollutant_aqi(concentration: i64, breakpoints: &Vec<Breakpoint>) -> (r: Option<
    u16,
>)
    requires
        table_wf(breakpoints@),
    ensures
        spec_table_index(breakpoints@, concentration as int) == match r {
            Some(v) => Some(v as int),
            None => None::<int>,
        },
        concentration as int > breakpoints@.last().conc_hi ==> r == Some(500u16),
{
    let ghost t = breakpoints@;
    let ghost ci = concentration as int;
    let n = breakpoints.len();
    let mut k: usize = 0;
    while k < n
        invariant
            0 <= k <= n,
            forall|j: int| 0 <= j < k ==> !row_matches(#[trigger] t[j], ci),
        decreases n - k,
    {
        let bp = breakpoints[k];
        if bp.conc_lo <= concentration && concentration <= bp.conc_hi {
            let q: u64 = (bp.index_hi - bp.index_lo) as u64;
            let d: u64 = (bp.conc_hi - bp.conc_lo) as u64;
            let off: u64 = (concentration - bp.conc_lo) as u64;
            proof {
                assert(q * off <= 999 * 100_000) by (nonlinear_arith)
                    requires
                        0 <= q <= 999,
                        0 <= off <= 100_000,
                ;
            }
            let num: u64 = q * off;
            let rd: u64 = (2 * num + d) / (2 * d);
            proof {
                lemma_first_match_at(t, ci, k as int);
                lemma_linear_in_range(bp, ci);
                assert(rd as int == round_div(num as int, d as int));
                assert(spec_linear_index(bp, ci) == bp.index_lo + rd);
            }
            let idx: u16 = bp.index_lo + (rd as u16);
            return Some(idx);
        }
        k += 1;
    }
    proof {
        lemma_first_match_skip(t, ci, n as int);
        assert(t.skip(n as int).len() == 0);
    }
    let last = breakpoints[n - 1];
    if concentration > last.conc_hi {
        return Some(500);
    }
    None
}

/// The PM2.5 breakpoint table as an executable vector.
pub fn pm25_breakpoints() -> (v: Vec<Breakpoint>)
    ensures
        v@ == spec_pm25_table(),
{
    let mut v: Vec<Breakpoint> = Vec::new();
    v.push(Breakpoint { conc_lo: 0, conc_hi: 90, index_lo: 0, index_hi: 50 });
    v.push(Breakpoint { conc_lo: 91, conc_hi: 354, index_lo: 51, index_hi: 100 });
    v.push(Breakpoint { conc_lo: 355, conc_hi: 554, index_lo: 101, index_hi: 150 });
    v.push(Breakpoint { conc_lo: 555, conc_hi: 1254, index_lo: 151, index_hi: 200 });
    v.push(Breakpoint { conc_lo: 1255, conc_hi: 2254, index_lo: 201, index_hi: 300 });
    v.push(Breakpoint { conc_lo: 2255, conc_hi: 3254, index_lo: 301, index_hi: 500 });
    v.push(Breakpoint { conc_lo: 3255, conc_hi: 9999, index_lo: 501, index_hi: 999 });
    proof {
        assert(v@ =~= spec_pm25_table());
    }
    v
}

/// The PM10 breakpoint table as an executable vector.
pub fn pm10_breakpoints() -> (v: Vec<Breakpoint>)
    ensures
        v@ == spec_pm10_table(),
{
    let mut v: Vec<Breakpoint> = Vec::new();
    v.push(Breakpoint { conc_lo: 0, conc_hi: 54, index_lo: 0, index_hi: 50 });
    v.push(Breakpoint { conc_lo: 55, conc_hi: 154, index_lo: 51, index_hi: 100 });
    v.push(Breakpoint { conc_lo: 155, conc_hi: 254, index_lo: 101, index_hi: 150 });
    v.push(Breakpoint { conc_lo: 255, conc_hi: 354, index_lo: 151, index_hi: 200 });
    v.push(Breakpoint { conc_lo: 355, conc_hi: 424, index_lo: 201, index_hi: 300 });
    v.push(Breakpoint { conc_lo: 425, conc_hi: 604, index_lo: 301, index_hi: 500 });
    v.push(Breakpoint { conc_lo: 605, conc_hi: 999, index_lo: 501, index_hi: 999 });
    proof {
        assert(v@ =~= spec_pm10_table());
    }
    v
}

/// Overall AQI result. `aqi` is the maximum of the present sub-indices;
/// the category follows the overall value; `primary_pollutant` names the
/// pollutant that produced the maximum, with PM2.5 keeping ties.
#[derive(Debug, Clone, PartialEq)]
pub struct AqiResult {
    pub aqi: u16,
    pub category: AqiCategory,
    pub primary_pollutant: Pollutant,
    pub pm25_aqi: Option<u16>,
    pub pm10_aqi: Option<u16>,
}

/// A sub-index option seen as a mathematical option.
pub open spec fn opt_val(o: Option<u16>) -> Option<int> {
    match o {
        Some(v) => Some(v as int),
        None => None,
    }
}

/// The PM2.5 sub-index for a concentration in hundredths, after truncation
/// to tenths.
pub open spec fn spec_pm25_sub(pm25_centi: Option<i64>) -> Option<int> {
    match pm25_centi {
        Some(c) => spec_table_index(spec_pm25_table(), (c as int) / 10),
        None => None,
    }
}

/// The PM10 sub-index for a concentration in hundredths, after truncation
/// to whole micrograms.
pub open spec fn spec_pm10_sub(pm10_centi: Option<i64>) -> Option<int> {
    match pm10_centi {
        Some(c) => spec_table_index(spec_pm10_table(), (c as int) / 100),
        None => None,
    }
}

/// The overall index: the maximum of the present sub-indices.
pub open spec fn spec_overall(s25: Option<int>, s10: Option<int>) -> int
    recommends
        s25 is Some || s10 is Some,
{
    match (s25, s10) {
        (Some(a), Some(b)) => if a >= b {
            a
        } else {
            b
        },
        (Some(a), None) => a,
        (None, Some(b)) => b,
        (None, None) => 0,
    }
}

/// The pollutant credited with the overall index; PM2.5 keeps exact ties.
pub open spec fn spec_primary(s25: Option<int>, s10: Option<int>) -> Pollutant
    recommends
        s25 is Some || s10 is Some,
{
    match (s25, s10) {
        (Some(a), Some(b)) => if a >= b {
            Pollutant::Pm25
        } else {
            Pollutant::Pm10
        },
        (Some(_), None) => Pollutant::Pm25,
        _ => Pollutant::Pm10,
    }
}

/// Overall-index law: the overall AQI is the maximum of the present
/// sub-indices, and when both sub-indices are numerically equal the primary
/// pollutant is PM2.5.
pub proof fn lemma_overall_is_max(s25: Option<int>, s10: Option<int>)
    requires
        s25 is Some || s10 is Some,
    ensures
        match s25 {
            Some(a) => spec_overall(s25, s10) >= a,
            None => true,
        },
        match s10 {
            Some(b) => spec_overall(s25, s10) >= b,
            None => true,
        },
        s25 == Some(spec_overall(s25, s10)) || s10 == Some(spec_overall(s25, s10)),
        s25 is Some && s25 == s10 ==> spec_primary(s25, s10) == Pollutant::Pm25,
{
}

/// Overall AQI from PM2.5 and PM10 concentrations in hundredths of a
/// microgram per cubic meter. Each present concentration is truncated per
/// EPA convention, looked up in its table, and the overall index is the
/// maximum of the sub-indices, with PM2.5 primary on ties. The result is
/// absent exactly when neither pollutant produced a sub-index.
pub fn calculate_aqi(pm25_centi: Option<i64>, pm10_centi: Option<i64>) -> (r: Option<AqiResult>)
    ensures
        pm25_centi is None && pm10_centi is None ==> r is None,
        r is Some <==> (spec_pm25_sub(pm25_centi) is Some || spec_pm10_sub(pm10_centi) is Some),
        match r {
            Some(res) => {
                let s25 = spec_pm25_sub(pm25_centi);
                let s10 = spec_pm10_sub(pm10_centi);
                &&& opt_val(res.pm25_aqi) == s25
                &&& opt_val(res.pm10_aqi) == s10
                &&& res.aqi as int == spec_overall(s25, s10)
                &&& res.primary_pollutant == spec_primary(s25, s10)
                &&& res.category == spec_category(res.aqi as int)
            },
            None => true,
        },
{
    proof {
        lemma_tables_wf();
    }
    let pm25_aqi: Option<u16> = match pm25_centi {
        Some(c) => {
            let table = pm25_breakpoints();
            calculate_pollutant_aqi(truncate_pm25(c), &table)
        },
        None => None,
    };
    let pm10_aqi: Option<u16> = match pm10_centi {
        Some(c) => {
            let table = pm10_breakpoints();
            calculate_pollutant_aqi(truncate_pm10(c), &table)
        },
        None => None,
    };
    match (pm25_aqi, pm10_aqi) {
        (None, None) => None,
        _ => {
            let (aqi, primary) = match (pm25_aqi, pm10_aqi) {
                (Some(a), Some(b)) => if a >= b {
                    (a, Pollutant::Pm25)
                } else {
                    (b, Pollutant::Pm10)
                },
                (Some(a), None) => (a, Pollutant::Pm25),
                (None, Some(b)) => (b, Pollutant::Pm10),
                (None, None) => (0, Pollutant::Pm25),
            };
            Some(
                AqiResult {
                    aqi,
                    category: AqiCategory::from_aqi(aqi),
                    primary_pollutant: primary,
                    pm25_aqi,
                    pm10_aqi,
                },
            )
        },
    }
}

} // verus!

