//! WGS84 to Rijksdriehoekstelsel (RD) conversion.
//!
//! The transform is the classic empirical polynomial approximation of the
//! Dutch national grid, evaluated here in exact fixed-point integer
//! arithmetic.  Coordinates enter as signed nano-degrees (1 unit =
//! 10^-9 degree); the two output axes are whole metres, rounded to the
//! nearest metre with ties away from zero.

use vstd::prelude::*;

verus! {

/// Latitude of the reference point, in nano-degrees (52.15517 deg).
pub const LAT0_NANO: i64 = 52_155_170_000;

/// Longitude of the reference point, in nano-degrees (5.387206 deg).
pub const LON0_NANO: i64 = 5_387_206_000;

/// Easting of the reference point, in metres.
pub const X0_M: i64 = 155_000;

/// Northing of the reference point, in metres.
pub const Y0_M: i64 = 463_000;

/// Working scale of the normalized deltas and their powers: one unit is
/// 10^-9 of the dimensionless normalized coordinate.
pub const POW_SCALE: i128 = 1_000_000_000;

/// Scale of an accumulated polynomial term: coefficients carry a factor
/// 1000 (they are published with three decimals) and each term multiplies
/// two powers, so metres appear scaled by 1000 * 10^9 * 10^9.
pub const TERM_SCALE: i128 = 1_000_000_000_000_000_000_000;

/// Division of `n` by a positive divisor `d`, rounded to the nearest
/// integer with ties away from zero.
pub open spec fn spec_round_div(n: int, d: int) -> int
    recommends
        d > 0,
{
    if n >= 0 {
        (n + d / 2) / d
    } else {
        -((-n + d / 2) / d)
    }
}

/// The normalized delta `0.36 * (coord - ref)`: the argument is a
/// nano-degree difference, the result is scaled by `POW_SCALE`.
pub open spec fn spec_norm(diff_nano: int) -> int {
    spec_round_div(36 * diff_nano, 100)
}

/// One step of the running powers: multiplies a power (at `POW_SCALE`)
/// by the base (at `POW_SCALE`) and rescales back to `POW_SCALE`.
pub open spec fn spec_pow_step(p: int, base: int) -> int {
    spec_round_div(p * base, POW_SCALE as int)
}

/// Easting in metres of the point whose normalized deltas are `a` (latitude)
/// and `b` (longitude), both at `POW_SCALE`.
pub open spec fn spec_rd_x_of_norm(a: int, b: int) -> int {
    let w = POW_SCALE as int;
    let pl2 = spec_pow_step(a, a);
    let pl3 = spec_pow_step(pl2, a);
    let pn2 = spec_pow_step(b, b);
    let pn3 = spec_pow_step(pn2, b);
    let sum = 190094945 * w * b + (-11832228) * a * b + (-114221) * pl2 * b + (-32391) * w * pn3
        + (-705) * a * w + (-2340) * pl3 * b + (-608) * a * pn3 + (-8) * w * pn2
        + 148 * pl2 * pn3;
    spec_round_div((X0_M as int) * (TERM_SCALE as int) + sum, TERM_SCALE as int)
}

/// Northing in metres of the point whose normalized deltas are `a` and `b`.
pub open spec fn spec_rd_y_of_norm(a: int, b: int) -> int {
    let w = POW_SCALE as int;
    let pl2 = spec_pow_step(a, a);
    let pl3 = spec_pow_step(pl2, a);
    let pn2 = spec_pow_step(b, b);
    let pn3 = spec_pow_step(pn2, b);
    let pn4 = spec_pow_step(pn3, b);
    let sum = 309056544 * a * w + 3638893 * w * pn2 + 73077 * pl2 * w + (-157984) * a * pn2
        + 59788 * pl3 * w + 433 * w * b + (-6439) * pl2 * pn2 + (-32) * a * b + 92 * w * pn4
        + (-54) * a * pn4;
    spec_round_div((Y0_M as int) * (TERM_SCALE as int) + sum, TERM_SCALE as int)
}

/// Easting in metres for a position given in nano-degrees.
pub open spec fn spec_rd_x(lat_nano: int, lon_nano: int) -> int {
    spec_rd_x_of_norm(spec_norm(lat_nano - LAT0_NANO as int), spec_norm(lon_nano - LON0_NANO as int))
}

/// Northing in metres for a position given in nano-degrees.
pub open spec fn spec_rd_y(lat_nano: int, lon_nano: int) -> int {
    spec_rd_y_of_norm(spec_norm(lat_nano - LAT0_NANO as int), spec_norm(lon_nano - LON0_NANO as int))
}

/// A point in the RD planar system, in whole metres.
#[derive(Clone, Copy, PartialEq, Eq, Structural, Debug)]
pub struct RDCoordinate {
    pub x: i64,
    pub y: i64,
}

/// A geographic position in signed nano-degrees (1 unit = 10^-9 degree).
#[derive(Clone, Copy, PartialEq, Eq, Structural, Debug)]
pub struct WGS84Coordinate {
    pub lat: i64,
    pub lon: i64,
}

impl WGS84Coordinate {
    /// A latitude within [-90, 90] degrees and a longitude within
    /// [-180, 180] degrees: the domain on which the conversion is defined.
    pub open spec fn wf(self) -> bool {
        &&& -90_000_000_000 <= self.lat <= 90_000_000_000
        &&& -180_000_000_000 <= self.lon <= 180_000_000_000
    }

    pub fn new(lat: i64, lon: i64) -> (r: WGS84Coordinate)
        ensures
            r.lat == lat,
            r.lon == lon,
    {
        WGS84Coordinate { lat, lon }
    }

    /// Converts the position to the RD grid.
    #[verifier::rlimit(100)]
    pub fn to_rdnew(&self) -> (r: RDCoordinate)
        requires
            self.wf(),
        ensures
            r.x as int == spec_rd_x(self.lat as int, self.lon as int),
            r.y as int == spec_rd_y(self.lat as int, self.lon as int),
    {
        let a = norm_delta(self.lat, LAT0_NANO);
        let b = norm_delta(self.lon, LON0_NANO);
        let pl2 = pow_step(a, a, Ghost(67_000_000_000));
        let pl3 = pow_step(pl2, a, Ghost(4_500_000_000_000));
        let pn2 = pow_step(b, b, Ghost(67_000_000_000));
        let pn3 = pow_step(pn2, b, Ghost(4_500_000_000_000));
        let pn4 = pow_step(pn3, b, Ghost(302_000_000_000_000));
        let w: i128 = POW_SCALE;

        let t1 = term(190094945, w, b, Ghost(191_000_000), Ghost(1_000_000_000), Ghost(
            67_000_000_000,
        ));
        let t2 = term(-11832228, a, b, Ghost(12_000_000), Ghost(67_000_000_000), Ghost(
            67_000_000_000,
        ));
        let t3 = term(-114221, pl2, b, Ghost(115_000), Ghost(4_500_000_000_000), Ghost(
            67_000_000_000,
        ));
        let t4 = term(-32391, w, pn3, Ghost(33_000), Ghost(1_000_000_000), Ghost(
            302_000_000_000_000,
        ));
        let t5 = term(-705, a, w, Ghost(705), Ghost(67_000_000_000), Ghost(1_000_000_000));
        let t6 = term(-2340, pl3, b, Ghost(2340), Ghost(302_000_000_000_000), Ghost(
            67_000_000_000,
        ));
        let t7 = term(-608, a, pn3, Ghost(608), Ghost(67_000_000_000), Ghost(302_000_000_000_000));
        let t8 = term(-8, w, pn2, Ghost(8), Ghost(1_000_000_000), Ghost(4_500_000_000_000));
        let t9 = term(148, pl2, pn3, Ghost(148), Ghost(4_500_000_000_000), Ghost(
            302_000_000_000_000,
        ));
        let xsum: i128 = t1 + t2 + t3 + t4 + t5 + t6 + t7 + t8 + t9;
        let x = round_div(X0_M as i128 * TERM_SCALE + xsum, TERM_SCALE);

        let u1 = term(309056544, a, w, Ghost(310_000_000), Ghost(67_000_000_000), Ghost(
            1_000_000_000,
        ));
        let u2 = term(3638893, w, pn2, Ghost(3_700_000), Ghost(1_000_000_000), Ghost(
            4_500_000_000_000,
        ));
        let u3 = term(73077, pl2, w, Ghost(74_000), Ghost(4_500_000_000_000), Ghost(1_000_000_000));
        let u4 = term(-157984, a, pn2, Ghost(158_000), Ghost(67_000_000_000), Ghost(
            4_500_000_000_000,
        ));
        let u5 = term(59788, pl3, w, Ghost(60_000), Ghost(302_000_000_000_000), Ghost(
            1_000_000_000,
        ));
        let u6 = term(433, w, b, Ghost(433), Ghost(1_000_000_000), Ghost(67_000_000_000));
        let u7 = term(-6439, pl2, pn2, Ghost(6439), Ghost(4_500_000_000_000), Ghost(
            4_500_000_000_000,
        ));
        let u8 = term(-32, a, b, Ghost(32), Ghost(67_000_000_000), Ghost(67_000_000_000));
        let u9 = term(92, w, pn4, Ghost(92), Ghost(1_000_000_000), Ghost(20_300_000_000_000_000));
        let u10 = term(-54, a, pn4, Ghost(54), Ghost(67_000_000_000), Ghost(
            20_300_000_000_000_000,
        ));
        let ysum: i128 = u1 + u2 + u3 + u4 + u5 + u6 + u7 + u8 + u9 + u10;
        let y = round_div(Y0_M as i128 * TERM_SCALE + ysum, TERM_SCALE);

        assert(-1_000_000_000 <= x <= 1_000_000_000);
        assert(-1_000_000_000 <= y <= 1_000_000_000);
        RDCoordinate { x: x as i64, y: y as i64 }
    }
}

/// The conversion is a function of the coordinate values alone: equal
/// positions project to the same RD point.
pub proof fn lemma_project_deterministic(c1: WGS84Coordinate, c2: WGS84Coordinate)
    requires
        c1.lat == c2.lat,
        c1.lon == c2.lon,
    ensures
        spec_rd_x(c1.lat as int, c1.lon as int) == spec_rd_x(c2.lat as int, c2.lon as int),
        spec_rd_y(c1.lat as int, c1.lon as int) == spec_rd_y(c2.lat as int, c2.lon as int),
{
}

fn round_div(n: i128, d: i128) -> (r: i128)
    requires
        d > 0,
        d % 2 == 0,
        d <= 10_000_000_000_000_000_000_000,
        -10_000_000_000_000_000_000_000_000_000_000_000_000 <= n
            <= 10_000_000_000_000_000_000_000_000_000_000_000_000,
    ensures
        r as int == spec_round_div(n as int, d as int),
        n - d / 2 <= d * r <= n + d / 2,
{
    let du: u128 = d as u128;
    if n >= 0 {
        let q: u128 = (n as u128 + du / 2) / du;
        proof {
            let ni = n as int;
            let di = d as int;
            let qi = (ni + di / 2) / di;
            assert(ni - di / 2 <= di * qi <= ni + di / 2 && 0 <= qi <= ni + di / 2)
                by (nonlinear_arith)
                requires
                    di > 0,
                    ni >= 0,
                    qi == (ni + di / 2) / di,
            ;
        }
        q as i128
    } else {
        let m: u128 = (-n) as u128;
        let q: u128 = (m + du / 2) / du;
        proof {
            let ni = n as int;
            let di = d as int;
            let qi = (-ni + di / 2) / di;
            assert(ni - di / 2 <= di * (-qi) <= ni + di / 2 && 0 <= qi <= -ni + di / 2)
                by (nonlinear_arith)
                requires
                    di > 0,
                    ni < 0,
                    qi == (-ni + di / 2) / di,
            ;
        }
        -(q as i128)
    }
}

/// The normalized delta at `POW_SCALE`, defined for differences of up to
/// just over a full hemisphere on either axis.
fn norm_delta(coord: i64, origin: i64) -> (r: i128)
    requires
        -185_400_000_000 <= coord as int - origin as int <= 185_400_000_000,
    ensures
        r as int == spec_norm(coord as int - origin as int),
        -67_000_000_000 <= r <= 67_000_000_000,
{
    let diff: i128 = coord as i128 - origin as i128;
    round_div(36 * diff, 100)
}

/// One running power, rescaled back to `POW_SCALE`.  The ghost argument
/// bounds the magnitude of the incoming power and with it the result.
fn pow_step(p: i128, base: i128, pb: Ghost<int>) -> (r: i128)
    requires
        1 <= pb@ <= 302_000_000_000_000,
        -pb@ <= p as int <= pb@,
        -67_000_000_000 <= base <= 67_000_000_000,
    ensures
        r as int == spec_pow_step(p as int, base as int),
        -(67 * pb@) - 1 <= r as int <= 67 * pb@ + 1,
{
    proof {
        assert(-(pb@ * 67_000_000_000) <= (p as int) * (base as int) <= pb@ * 67_000_000_000)
            by (nonlinear_arith)
            requires
                pb@ >= 1,
                -pb@ <= p as int <= pb@,
                -67_000_000_000 <= base as int <= 67_000_000_000,
        ;
    }
    let prod: i128 = p * base;
    let r = round_div(prod, POW_SCALE);
    proof {
        assert(-(67 * pb@) - 1 <= r as int <= 67 * pb@ + 1) by (nonlinear_arith)
            requires
                pb@ >= 1,
                -(pb@ * 67_000_000_000) <= prod as int <= pb@ * 67_000_000_000,
                1_000_000_000 * (r as int) - 500_000_000 <= prod as int <= 1_000_000_000 * (
                r as int) + 500_000_000,
        ;
    }
    r
}

/// One polynomial term: a milli-scaled coefficient times two powers.  The
/// ghost arguments carry the magnitude bounds under which the product
/// cannot overflow.
fn term(c: i128, p: i128, q: i128, cb: Ghost<int>, pb: Ghost<int>, qb: Ghost<int>) -> (r: i128)
    requires
        cb@ >= 1,
        pb@ >= 1,
        qb@ >= 1,
        -cb@ <= c as int <= cb@,
        -pb@ <= p as int <= pb@,
        -qb@ <= q as int <= qb@,
        cb@ * pb@ * qb@ <= 10_000_000_000_000_000_000_000_000_000_000_000_000,
    ensures
        r as int == (c as int) * (p as int) * (q as int),
        -(cb@ * pb@ * qb@) <= r as int <= cb@ * pb@ * qb@,
{
    proof {
        let ci = c as int;
        let pi = p as int;
        let qi = q as int;
        assert(-(cb@ * pb@) <= ci * pi <= cb@ * pb@) by (nonlinear_arith)
            requires
                cb@ >= 1,
                pb@ >= 1,
                -cb@ <= ci <= cb@,
                -pb@ <= pi <= pb@,
        ;
        assert(1 <= cb@ * pb@ && cb@ * pb@ <= cb@ * pb@ * qb@) by (nonlinear_arith)
            requires
                cb@ >= 1,
                pb@ >= 1,
                qb@ >= 1,
        ;
        assert(-(cb@ * pb@ * qb@) <= ci * pi * qi <= cb@ * pb@ * qb@) by (nonlinear_arith)
            requires
                cb@ * pb@ >= 1,
                qb@ >= 1,
                -(cb@ * pb@) <= ci * pi <= cb@ * pb@,
                -qb@ <= qi <= qb@,
        ;
    }
    c * p * q
}

/// The transform hits its published reference values: central Amsterdam
/// and Loppersum, given in nano-degrees.  The proof walks the fixed-point
/// evaluation step by step.
#[verifier::rlimit(100)]
pub proof fn lemma_golden_values()
    ensures
        spec_rd_x(52_372_143_838, 4_905_597_604) == 122202,
        spec_rd_y(52_372_143_838, 4_905_597_604) == 487250,
        spec_rd_x(53_310_000_000, 6_560_000_000) == 233171,
        spec_rd_y(53_310_000_000, 6_560_000_000) == 592141,
{
    let a1 = spec_norm(52_372_143_838 - LAT0_NANO as int);
    let b1 = spec_norm(4_905_597_604 - LON0_NANO as int);
    assert(a1 == 78110582);
    assert(b1 == -173379023);
    assert(spec_pow_step(a1, a1) == 6101263);
    assert(spec_pow_step(6101263, a1) == 476573);
    assert(spec_pow_step(b1, b1) == 30060286);
    assert(spec_pow_step(30060286, b1) == -5211823);
    assert(spec_pow_step(-5211823, b1) == 903621);
    assert(spec_rd_x_of_norm(a1, b1) == 122202);
    assert(spec_rd_y_of_norm(a1, b1) == 487250);

    let a2 = spec_norm(53_310_000_000 - LAT0_NANO as int);
    let b2 = spec_norm(6_560_000_000 - LON0_NANO as int);
    assert(a2 == 415738800);
    assert(b2 == 422205840);
    assert(spec_pow_step(a2, a2) == 172838750);
    assert(spec_pow_step(172838750, a2) == 71855775);
    assert(spec_pow_step(b2, b2) == 178257771);
    assert(spec_pow_step(178257771, b2) == 75261472);
    assert(spec_pow_step(75261472, b2) == 31775833);
    assert(spec_rd_x_of_norm(a2, b2) == 233171);
    assert(spec_rd_y_of_norm(a2, b2) == 592141);
}

} // verus!
