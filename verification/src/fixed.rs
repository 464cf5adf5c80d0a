//! Fixed-point scalars.
//!
//! Every physical quantity in the library is an `i64` holding the value
//! times `SCALE` (one unit = `SCALE`).  Integer arithmetic keeps each step
//! bit-for-bit identical across machines, which the cross-machine
//! determinism contract requires.

use vstd::prelude::*;

verus! {

/// One world unit, in fixed-point quanta.
pub const SCALE: i64 = 1_000_000;

/// Largest magnitude a position coordinate may take (one million units).
pub const POS_LIMIT: i64 = 1_000_000_000_000;

/// Largest magnitude a velocity coordinate may take (one thousand units/s).
pub const VEL_LIMIT: i64 = 1_000_000_000;

/// Largest mass a simulated body may have (one thousand mass units).
pub const MASS_LIMIT: i64 = 1_000_000_000;

/// Longest step duration accepted, in fixed-point seconds (one second).
pub const DT_LIMIT: i64 = 1_000_000;

/// Magnitude of an integer.
pub open spec fn abs_spec(x: int) -> int {
    if x >= 0 {
        x
    } else {
        -x
    }
}

/// Sign of an integer: -1, 0 or 1.
pub open spec fn sign_spec(x: int) -> int {
    if x > 0 {
        1
    } else if x < 0 {
        -1
    } else {
        0
    }
}

/// Magnitude of a bounded `i64`, as a `u64`.
pub fn abs_i64(x: i64) -> (r: u64)
    ensures
        r == abs_spec(x as int),
{
    if x >= 0 {
        x as u64
    } else {
        (-(x as i128)) as u64
    }
}

/// Largest square root the executable search has to consider: squaring it
/// covers every product the library forms.
pub const SQRT_INPUT_LIMIT: u64 = 4_000_000_000_000_000_000;

pub const SQRT_OUTPUT_LIMIT: u64 = 2_000_000_000;

spec fn floor_sqrt_rec(n: nat, r: nat) -> nat
    recommends
        r * r <= n,
    decreases n - r,
{
    if r < n && (r + 1) * (r + 1) <= n {
        floor_sqrt_rec(n, (r + 1) as nat)
    } else {
        r
    }
}

/// Integer square root, rounded down.
pub closed spec fn floor_sqrt(n: nat) -> nat {
    floor_sqrt_rec(n, 0)
}

/// Integer square root, rounded up: the least `r` with `r * r >= n`.
pub closed spec fn ceil_sqrt(n: nat) -> nat {
    let f = floor_sqrt(n);
    if f * f == n {
        f
    } else {
        f + 1
    }
}

proof fn lemma_floor_sqrt_rec(n: nat, r: nat)
    requires
        r * r <= n,
    ensures
        floor_sqrt_rec(n, r) * floor_sqrt_rec(n, r) <= n,
        n < (floor_sqrt_rec(n, r) + 1) * (floor_sqrt_rec(n, r) + 1),
        floor_sqrt_rec(n, r) >= r,
    decreases n - r,
{
    if r < n && (r + 1) * (r + 1) <= n {
        lemma_floor_sqrt_rec(n, (r + 1) as nat);
    } else {
        if r >= n {
            // With r * r <= n this forces either n == 0 or r * r == n;
            // in both cases (r + 1)^2 exceeds n.
            assert(r >= 1 ==> r * r >= r) by (nonlinear_arith);
            assert(n < (r + 1) * (r + 1)) by (nonlinear_arith)
                requires
                    r * r <= n,
                    r >= n,
            ;
        }
    }
}

/// The defining bounds of `ceil_sqrt`.
pub proof fn lemma_ceil_sqrt(n: nat)
    ensures
        ceil_sqrt(n) * ceil_sqrt(n) >= n,
        ceil_sqrt(n) > 0 ==> (ceil_sqrt(n) - 1) * (ceil_sqrt(n) - 1) < n,
        n > 0 ==> ceil_sqrt(n) > 0,
{
    lemma_floor_sqrt_rec(n, 0);
    let f = floor_sqrt(n);
    if f * f == n {
        if f > 0 {
            assert((f - 1) * (f - 1) < f * f) by (nonlinear_arith)
                requires
                    f > 0,
            ;
        }
    } else {
        assert(f * f < n);
    }
}

/// Any `r` that meets the defining bounds is `ceil_sqrt(n)`.
pub proof fn lemma_ceil_sqrt_unique(n: nat, r: nat)
    requires
        r * r >= n,
        r > 0 ==> (r - 1) * (r - 1) < n,
    ensures
        r == ceil_sqrt(n),
{
    lemma_ceil_sqrt(n);
    let c = ceil_sqrt(n);
    if r < c {
        assert(r * r <= (c - 1) * (c - 1)) by (nonlinear_arith)
            requires
                r <= c - 1,
        ;
    }
    if r > c {
        assert(c * c <= (r - 1) * (r - 1)) by (nonlinear_arith)
            requires
                c <= r - 1,
        ;
    }
}

/// Largest coordinate magnitude the planar operations accept: two squares
/// of it still fit the square-root search.
pub const PLANE_LIMIT: i64 = 1_400_000_000;

/// Squared length of a planar vector.
pub open spec fn norm_sq(x: int, y: int) -> int {
    x * x + y * y
}

/// A planar vector shortened to length at most `m`: unchanged when already
/// short enough, otherwise each coordinate scaled by `m` over the rounded-up
/// length, which never lengthens the vector past `m`.
pub open spec fn spec_clamp2(x: int, y: int, m: int) -> (int, int)
    recommends
        m >= 0,
{
    if norm_sq(x, y) <= m * m {
        (x, y)
    } else {
        let r = ceil_sqrt(norm_sq(x, y) as nat) as int;
        (
            sign_spec(x) * ((abs_spec(x) * m) / r),
            sign_spec(y) * ((abs_spec(y) * m) / r),
        )
    }
}

/// A scaled coordinate never grows: `(a * m) / r <= a` when `m <= r`.
proof fn lemma_scale_shrinks(a: nat, m: nat, r: nat)
    requires
        m <= r,
        r > 0,
    ensures
        (a * m) / r <= a,
{
    vstd::arithmetic::div_mod::lemma_fundamental_div_mod((a * m) as int, r as int);
    vstd::arithmetic::div_mod::lemma_mod_bound((a * m) as int, r as int);
    let q = (a * m) / r;
    assert(a * m >= r * q);
    if q > a {
        assert(r * q > a * m) by (nonlinear_arith)
            requires
                q > a,
                m <= r,
                r > 0,
        ;
    }
}

/// Scaling both coordinates by `m / r` keeps the squared length within
/// `m * m` whenever `r` bounds the original length from above.
proof fn lemma_scaled_norm(ax: nat, ay: nat, m: nat, r: nat)
    requires
        r > 0,
        ax * ax + ay * ay <= r * r,
    ensures
        ((ax * m) / r) * ((ax * m) / r) + ((ay * m) / r) * ((ay * m) / r) <= m * m,
{
    let qx = (ax * m) / r;
    let qy = (ay * m) / r;
    vstd::arithmetic::div_mod::lemma_fundamental_div_mod((ax * m) as int, r as int);
    vstd::arithmetic::div_mod::lemma_mod_bound((ax * m) as int, r as int);
    vstd::arithmetic::div_mod::lemma_fundamental_div_mod((ay * m) as int, r as int);
    vstd::arithmetic::div_mod::lemma_mod_bound((ay * m) as int, r as int);
    assert(ax * m >= r * qx);
    assert(ay * m >= r * qy);
    assert((qx * qx) * (r * r) <= (ax * m) * (ax * m)) by (nonlinear_arith)
        requires
            r * qx <= ax * m,
    ;
    assert((qy * qy) * (r * r) <= (ay * m) * (ay * m)) by (nonlinear_arith)
        requires
            r * qy <= ay * m,
    ;
    assert((ax * m) * (ax * m) + (ay * m) * (ay * m) == (ax * ax + ay * ay) * (m * m))
        by (nonlinear_arith);
    assert((ax * ax + ay * ay) * (m * m) <= (r * r) * (m * m)) by (nonlinear_arith)
        requires
            ax * ax + ay * ay <= r * r,
    ;
    assert(qx * qx + qy * qy <= m * m) by (nonlinear_arith)
        requires
            (qx * qx) * (r * r) + (qy * qy) * (r * r) <= (r * r) * (m * m),
            r > 0,
    ;
}

/// What clamping promises: the result never exceeds length `m`, and no
/// coordinate grows in magnitude.
pub proof fn lemma_clamp2_bounds(x: int, y: int, m: int)
    requires
        m >= 0,
    ensures
        norm_sq(spec_clamp2(x, y, m).0, spec_clamp2(x, y, m).1) <= m * m,
        abs_spec(spec_clamp2(x, y, m).0) <= abs_spec(x),
        abs_spec(spec_clamp2(x, y, m).1) <= abs_spec(y),
{
    let n = norm_sq(x, y);
    assert(x * x >= 0 && y * y >= 0) by (nonlinear_arith);
    assert(x * x == abs_spec(x) * abs_spec(x)) by (nonlinear_arith);
    assert(y * y == abs_spec(y) * abs_spec(y)) by (nonlinear_arith);
    if n <= m * m {
    } else {
        let r = ceil_sqrt(n as nat) as int;
        lemma_ceil_sqrt(n as nat);
        assert(r > 0);
        let ax = abs_spec(x) as nat;
        let ay = abs_spec(y) as nat;
        assert(m < r) by (nonlinear_arith)
            requires
                m * m < n,
                n <= r * r,
                m >= 0,
                r > 0,
        ;
        lemma_scaled_norm(ax, ay, m as nat, r as nat);
        lemma_scale_shrinks(ax, m as nat, r as nat);
        lemma_scale_shrinks(ay, m as nat, r as nat);
        let qx = ((ax * (m as nat)) / (r as nat)) as int;
        let qy = ((ay * (m as nat)) / (r as nat)) as int;
        if x == 0 {
            assert(ax * (m as nat) == 0) by (nonlinear_arith)
                requires
                    ax == 0,
            ;
            vstd::arithmetic::div_mod::lemma_div_of0(r);
        }
        if y == 0 {
            assert(ay * (m as nat) == 0) by (nonlinear_arith)
                requires
                    ay == 0,
            ;
            vstd::arithmetic::div_mod::lemma_div_of0(r);
        }
        lemma_signed_square(x, qx);
        lemma_signed_square(y, qy);
        assert(spec_clamp2(x, y, m).0 == sign_spec(x) * qx);
        assert(spec_clamp2(x, y, m).1 == sign_spec(y) * qy);
    }
}

/// Reapplying a coordinate's sign to a magnitude keeps the square and the
/// magnitude of the magnitude.
proof fn lemma_signed_square(v: int, q: int)
    requires
        q >= 0,
        v == 0 ==> q == 0,
    ensures
        (sign_spec(v) * q) * (sign_spec(v) * q) == q * q,
        abs_spec(sign_spec(v) * q) == q,
{
    if v > 0 {
        assert(sign_spec(v) * q == q);
    } else if v < 0 {
        assert(sign_spec(v) * q == -q);
        assert((-q) * (-q) == q * q) by (nonlinear_arith);
    } else {
        assert(sign_spec(v) * q == 0);
    }
}

/// Turns a magnitude back into a signed coordinate, taking the sign of the
/// original coordinate.
fn apply_sign(orig: i64, magnitude: u64) -> (r: i64)
    requires
        magnitude <= i64::MAX,
    ensures
        r == sign_spec(orig as int) * magnitude,
{
    if orig > 0 {
        magnitude as i64
    } else if orig < 0 {
        -(magnitude as i64)
    } else {
        0
    }
}

/// Truncating scaled product: `(a * b) / c`.
fn mul_div_u64(a: u64, b: u64, c: u64) -> (r: u64)
    requires
        c > 0,
        a as nat * b as nat <= u64::MAX as nat,
    ensures
        r == (a as nat * b as nat) / c as nat,
{
    let p = a * b;
    p / c
}

/// A scaled coordinate is bounded by the scale: `(a * m) / r <= m` when
/// `a <= r`.
proof fn lemma_scale_bounded(a: nat, m: nat, r: nat)
    requires
        a <= r,
        r > 0,
    ensures
        (a * m) / r <= m,
{
    vstd::arithmetic::div_mod::lemma_fundamental_div_mod((a * m) as int, r as int);
    vstd::arithmetic::div_mod::lemma_mod_bound((a * m) as int, r as int);
    let q = (a * m) / r;
    assert(a * m >= r * q);
    if q > m {
        assert(r * q > a * m) by (nonlinear_arith)
            requires
                q > m,
                a <= r,
                r > 0,
        ;
    }
}

/// A coordinate rescaled by the ratio `num / den`, rounded toward zero.
pub open spec fn spec_scale_coord(v: int, num: int, den: int) -> int
    recommends
        num >= 0,
        den > 0,
{
    sign_spec(v) * ((abs_spec(v) * num) / den)
}

/// The magnitude of a rescaled coordinate, and its bound by `num` when the
/// input lies within `den`.
pub proof fn lemma_scale_coord_bounds(v: int, num: int, den: int)
    requires
        num >= 0,
        den > 0,
    ensures
        abs_spec(spec_scale_coord(v, num, den)) == (abs_spec(v) * num) / den,
        abs_spec(v) <= den ==> abs_spec(spec_scale_coord(v, num, den)) <= num,
{
    let a = abs_spec(v) as nat;
    let q = ((a * (num as nat)) / (den as nat)) as int;
    if v == 0 {
        assert(a * (num as nat) == 0) by (nonlinear_arith)
            requires
                a == 0,
        ;
        vstd::arithmetic::div_mod::lemma_div_of0(den);
    }
    lemma_signed_square(v, q);
    if abs_spec(v) <= den {
        lemma_scale_bounded(a, num as nat, den as nat);
    }
}

/// Rescales a coordinate by `num / den`, rounding toward zero.
pub fn scale_coord(v: i64, num: i64, den: i64) -> (r: i64)
    requires
        num >= 0,
        den > 0,
        abs_spec(v as int) * num <= i64::MAX,
    ensures
        r == spec_scale_coord(v as int, num as int, den as int),
        abs_spec(r as int) == (abs_spec(v as int) * num) / (den as int),
        abs_spec(v as int) <= den ==> abs_spec(r as int) <= num,
{
    proof {
        lemma_scale_coord_bounds(v as int, num as int, den as int);
    }
    let av = abs_i64(v);
    let q = mul_div_u64(av, num as u64, den as u64);
    proof {
        vstd::arithmetic::div_mod::lemma_fundamental_div_mod((av * num as u64) as int, den as int);
        vstd::arithmetic::div_mod::lemma_mod_bound((av * num as u64) as int, den as int);
        assert(den as int * q as int <= av * num as u64);
        assert(q <= av * num as u64) by (nonlinear_arith)
            requires
                den as int * q as int <= av as int * num as int,
                den >= 1,
                q >= 0,
        ;
    }
    apply_sign(v, q)
}

/// A value clamped to the symmetric interval `[-limit, limit]`.
pub open spec fn clamp_to(v: int, limit: int) -> int
    recommends
        limit >= 0,
{
    if v > limit {
        limit
    } else if v < -limit {
        -limit
    } else {
        v
    }
}

/// Rescales a coordinate by `num / den` in wide arithmetic: no bound on the
/// operands beyond their types.
pub fn scale_i128(v: i64, num: i64, den: i64) -> (r: i128)
    requires
        num >= 0,
        den > 0,
    ensures
        r == spec_scale_coord(v as int, num as int, den as int),
        abs_spec(r as int) <= abs_spec(v as int) * num,
{
    let av: u128 = if v >= 0 {
        v as u128
    } else {
        (-(v as i128)) as u128
    };
    proof {
        assert(av == abs_spec(v as int));
        assert(av * (num as u128) <= u128::MAX && av * (num as u128) <= i128::MAX)
            by (nonlinear_arith)
            requires
                av <= u64::MAX,
                0 <= num <= i64::MAX,
        ;
        if v == 0 {
            assert(av * (num as u128) == 0) by (nonlinear_arith)
                requires
                    av == 0,
            ;
            vstd::arithmetic::div_mod::lemma_div_of0(den as int);
        }
    }
    let p = av * (num as u128);
    let q = p / (den as u128);
    proof {
        vstd::arithmetic::div_mod::lemma_fundamental_div_mod(p as int, den as int);
        vstd::arithmetic::div_mod::lemma_mod_bound(p as int, den as int);
        assert(q <= p) by (nonlinear_arith)
            requires
                den as int * q as int <= p as int,
                den >= 1,
                q >= 0,
        ;
    }
    if v > 0 {
        q as i128
    } else if v < 0 {
        -(q as i128)
    } else {
        0
    }
}

/// Clamps a wide value back to an `i64` interval.
pub fn clamp_i128(v: i128, limit: i64) -> (r: i64)
    requires
        limit >= 0,
    ensures
        r == clamp_to(v as int, limit as int),
{
    if v > limit as i128 {
        limit
    } else if v < -(limit as i128) {
        -limit
    } else {
        v as i64
    }
}

/// Shortens a planar vector to length at most `max_len`.
pub fn clamp2(x: i64, y: i64, max_len: i64) -> (r: (i64, i64))
    requires
        abs_spec(x as int) <= PLANE_LIMIT,
        abs_spec(y as int) <= PLANE_LIMIT,
        0 <= max_len <= PLANE_LIMIT,
    ensures
        (r.0 as int, r.1 as int) == spec_clamp2(x as int, y as int, max_len as int),
        norm_sq(r.0 as int, r.1 as int) <= max_len * max_len,
        abs_spec(r.0 as int) <= abs_spec(x as int),
        abs_spec(r.1 as int) <= abs_spec(y as int),
{
    proof {
        lemma_clamp2_bounds(x as int, y as int, max_len as int);
    }
    let ax = abs_i64(x);
    let ay = abs_i64(y);
    let m = max_len as u64;
    proof {
        assert(ax * ax <= 1_960_000_000_000_000_000 && ay * ay <= 1_960_000_000_000_000_000
            && m * m <= 1_960_000_000_000_000_000) by (nonlinear_arith)
            requires
                ax <= 1_400_000_000,
                ay <= 1_400_000_000,
                m <= 1_400_000_000,
        ;
        assert(x as int * x as int == ax * ax) by (nonlinear_arith)
            requires
                ax == abs_spec(x as int),
        ;
        assert(y as int * y as int == ay * ay) by (nonlinear_arith)
            requires
                ay == abs_spec(y as int),
        ;
    }
    let nsq = ax * ax + ay * ay;
    let msq = m * m;
    if nsq <= msq {
        (x, y)
    } else {
        let root = ceil_isqrt(nsq);
        proof {
            lemma_ceil_sqrt(nsq as nat);
            assert(ax * m <= u64::MAX && ay * m <= u64::MAX) by (nonlinear_arith)
                requires
                    ax <= 1_400_000_000,
                    ay <= 1_400_000_000,
                    m <= 1_400_000_000,
            ;
            assert(m < root) by (nonlinear_arith)
                requires
                    m * m < nsq,
                    nsq <= root * root,
            ;
            lemma_scale_shrinks(ax as nat, m as nat, root as nat);
            lemma_scale_shrinks(ay as nat, m as nat, root as nat);
        }
        let qx = mul_div_u64(ax, m, root);
        let qy = mul_div_u64(ay, m, root);
        (apply_sign(x, qx), apply_sign(y, qy))
    }
}

/// A squared length bounds each coordinate.
pub proof fn lemma_norm_component(x: int, y: int, m: int)
    requires
        m >= 0,
        norm_sq(x, y) <= m * m,
    ensures
        abs_spec(x) <= m,
        abs_spec(y) <= m,
{
    assert(abs_spec(x) <= m && abs_spec(y) <= m) by (nonlinear_arith)
        requires
            m >= 0,
            x * x + y * y <= m * m,
    ;
}

/// A planar point moved toward a destination by a step of length at most
/// `m`: the destination itself once it is within reach, otherwise the
/// clamped difference added on.  This is the velocity-space rate limiter of
/// the stepper.
pub open spec fn spec_move_toward2(cx: int, cy: int, dx: int, dy: int, m: int) -> (int, int)
    recommends
        m >= 0,
{
    let c = spec_clamp2(dx - cx, dy - cy, m);
    (cx + c.0, cy + c.1)
}

/// Rate limit: one move-toward step changes the point by a vector no longer
/// than `m`, however far away the destination lies.
pub proof fn lemma_move_toward2_rate_limited(cx: int, cy: int, dx: int, dy: int, m: int)
    requires
        m >= 0,
    ensures
        norm_sq(
            spec_move_toward2(cx, cy, dx, dy, m).0 - cx,
            spec_move_toward2(cx, cy, dx, dy, m).1 - cy,
        ) <= m * m,
        abs_spec(spec_move_toward2(cx, cy, dx, dy, m).0 - cx) <= m,
        abs_spec(spec_move_toward2(cx, cy, dx, dy, m).1 - cy) <= m,
{
    lemma_clamp2_bounds(dx - cx, dy - cy, m);
    let c = spec_clamp2(dx - cx, dy - cy, m);
    lemma_norm_component(c.0, c.1, m);
}

/// Moves a planar point toward a destination by at most `max_delta`.
pub fn move_toward2(cur_x: i64, cur_y: i64, des_x: i64, des_y: i64, max_delta: i64) -> (r: (
    i64,
    i64,
))
    requires
        abs_spec(cur_x as int) <= 4_000_000_000_000_000_000,
        abs_spec(cur_y as int) <= 4_000_000_000_000_000_000,
        abs_spec(des_x - cur_x) <= PLANE_LIMIT,
        abs_spec(des_y - cur_y) <= PLANE_LIMIT,
        0 <= max_delta <= PLANE_LIMIT,
    ensures
        (r.0 as int, r.1 as int) == spec_move_toward2(
            cur_x as int,
            cur_y as int,
            des_x as int,
            des_y as int,
            max_delta as int,
        ),
        norm_sq(r.0 - cur_x, r.1 - cur_y) <= max_delta * max_delta,
        abs_spec(r.0 - cur_x) <= max_delta,
        abs_spec(r.1 - cur_y) <= max_delta,
{
    proof {
        lemma_move_toward2_rate_limited(
            cur_x as int,
            cur_y as int,
            des_x as int,
            des_y as int,
            max_delta as int,
        );
    }
    let delta = clamp2(des_x - cur_x, des_y - cur_y, max_delta);
    (cur_x + delta.0, cur_y + delta.1)
}

/// Integer square root, rounded up, by binary search.
pub fn ceil_isqrt(n: u64) -> (r: u64)
    requires
        n <= SQRT_INPUT_LIMIT,
    ensures
        r == ceil_sqrt(n as nat),
        r <= SQRT_OUTPUT_LIMIT,
{
    let mut lo: u64 = 0;
    let mut hi: u64 = SQRT_OUTPUT_LIMIT;
    while lo < hi
        invariant
            lo <= hi <= SQRT_OUTPUT_LIMIT,
            n <= SQRT_INPUT_LIMIT,
            hi * hi >= n,
            lo > 0 ==> (lo - 1) * (lo - 1) < n,
        decreases hi - lo,
    {
        let mid = lo + (hi - lo) / 2;
        proof {
            assert(mid as nat * mid as nat <= SQRT_INPUT_LIMIT as nat) by (nonlinear_arith)
                requires
                    mid <= 2_000_000_000,
            ;
        }
        if mid * mid >= n {
            hi = mid;
        } else {
            lo = mid + 1;
        }
    }
    proof {
        lemma_ceil_sqrt_unique(n as nat, lo as nat);
    }
    lo
}

} // verus!
