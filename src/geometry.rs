//! Fixed-point positions, box overlap and the bounded step toward a target.
use vstd::prelude::*;

verus! {

/// Fixed-point sub-units in one play-area unit.
pub const UNIT: i64 = 1000;

/// Half-size of the square region in which ships, targets and effects live.
pub const FIELD: i64 = 1073741824;

/// A position or an extent, in thousandths of a unit.
#[derive(Clone, Copy, Debug, PartialEq, Eq, Structural)]
pub struct Point {
    pub x: i64,
    pub y: i64,
}

pub open spec fn abs(v: int) -> int {
    if v < 0 { -v } else { v }
}

/// Both coordinates lie within the field.
pub open spec fn in_field(p: Point) -> bool {
    -FIELD <= p.x <= FIELD && -FIELD <= p.y <= FIELD
}

/// Both coordinates lie within twice the field (room for projectiles).
pub open spec fn in_reach(p: Point) -> bool {
    -2 * FIELD <= p.x <= 2 * FIELD && -2 * FIELD <= p.y <= 2 * FIELD
}

/// Two axis-aligned boxes, given by centre and half-extents, overlap.
pub open spec fn boxes_overlap(a: Point, ah: Point, b: Point, bh: Point) -> bool {
    abs(a.x - b.x) < ah.x + bh.x && abs(a.y - b.y) < ah.y + bh.y
}

fn abs_diff(a: i64, b: i64) -> (r: i128)
    ensures
        r == abs(a - b),
{
    let d: i128 = a as i128 - b as i128;
    if d < 0 {
        -d
    } else {
        d
    }
}

/// Axis-aligned box overlap test: each axis separation must be strictly
/// below the sum of the half-extents on that axis.
pub fn overlaps(a: Point, ah: Point, b: Point, bh: Point) -> (r: bool)
    ensures
        r == boxes_overlap(a, ah, b, bh),
{
    abs_diff(a.x, b.x) < ah.x as i128 + bh.x as i128 && abs_diff(a.y, b.y) < ah.y as i128
        + bh.y as i128
}

/// Smallest `r` with `n <= r * r`.
pub open spec fn is_ceil_sqrt(n: nat, r: nat) -> bool {
    n <= r * r && (r == 0 || (r - 1) * (r - 1) < n)
}

/// The square root of `n`, rounded up.
pub open spec fn root_ceil(n: nat) -> nat {
    choose|r: nat| #[trigger] is_ceil_sqrt(n, r)
}

proof fn lemma_ceil_sqrt_exists(n: nat)
    ensures
        exists|r: nat| #[trigger] is_ceil_sqrt(n, r),
    decreases n,
{
    if n == 0 {
        assert(is_ceil_sqrt(0, 0));
    } else {
        lemma_ceil_sqrt_exists((n - 1) as nat);
        let r = choose|r: nat| #[trigger] is_ceil_sqrt((n - 1) as nat, r);
        if r == 0 {
            assert(is_ceil_sqrt(n, 1));
        } else if n <= r * r {
            assert(is_ceil_sqrt(n, r));
        } else {
            assert(n <= (r + 1) * (r + 1)) by (nonlinear_arith)
                requires n - 1 <= r * r;
            assert(is_ceil_sqrt(n, r + 1));
        }
    }
}

proof fn lemma_root_ceil(n: nat, r: nat)
    requires
        is_ceil_sqrt(n, r),
    ensures
        root_ceil(n) == r,
{
    let c = root_ceil(n);
    assert(is_ceil_sqrt(n, c));
    if c < r {
        assert((c as int) * (c as int) <= (r - 1) * (r - 1)) by (nonlinear_arith)
            requires 0 <= c <= r - 1;
    } else if r < c {
        assert((r as int) * (r as int) <= (c - 1) * (c - 1)) by (nonlinear_arith)
            requires 0 <= r <= c - 1;
    }
}

/// Rounds the square root of `n` up.
pub fn ceil_sqrt(n: u64) -> (r: u64)
    ensures
        is_ceil_sqrt(n as nat, r as nat),
        r <= 4294967296,
{
    if n == 0 {
        return 0;
    }
    let mut lo: u64 = 0;
    let mut hi: u64 = 4294967296;
    assert(n <= 4294967296u64 * 4294967296u64) by (nonlinear_arith)
        requires n <= u64::MAX;
    while lo + 1 < hi
        invariant
            lo < hi <= 4294967296,
            (lo as nat) * (lo as nat) < n,
            n <= (hi as nat) * (hi as nat),
        decreases hi - lo,
    {
        let mid: u64 = lo + (hi - lo) / 2;
        assert((mid as nat) * (mid as nat) <= 4294967296nat * 4294967296nat) by (nonlinear_arith)
            requires mid <= 4294967296;
        let sq: u128 = (mid as u128) * (mid as u128);
        if sq < n as u128 {
            lo = mid;
        } else {
            hi = mid;
        }
    }
    assert(lo + 1 == hi);
    hi
}

/// Truncated share `a * m / s` of a step, for non-negative integers.
pub open spec fn share(a: int, m: int, s: int) -> int {
    a * m / s
}

/// Signed share: the magnitude is `share(|d|, m, s)`, the sign that of `d`.
pub open spec fn signed_share(d: int, m: int, s: int) -> int {
    if d < 0 { -share(-d, m, s) } else { share(d, m, s) }
}

/// Position after one step from `p` toward `t` of length at most `m`.
/// A target within reach is reached exactly; otherwise each axis moves by its
/// share of the step, rounded toward zero, against the rounded-up distance.
pub open spec fn step_toward(p: Point, t: Point, m: int) -> (int, int) {
    let dx = t.x - p.x;
    let dy = t.y - p.y;
    let s = root_ceil((dx * dx + dy * dy) as nat) as int;
    if dx * dx + dy * dy <= m * m {
        (t.x as int, t.y as int)
    } else {
        (p.x + signed_share(dx, m, s), p.y + signed_share(dy, m, s))
    }
}

/// `q` lies between `a` and `b` (inclusive), in either order.
pub open spec fn between(a: int, q: int, b: int) -> bool {
    (a <= q <= b) || (b <= q <= a)
}

proof fn lemma_share_bounds(a: int, m: int, s: int)
    requires
        a >= 0,
        m >= 0,
        s > 0,
    ensures
        0 <= share(a, m, s),
        share(a, m, s) * s <= a * m,
        m <= s ==> share(a, m, s) <= a,
{
    let q = a * m / s;
    assert(0 <= a * m) by (nonlinear_arith)
        requires a >= 0, m >= 0;
    assert(q * s <= a * m && q >= 0) by (nonlinear_arith)
        requires q == a * m / s, s > 0, a * m >= 0;
    if m <= s {
        assert(q <= a) by (nonlinear_arith)
            requires q * s <= a * m, m <= s, s > 0, a >= 0, q >= 0;
    }
}

/// A step of at most `m` from `p` toward `t`: its squared length is at most
/// `m * m`, and on neither axis does it pass the target.
pub proof fn lemma_step_bounded(p: Point, t: Point, m: int)
    requires
        m >= 0,
    ensures
        ({
            let (nx, ny) = step_toward(p, t, m);
            &&& (nx - p.x) * (nx - p.x) + (ny - p.y) * (ny - p.y) <= m * m
            &&& between(p.x as int, nx, t.x as int)
            &&& between(p.y as int, ny, t.y as int)
        }),
{
    let dx = t.x - p.x;
    let dy = t.y - p.y;
    let n = dx * dx + dy * dy;
    assert(n >= 0) by (nonlinear_arith)
        requires n == dx * dx + dy * dy;
    lemma_ceil_sqrt_exists(n as nat);
    let s = root_ceil(n as nat) as int;
    assert(is_ceil_sqrt(n as nat, s as nat));
    if n > m * m {
        assert(m < s) by (nonlinear_arith)
            requires n > m * m, n <= s * s, m >= 0, s >= 0;
        let a = abs(dx);
        let b = abs(dy);
        assert(a * a == dx * dx && b * b == dy * dy) by (nonlinear_arith)
            requires a == abs(dx), b == abs(dy);
        lemma_share_bounds(a, m, s);
        lemma_share_bounds(b, m, s);
        let qa = share(a, m, s);
        let qb = share(b, m, s);
        let sq = s * s;
        let mm = m * m;
        let aa = a * a;
        let bb = b * b;
        let qaa = qa * qa;
        let qbb = qb * qb;
        assert(qa * s * (qa * s) <= a * m * (a * m)) by (nonlinear_arith)
            requires 0 <= qa * s <= a * m;
        assert(qb * s * (qb * s) <= b * m * (b * m)) by (nonlinear_arith)
            requires 0 <= qb * s <= b * m;
        assert(qa * s * (qa * s) == qaa * sq) by (nonlinear_arith)
            requires qaa == qa * qa, sq == s * s;
        assert(qb * s * (qb * s) == qbb * sq) by (nonlinear_arith)
            requires qbb == qb * qb, sq == s * s;
        assert(a * m * (a * m) == aa * mm) by (nonlinear_arith)
            requires aa == a * a, mm == m * m;
        assert(b * m * (b * m) == bb * mm) by (nonlinear_arith)
            requires bb == b * b, mm == m * m;
        assert((aa + bb) * mm <= sq * mm) by (nonlinear_arith)
            requires aa + bb <= sq, mm >= 0;
        assert(qaa * sq + qbb * sq == (qaa + qbb) * sq) by (nonlinear_arith);
        assert(aa * mm + bb * mm == (aa + bb) * mm) by (nonlinear_arith);
        assert(sq > 0) by (nonlinear_arith)
            requires s > 0, sq == s * s;
        assert(qaa + qbb <= mm) by (nonlinear_arith)
            requires (qaa + qbb) * sq <= sq * mm, sq > 0;
        let sx = signed_share(dx, m, s);
        let sy = signed_share(dy, m, s);
        assert(sx * sx == qa * qa && sy * sy == qb * qb) by (nonlinear_arith)
            requires
                sx == qa || sx == -qa,
                sy == qb || sy == -qb;
    }
}

/// One step of at most `m` from `p` toward `t`, never passing the target on
/// either axis; with `p == t` it stays put.
pub fn step_to(p: Point, t: Point, m: i64) -> (r: Point)
    requires
        in_field(p),
        in_field(t),
        0 <= m <= FIELD,
    ensures
        step_toward(p, t, m as int) == (r.x as int, r.y as int),
        in_field(r),
{
    let dx: i64 = t.x - p.x;
    let dy: i64 = t.y - p.y;
    assert(0 <= dx * dx <= 0x4000_0000_0000_0000 && 0 <= dy * dy <= 0x4000_0000_0000_0000)
        by (nonlinear_arith)
        requires -0x8000_0000 <= dx <= 0x8000_0000, -0x8000_0000 <= dy <= 0x8000_0000;
    let xx: i128 = (dx as i128) * (dx as i128);
    let yy: i128 = (dy as i128) * (dy as i128);
    let n: i128 = xx + yy;
    assert(n <= 0x8000_0000_0000_0000) by (nonlinear_arith)
        requires
            n == dx * dx + dy * dy,
            -2 * FIELD <= dx <= 2 * FIELD,
            -2 * FIELD <= dy <= 2 * FIELD;
    assert(0 <= n) by (nonlinear_arith)
        requires n == dx * dx + dy * dy;
    let s: u64 = if n == 0x8000_0000_0000_0000i128 {
        // (2^31)^2 * 2 lies between 3037000499^2 and 3037000500^2
        assert(3037000499nat * 3037000499nat < n && n <= 3037000500nat * 3037000500nat);
        3037000500
    } else {
        ceil_sqrt(n as u64)
    };
    proof {
        lemma_root_ceil(n as nat, s as nat);
        lemma_step_bounded(p, t, m as int);
    }
    assert(0 <= m * m <= 0x4000_0000_0000_0000) by (nonlinear_arith)
        requires 0 <= m <= 0x8000_0000;
    let mm: i128 = (m as i128) * (m as i128);
    if n <= mm {
        return t;
    }
    assert(s > 0) by (nonlinear_arith) requires n <= (s as int) * (s as int), n > 0;
    let ax: i128 = if dx < 0 { -(dx as i128) } else { dx as i128 };
    let ay: i128 = if dy < 0 { -(dy as i128) } else { dy as i128 };
    assert(ax * m <= 2 * FIELD * FIELD && ay * m <= 2 * FIELD * FIELD) by (nonlinear_arith)
        requires 0 <= ax <= 2 * FIELD, 0 <= ay <= 2 * FIELD, 0 <= m <= FIELD;
    let qx: i128 = ax * (m as i128) / (s as i128);
    let qy: i128 = ay * (m as i128) / (s as i128);
    let mx: i128 = if dx < 0 { -qx } else { qx };
    let my: i128 = if dy < 0 { -qy } else { qy };
    assert(mx == signed_share(dx as int, m as int, s as int));
    assert(my == signed_share(dy as int, m as int, s as int));
    Point { x: (p.x as i128 + mx) as i64, y: (p.y as i128 + my) as i64 }
}

} // verus!
