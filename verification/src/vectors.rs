use vstd::prelude::*;
use vstd::arithmetic::div_mod::{lemma_div_is_ordered, lemma_div_multiples_vanish};
use vstd::math::abs;

verus! {

/// Scale of the fixed-point world coordinates: one world unit is `SCALE`
/// coordinate steps, so a step is one millionth of a unit.
pub const SCALE: i64 = 1_000_000;

/// A plane vector in fixed-point world coordinates (see `SCALE`).
#[derive(Clone, Copy, PartialEq, Eq, Structural, Debug)]
pub struct Vector2 {
    pub x: i64,
    pub y: i64,
}

/// A space vector in fixed-point world coordinates (see `SCALE`).
#[derive(Clone, Copy, PartialEq, Eq, Structural, Debug)]
pub struct Vector3 {
    pub x: i64,
    pub y: i64,
    pub z: i64,
}

/// The squared magnitude of a plane vector, as unbounded arithmetic.
pub open spec fn spec_sqr2(v: Vector2) -> int {
    v.x * v.x + v.y * v.y
}

/// The squared magnitude of a space vector, as unbounded arithmetic.
pub open spec fn spec_sqr3(v: Vector3) -> int {
    v.x * v.x + v.y * v.y + v.z * v.z
}

/// `r` is the integer square root of `n`: the largest integer whose
/// square does not exceed `n`.
pub open spec fn is_isqrt(n: int, r: int) -> bool {
    0 <= r && r * r <= n && n < (r + 1) * (r + 1)
}

/// The integer square root of `n` (meaningful for `n >= 0`;
/// `lemma_isqrt_exists` discharges the choice).
pub open spec fn spec_isqrt(n: int) -> int {
    choose|r: int| is_isqrt(n, r)
}

/// Two integer square roots of the same number are equal.
pub proof fn lemma_isqrt_unique(n: int, r1: int, r2: int)
    requires
        is_isqrt(n, r1),
        is_isqrt(n, r2),
    ensures
        r1 == r2,
{
    assert(r1 == r2) by (nonlinear_arith)
        requires
            0 <= r1,
            r1 * r1 <= n,
            n < (r1 + 1) * (r1 + 1),
            0 <= r2,
            r2 * r2 <= n,
            n < (r2 + 1) * (r2 + 1),
    ;
}

/// Every nonnegative integer has an integer square root.
pub proof fn lemma_isqrt_exists(n: int)
    requires
        n >= 0,
    ensures
        is_isqrt(n, spec_isqrt(n)),
    decreases n,
{
    if n == 0 {
        assert(is_isqrt(0, 0));
    } else {
        lemma_isqrt_exists(n - 1);
        let r = spec_isqrt(n - 1);
        if (r + 1) * (r + 1) <= n {
            assert(is_isqrt(n, r + 1)) by (nonlinear_arith)
                requires
                    0 <= r,
                    n - 1 < (r + 1) * (r + 1),
                    (r + 1) * (r + 1) <= n,
            ;
        } else {
            assert(is_isqrt(n, r));
        }
    }
    assert(exists|r: int| is_isqrt(n, r));
}

/// `spec_isqrt` returns any witness of `is_isqrt`.
pub proof fn lemma_isqrt_is(n: int, r: int)
    requires
        is_isqrt(n, r),
    ensures
        spec_isqrt(n) == r,
{
    assert(exists|x: int| is_isqrt(n, x));
    lemma_isqrt_unique(n, r, spec_isqrt(n));
}

/// Integer division that rounds toward zero, as the executable
/// arithmetic here computes it.
pub open spec fn div_trunc(a: int, b: int) -> int
    recommends
        b != 0,
{
    let q = abs(a) as int / abs(b) as int;
    if (0 <= a) == (0 <= b) {
        q
    } else {
        -q
    }
}

/// The integer square root, by bisection.
pub fn isqrt_u128(n: u128) -> (r: u64)
    ensures
        is_isqrt(n as int, r as int),
        r as int == spec_isqrt(n as int),
{
    let mut lo: u128 = 0;
    let mut hi: u128 = 0x1_0000_0000_0000_0000;
    proof {
        assert(n < hi * hi) by (nonlinear_arith)
            requires
                n <= u128::MAX,
                hi == 0x1_0000_0000_0000_0000,
        ;
    }
    while lo + 1 < hi
        invariant
            lo < hi,
            hi <= 0x1_0000_0000_0000_0000,
            lo * lo <= n,
            n < hi * hi,
        decreases hi - lo,
    {
        let mid: u128 = lo + (hi - lo) / 2;
        proof {
            assert(lo < mid < hi);
            assert(mid * mid <= (hi - 1) * (hi - 1)) by (nonlinear_arith)
                requires
                    0 <= mid,
                    mid <= hi - 1,
            ;
            assert((hi - 1) * (hi - 1) <= u128::MAX) by (nonlinear_arith)
                requires
                    0 < hi <= 0x1_0000_0000_0000_0000,
            ;
        }
        if mid * mid <= n {
            lo = mid;
        } else {
            hi = mid;
        }
    }
    proof {
        assert(hi == lo + 1);
        assert(is_isqrt(n as int, lo as int));
        lemma_isqrt_is(n as int, lo as int);
    }
    lo as u64
}

/// The absolute value of an `i64`, widened so the minimum is covered.
fn abs_u64(a: i64) -> (r: u64)
    ensures
        r as int == abs(a as int),
{
    if a >= 0 {
        a as u64
    } else {
        (-(a as i128)) as u64
    }
}

/// `div_trunc(a * SCALE, m)` stays within one scaled unit when `|a| <= m`.
pub proof fn lemma_scaled_div_bounded(a: int, m: int)
    requires
        1 <= m,
        -m <= a <= m,
    ensures
        -SCALE <= div_trunc(a * SCALE, m) <= SCALE,
        0 <= a ==> div_trunc(a * SCALE, m) == (a * SCALE) / m,
{
    let p = a * SCALE;
    assert(abs(p) == abs(a) * SCALE) by (nonlinear_arith)
        requires
            p == a * SCALE,
    ;
    assert(abs(a) * SCALE <= m * SCALE) by (nonlinear_arith)
        requires
            abs(a) <= m,
            SCALE > 0,
    ;
    lemma_div_is_ordered(abs(a) as int * SCALE, m * SCALE, m);
    lemma_div_multiples_vanish(SCALE as int, m);
    assert(m * SCALE == SCALE * m) by (nonlinear_arith);
    assert(abs(p) as int / m <= SCALE);
    if 0 <= a {
        assert(div_trunc(p, m) == abs(p) as int / m);
        assert(abs(p) as int / m >= 0) by {
            vstd::arithmetic::div_mod::lemma_div_pos_is_pos(abs(p) as int, m);
        }
    }
}

/// `div_trunc(a * SCALE, m)` computed on magnitudes; used by normalization.
fn scaled_div(a: i64, m: u64) -> (r: i64)
    requires
        m >= 1,
        -(m as int) <= a as int <= m as int,
    ensures
        r as int == div_trunc(a as int * SCALE, m as int),
        -SCALE <= r <= SCALE,
{
    proof {
        lemma_scaled_div_bounded(a as int, m as int);
    }
    let aa: u64 = abs_u64(a);
    let q: u128 = (aa as u128 * (SCALE as u128)) / (m as u128);
    proof {
        assert(aa as int * SCALE == abs(a as int * SCALE)) by (nonlinear_arith)
            requires
                aa == abs(a as int),
                SCALE > 0,
        ;
        assert(q <= SCALE);
    }
    if a >= 0 {
        q as i64
    } else {
        (-(q as i128)) as i64
    }
}

/// The normalization of a plane vector: the zero vector stays zero
/// (the executable guard against a zero magnitude), any other vector is
/// divided by its magnitude, leaving a vector of about unit length.
pub open spec fn spec_normalized2(v: Vector2) -> Vector2 {
    let m = spec_isqrt(spec_sqr2(v));
    if m == 0 {
        Vector2 { x: 0, y: 0 }
    } else {
        Vector2 { x: div_trunc(v.x * SCALE, m) as i64, y: div_trunc(v.y * SCALE, m) as i64 }
    }
}

/// The normalization of a space vector, as `spec_normalized2`.
pub open spec fn spec_normalized3(v: Vector3) -> Vector3 {
    let m = spec_isqrt(spec_sqr3(v));
    if m == 0 {
        Vector3 { x: 0, y: 0, z: 0 }
    } else {
        Vector3 {
            x: div_trunc(v.x * SCALE, m) as i64,
            y: div_trunc(v.y * SCALE, m) as i64,
            z: div_trunc(v.z * SCALE, m) as i64,
        }
    }
}

/// Each component of a normalized plane vector lies within one scaled unit.
pub proof fn lemma_normalized2_bounded(v: Vector2)
    ensures
        -SCALE <= spec_normalized2(v).x <= SCALE,
        -SCALE <= spec_normalized2(v).y <= SCALE,
{
    let sq = spec_sqr2(v);
    assert(sq >= 0) by (nonlinear_arith)
        requires
            sq == v.x * v.x + v.y * v.y,
    ;
    lemma_isqrt_exists(sq);
    let m = spec_isqrt(sq);
    if m != 0 {
        lemma_component_within_root2(v);
        lemma_scaled_div_bounded(v.x as int, m);
        lemma_scaled_div_bounded(v.y as int, m);
    }
}

/// Each component of a plane vector is bounded by the integer square
/// root of the squared magnitude.
proof fn lemma_component_within_root2(v: Vector2)
    ensures
        -spec_isqrt(spec_sqr2(v)) <= v.x as int <= spec_isqrt(spec_sqr2(v)),
        -spec_isqrt(spec_sqr2(v)) <= v.y as int <= spec_isqrt(spec_sqr2(v)),
{
    let sq = spec_sqr2(v);
    assert(sq >= 0) by (nonlinear_arith)
        requires
            sq == v.x * v.x + v.y * v.y,
    ;
    lemma_isqrt_exists(sq);
    let m = spec_isqrt(sq);
    assert(-m <= v.x as int <= m && -m <= v.y as int <= m) by (nonlinear_arith)
        requires
            0 <= m,
            v.x * v.x + v.y * v.y < (m + 1) * (m + 1),
    ;
}

/// Each component of a space vector is bounded by the integer square
/// root of the squared magnitude.
proof fn lemma_component_within_root3(v: Vector3)
    ensures
        -spec_isqrt(spec_sqr3(v)) <= v.x as int <= spec_isqrt(spec_sqr3(v)),
        -spec_isqrt(spec_sqr3(v)) <= v.y as int <= spec_isqrt(spec_sqr3(v)),
        -spec_isqrt(spec_sqr3(v)) <= v.z as int <= spec_isqrt(spec_sqr3(v)),
{
    let sq = spec_sqr3(v);
    assert(sq >= 0) by (nonlinear_arith)
        requires
            sq == v.x * v.x + v.y * v.y + v.z * v.z,
    ;
    lemma_isqrt_exists(sq);
    let m = spec_isqrt(sq);
    assert(-m <= v.x as int <= m && -m <= v.y as int <= m && -m <= v.z as int <= m)
        by (nonlinear_arith)
        requires
            0 <= m,
            v.x * v.x + v.y * v.y + v.z * v.z < (m + 1) * (m + 1),
    ;
}

/// `div_trunc(a * b, d)` computed on magnitudes, with the sign applied last.
fn mul_div_trunc(a: i64, b: i64, d: i64) -> (r: i64)
    requires
        d != 0,
        i64::MIN as int <= div_trunc(a as int * b as int, d as int) <= i64::MAX as int,
    ensures
        r as int == div_trunc(a as int * b as int, d as int),
{
    let aa: u64 = abs_u64(a);
    let ab: u64 = abs_u64(b);
    let ad: u64 = abs_u64(d);
    proof {
        assert(aa as int * ab as int <= 0x8000_0000_0000_0000 * 0x8000_0000_0000_0000)
            by (nonlinear_arith)
            requires
                0 <= aa <= 0x8000_0000_0000_0000,
                0 <= ab <= 0x8000_0000_0000_0000,
        ;
    }
    let q: u128 = (aa as u128 * ab as u128) / (ad as u128);
    let product_nonneg: bool = (a >= 0) == (b >= 0) || a == 0 || b == 0;
    proof {
        assert(aa as int * ab as int == abs(a as int * b as int)) by (nonlinear_arith)
            requires
                aa == abs(a as int),
                ab == abs(b as int),
        ;
        assert((a as int * b as int >= 0) == ((a >= 0) == (b >= 0) || a == 0 || b == 0))
            by (nonlinear_arith)
        ;
        assert(q == abs(a as int * b as int) as int / abs(d as int) as int);
    }
    if product_nonneg == (d >= 0) {
        q as i64
    } else {
        (-(q as i128)) as i64
    }
}

/// The componentwise sum of a sequence of plane vectors, as unbounded
/// arithmetic.
pub open spec fn spec_sum2(s: Seq<Vector2>) -> (int, int)
    decreases s.len(),
{
    if s.len() == 0 {
        (0, 0)
    } else {
        let p = spec_sum2(s.drop_last());
        (p.0 + s.last().x, p.1 + s.last().y)
    }
}

/// The componentwise sum of a sequence of space vectors, as unbounded
/// arithmetic.
pub open spec fn spec_sum3(s: Seq<Vector3>) -> (int, int, int)
    decreases s.len(),
{
    if s.len() == 0 {
        (0, 0, 0)
    } else {
        let p = spec_sum3(s.drop_last());
        (p.0 + s.last().x, p.1 + s.last().y, p.2 + s.last().z)
    }
}

/// The componentwise sum of a sequence of plane vectors fits the
/// coordinate type.
pub open spec fn sum2_in_range(s: Seq<Vector2>) -> bool {
    &&& i64::MIN as int <= spec_sum2(s).0 <= i64::MAX as int
    &&& i64::MIN as int <= spec_sum2(s).1 <= i64::MAX as int
}

/// The componentwise sum of a sequence of space vectors fits the
/// coordinate type.
pub open spec fn sum3_in_range(s: Seq<Vector3>) -> bool {
    &&& i64::MIN as int <= spec_sum3(s).0 <= i64::MAX as int
    &&& i64::MIN as int <= spec_sum3(s).1 <= i64::MAX as int
    &&& i64::MIN as int <= spec_sum3(s).2 <= i64::MAX as int
}

/// A plane vector multiplied by a scaled factor, rounded toward zero.
pub open spec fn spec_mul2(v: Vector2, k: i64) -> Vector2 {
    Vector2 {
        x: div_trunc(v.x * k, SCALE as int) as i64,
        y: div_trunc(v.y * k, SCALE as int) as i64,
    }
}

/// A space vector multiplied by a scaled factor, rounded toward zero.
pub open spec fn spec_mul3(v: Vector3, k: i64) -> Vector3 {
    Vector3 {
        x: div_trunc(v.x * k, SCALE as int) as i64,
        y: div_trunc(v.y * k, SCALE as int) as i64,
        z: div_trunc(v.z * k, SCALE as int) as i64,
    }
}

/// A plane vector divided by a scaled factor, rounded toward zero; a
/// zero factor yields the zero vector (the division guard).
pub open spec fn spec_div2(v: Vector2, k: i64) -> Vector2 {
    if k == 0 {
        Vector2 { x: 0, y: 0 }
    } else {
        Vector2 {
            x: div_trunc(v.x * SCALE, k as int) as i64,
            y: div_trunc(v.y * SCALE, k as int) as i64,
        }
    }
}

/// A space vector divided by a scaled factor, rounded toward zero; a
/// zero factor yields the zero vector (the division guard).
pub open spec fn spec_div3(v: Vector3, k: i64) -> Vector3 {
    if k == 0 {
        Vector3 { x: 0, y: 0, z: 0 }
    } else {
        Vector3 {
            x: div_trunc(v.x * SCALE, k as int) as i64,
            y: div_trunc(v.y * SCALE, k as int) as i64,
            z: div_trunc(v.z * SCALE, k as int) as i64,
        }
    }
}

impl Vector2 {
    pub fn new(x: i64, y: i64) -> (r: Vector2)
        ensures
            r == (Vector2 { x, y }),
    {
        Vector2 { x, y }
    }

    /// The squared magnitude, in squared coordinate steps.
    pub fn sqr_magnitude(&self) -> (r: u128)
        ensures
            r == spec_sqr2(*self),
    {
        let ax: u64 = abs_u64(self.x);
        let ay: u64 = abs_u64(self.y);
        proof {
            assert(ax as int * ax as int + ay as int * ay as int == spec_sqr2(*self))
                by (nonlinear_arith)
                requires
                    ax == abs(self.x as int),
                    ay == abs(self.y as int),
            ;
            assert(ax as int * ax as int <= 0x8000_0000_0000_0000 * 0x8000_0000_0000_0000)
                by (nonlinear_arith)
                requires
                    0 <= ax <= 0x8000_0000_0000_0000,
            ;
            assert(ay as int * ay as int <= 0x8000_0000_0000_0000 * 0x8000_0000_0000_0000)
                by (nonlinear_arith)
                requires
                    0 <= ay <= 0x8000_0000_0000_0000,
            ;
        }
        (ax as u128) * (ax as u128) + (ay as u128) * (ay as u128)
    }

    /// The magnitude, in coordinate steps, rounded down.
    pub fn magnitude(&self) -> (r: u64)
        ensures
            r as int == spec_isqrt(spec_sqr2(*self)),
    {
        let sq: u128 = self.sqr_magnitude();
        isqrt_u128(sq)
    }

    /// Divides the vector by its own magnitude; the zero vector is
    /// returned unchanged (the division guard of the vector algebra).
    pub fn normalized(self) -> (r: Vector2)
        ensures
            r == spec_normalized2(self),
    {
        let m: u64 = self.magnitude();
        if m == 0 {
            Vector2 { x: 0, y: 0 }
        } else {
            proof {
                lemma_component_within_root2(self);
            }
            Vector2 { x: scaled_div(self.x, m), y: scaled_div(self.y, m) }
        }
    }

    /// The componentwise sum of two plane vectors.
    pub fn add(self, other: Vector2) -> (r: Vector2)
        requires
            i64::MIN as int <= self.x + other.x <= i64::MAX as int,
            i64::MIN as int <= self.y + other.y <= i64::MAX as int,
        ensures
            r.x == self.x + other.x,
            r.y == self.y + other.y,
    {
        Vector2 { x: self.x + other.x, y: self.y + other.y }
    }

    /// Adds a plane vector in place.
    pub fn add_assign(&mut self, rhs: Vector2)
        requires
            i64::MIN as int <= old(self).x + rhs.x <= i64::MAX as int,
            i64::MIN as int <= old(self).y + rhs.y <= i64::MAX as int,
        ensures
            final(self).x == old(self).x + rhs.x,
            final(self).y == old(self).y + rhs.y,
    {
        self.x = self.x + rhs.x;
        self.y = self.y + rhs.y;
    }

    /// The componentwise difference of two plane vectors.
    pub fn sub(self, other: Vector2) -> (r: Vector2)
        requires
            i64::MIN as int <= self.x - other.x <= i64::MAX as int,
            i64::MIN as int <= self.y - other.y <= i64::MAX as int,
        ensures
            r.x == self.x - other.x,
            r.y == self.y - other.y,
    {
        Vector2 { x: self.x - other.x, y: self.y - other.y }
    }

    /// Subtracts a plane vector in place.
    pub fn sub_assign(&mut self, rhs: Vector2)
        requires
            i64::MIN as int <= old(self).x - rhs.x <= i64::MAX as int,
            i64::MIN as int <= old(self).y - rhs.y <= i64::MAX as int,
        ensures
            final(self).x == old(self).x - rhs.x,
            final(self).y == old(self).y - rhs.y,
    {
        self.x = self.x - rhs.x;
        self.y = self.y - rhs.y;
    }

    /// Multiplies by a scaled factor, rounding toward zero.
    pub fn mul(self, k: i64) -> (r: Vector2)
        requires
            i64::MIN as int <= div_trunc(self.x * k, SCALE as int) <= i64::MAX as int,
            i64::MIN as int <= div_trunc(self.y * k, SCALE as int) <= i64::MAX as int,
        ensures
            r == spec_mul2(self, k),
    {
        Vector2 { x: mul_div_trunc(self.x, k, SCALE), y: mul_div_trunc(self.y, k, SCALE) }
    }

    /// Divides by a scaled factor, rounding toward zero; dividing by
    /// zero yields the zero vector.
    pub fn div(self, k: i64) -> (r: Vector2)
        requires
            k != 0 ==> i64::MIN as int <= div_trunc(self.x * SCALE, k as int) <= i64::MAX as int,
            k != 0 ==> i64::MIN as int <= div_trunc(self.y * SCALE, k as int) <= i64::MAX as int,
        ensures
            r == spec_div2(self, k),
    {
        if k == 0 {
            Vector2 { x: 0, y: 0 }
        } else {
            Vector2 { x: mul_div_trunc(self.x, SCALE, k), y: mul_div_trunc(self.y, SCALE, k) }
        }
    }

    /// The componentwise sum of a slice of plane vectors.
    pub fn sum(vs: &Vec<Vector2>) -> (r: Vector2)
        requires
            forall|k: int| 0 <= k <= vs@.len() ==> sum2_in_range(#[trigger] vs@.take(k)),
        ensures
            r.x == spec_sum2(vs@).0,
            r.y == spec_sum2(vs@).1,
    {
        let mut rx: i64 = 0;
        let mut ry: i64 = 0;
        let mut i: usize = 0;
        while i < vs.len()
            invariant
                0 <= i <= vs@.len(),
                rx == spec_sum2(vs@.take(i as int)).0,
                ry == spec_sum2(vs@.take(i as int)).1,
                forall|k: int| 0 <= k <= vs@.len() ==> sum2_in_range(#[trigger] vs@.take(k)),
            decreases vs@.len() - i,
        {
            proof {
                assert(vs@.take(i as int + 1).drop_last() =~= vs@.take(i as int));
                assert(vs@.take(i as int + 1).last() == vs@[i as int]);
                assert(sum2_in_range(vs@.take(i as int + 1)));
            }
            rx = rx + vs[i].x;
            ry = ry + vs[i].y;
            i = i + 1;
        }
        proof {
            assert(vs@.take(vs@.len() as int) =~= vs@);
        }
        Vector2 { x: rx, y: ry }
    }
}

impl Vector3 {
    pub fn new(x: i64, y: i64, z: i64) -> (r: Vector3)
        ensures
            r == (Vector3 { x, y, z }),
    {
        Vector3 { x, y, z }
    }

    /// The squared magnitude, in squared coordinate steps.
    pub fn sqr_magnitude(&self) -> (r: u128)
        ensures
            r == spec_sqr3(*self),
    {
        let ax: u64 = abs_u64(self.x);
        let ay: u64 = abs_u64(self.y);
        let az: u64 = abs_u64(self.z);
        proof {
            assert(ax as int * ax as int + ay as int * ay as int + az as int * az as int
                == spec_sqr3(*self)) by (nonlinear_arith)
                requires
                    ax == abs(self.x as int),
                    ay == abs(self.y as int),
                    az == abs(self.z as int),
            ;
            assert(ax as int * ax as int <= 0x8000_0000_0000_0000 * 0x8000_0000_0000_0000)
                by (nonlinear_arith)
                requires
                    0 <= ax <= 0x8000_0000_0000_0000,
            ;
            assert(ay as int * ay as int <= 0x8000_0000_0000_0000 * 0x8000_0000_0000_0000)
                by (nonlinear_arith)
                requires
                    0 <= ay <= 0x8000_0000_0000_0000,
            ;
            assert(az as int * az as int <= 0x8000_0000_0000_0000 * 0x8000_0000_0000_0000)
                by (nonlinear_arith)
                requires
                    0 <= az <= 0x8000_0000_0000_0000,
            ;
        }
        (ax as u128) * (ax as u128) + (ay as u128) * (ay as u128) + (az as u128) * (az as u128)
    }

    /// The magnitude, in coordinate steps, rounded down.
    pub fn magnitude(&self) -> (r: u64)
        ensures
            r as int == spec_isqrt(spec_sqr3(*self)),
    {
        let sq: u128 = self.sqr_magnitude();
        isqrt_u128(sq)
    }

    /// Divides the vector by its own magnitude; the zero vector is
    /// returned unchanged (the division guard of the vector algebra).
    pub fn normalized(self) -> (r: Vector3)
        ensures
            r == spec_normalized3(self),
    {
        let m: u64 = self.magnitude();
        if m == 0 {
            Vector3 { x: 0, y: 0, z: 0 }
        } else {
            proof {
                lemma_component_within_root3(self);
            }
            Vector3 {
                x: scaled_div(self.x, m),
                y: scaled_div(self.y, m),
                z: scaled_div(self.z, m),
            }
        }
    }

    /// The componentwise sum of two space vectors.
    pub fn add(self, other: Vector3) -> (r: Vector3)
        requires
            i64::MIN as int <= self.x + other.x <= i64::MAX as int,
            i64::MIN as int <= self.y + other.y <= i64::MAX as int,
            i64::MIN as int <= self.z + other.z <= i64::MAX as int,
        ensures
            r.x == self.x + other.x,
            r.y == self.y + other.y,
            r.z == self.z + other.z,
    {
        Vector3 { x: self.x + other.x, y: self.y + other.y, z: self.z + other.z }
    }

    /// Adds a space vector in place.
    pub fn add_assign(&mut self, rhs: Vector3)
        requires
            i64::MIN as int <= old(self).x + rhs.x <= i64::MAX as int,
            i64::MIN as int <= old(self).y + rhs.y <= i64::MAX as int,
            i64::MIN as int <= old(self).z + rhs.z <= i64::MAX as int,
        ensures
            final(self).x == old(self).x + rhs.x,
            final(self).y == old(self).y + rhs.y,
            final(self).z == old(self).z + rhs.z,
    {
        self.x = self.x + rhs.x;
        self.y = self.y + rhs.y;
        self.z = self.z + rhs.z;
    }

    /// The componentwise difference of two space vectors.
    pub fn sub(self, other: Vector3) -> (r: Vector3)
        requires
            i64::MIN as int <= self.x - other.x <= i64::MAX as int,
            i64::MIN as int <= self.y - other.y <= i64::MAX as int,
            i64::MIN as int <= self.z - other.z <= i64::MAX as int,
        ensures
            r.x == self.x - other.x,
            r.y == self.y - other.y,
            r.z == self.z - other.z,
    {
        Vector3 { x: self.x - other.x, y: self.y - other.y, z: self.z - other.z }
    }

    /// Subtracts a space vector in place.
    pub fn sub_assign(&mut self, rhs: Vector3)
        requires
            i64::MIN as int <= old(self).x - rhs.x <= i64::MAX as int,
            i64::MIN as int <= old(self).y - rhs.y <= i64::MAX as int,
            i64::MIN as int <= old(self).z - rhs.z <= i64::MAX as int,
        ensures
            final(self).x == old(self).x - rhs.x,
            final(self).y == old(self).y - rhs.y,
            final(self).z == old(self).z - rhs.z,
    {
        self.x = self.x - rhs.x;
        self.y = self.y - rhs.y;
        self.z = self.z - rhs.z;
    }

    /// Multiplies by a scaled factor, rounding toward zero.
    pub fn mul(self, k: i64) -> (r: Vector3)
        requires
            i64::MIN as int <= div_trunc(self.x * k, SCALE as int) <= i64::MAX as int,
            i64::MIN as int <= div_trunc(self.y * k, SCALE as int) <= i64::MAX as int,
            i64::MIN as int <= div_trunc(self.z * k, SCALE as int) <= i64::MAX as int,
        ensures
            r == spec_mul3(self, k),
    {
        Vector3 {
            x: mul_div_trunc(self.x, k, SCALE),
            y: mul_div_trunc(self.y, k, SCALE),
            z: mul_div_trunc(self.z, k, SCALE),
        }
    }

    /// Divides by a scaled factor, rounding toward zero; dividing by
    /// zero yields the zero vector.
    pub fn div(self, k: i64) -> (r: Vector3)
        requires
            k != 0 ==> i64::MIN as int <= div_trunc(self.x * SCALE, k as int) <= i64::MAX as int,
            k != 0 ==> i64::MIN as int <= div_trunc(self.y * SCALE, k as int) <= i64::MAX as int,
            k != 0 ==> i64::MIN as int <= div_trunc(self.z * SCALE, k as int) <= i64::MAX as int,
        ensures
            r == spec_div3(self, k),
    {
        if k == 0 {
            Vector3 { x: 0, y: 0, z: 0 }
        } else {
            Vector3 {
                x: mul_div_trunc(self.x, SCALE, k),
                y: mul_div_trunc(self.y, SCALE, k),
                z: mul_div_trunc(self.z, SCALE, k),
            }
        }
    }

    /// The componentwise sum of a slice of space vectors.
    pub fn sum(vs: &Vec<Vector3>) -> (r: Vector3)
        requires
            forall|k: int| 0 <= k <= vs@.len() ==> sum3_in_range(#[trigger] vs@.take(k)),
        ensures
            r.x == spec_sum3(vs@).0,
            r.y == spec_sum3(vs@).1,
            r.z == spec_sum3(vs@).2,
    {
        let mut rx: i64 = 0;
        let mut ry: i64 = 0;
        let mut rz: i64 = 0;
        let mut i: usize = 0;
        while i < vs.len()
            invariant
                0 <= i <= vs@.len(),
                rx == spec_sum3(vs@.take(i as int)).0,
                ry == spec_sum3(vs@.take(i as int)).1,
                rz == spec_sum3(vs@.take(i as int)).2,
                forall|k: int| 0 <= k <= vs@.len() ==> sum3_in_range(#[trigger] vs@.take(k)),
            decreases vs@.len() - i,
        {
            proof {
                assert(vs@.take(i as int + 1).drop_last() =~= vs@.take(i as int));
                assert(vs@.take(i as int + 1).last() == vs@[i as int]);
                assert(sum3_in_range(vs@.take(i as int + 1)));
            }
            rx = rx + vs[i].x;
            ry = ry + vs[i].y;
            rz = rz + vs[i].z;
            i = i + 1;
        }
        proof {
            assert(vs@.take(vs@.len() as int) =~= vs@);
        }
        Vector3 { x: rx, y: ry, z: rz }
    }
}

} // verus!
