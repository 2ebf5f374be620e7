use vstd::arithmetic::div_mod::{
    lemma_div_is_ordered, lemma_div_multiples_vanish, lemma_div_of0,
};
use vstd::prelude::*;

verus! {

/// Fixed-point scale: the integer standing for the real number 1.0 in
/// normal vectors and rotation-matrix entries.
pub const NORM_ONE: i64 = 1024;

/// Squared length of an exactly unit fixed-point vector.
pub const NORM_SQ_ONE: i64 = 1024 * 1024;

/// Half-width of the band around [`NORM_SQ_ONE`] within which a squared
/// length still counts as unit.
pub const NORM_TOL: i64 = 8 * 1024;

/// Bound on the magnitude of world-frame position components.
pub const POS_LIMIT: i64 = 0x4000_0000;

/// Bound on camera-frame sample positions, chosen so that a rigid transform
/// of a sample stays within [`POS_LIMIT`].
pub const SAMPLE_POS_LIMIT: i64 = 0x800_0000;

/// Bound on surfel radii.
pub const RADIUS_LIMIT: i64 = 0x4000_0000;

/// Bound on the components of a vector that still counts as a normal.
pub const NORMAL_COMP_LIMIT: i64 = 2 * 1024;

/// Cap on fused confidence weights.
pub const CONF_CAP: u32 = 0x10_0000;

/// Largest magnitude accepted by [`mul_i128`].
pub const MUL_ARG_LIMIT: i128 = 0x4000_0000_0000_0000;

/// Largest magnitude accepted by [`div_trunc_i128`].
pub const DIV_ARG_LIMIT: i128 = 0x10_0000_0000_0000_0000_0000_0000;

/// Largest argument accepted by [`isqrt64`].
pub const SQRT_ARG_LIMIT: u64 = 0x4000_0000_0000_0000;

/// A 3-vector of fixed-point coordinates.
#[derive(Debug, Clone, Copy, PartialEq, Eq, Structural)]
pub struct Vec3 {
    pub x: i64,
    pub y: i64,
    pub z: i64,
}

pub open spec fn dot3(a: Vec3, b: Vec3) -> int {
    a.x * b.x + a.y * b.y + a.z * b.z
}

pub open spec fn norm_sq3(a: Vec3) -> int {
    dot3(a, a)
}

pub open spec fn dist_sq3(a: Vec3, b: Vec3) -> int {
    (a.x - b.x) * (a.x - b.x) + (a.y - b.y) * (a.y - b.y) + (a.z - b.z) * (a.z - b.z)
}

pub open spec fn bounded3(a: Vec3, lim: int) -> bool {
    &&& -lim <= a.x <= lim
    &&& -lim <= a.y <= lim
    &&& -lim <= a.z <= lim
}

/// Unit length within tolerance: the squared norm lies in the band
/// `NORM_SQ_ONE ± NORM_TOL`, and each component is small enough for the
/// arithmetic of the engine.
pub open spec fn is_unit3(n: Vec3) -> bool {
    &&& NORM_SQ_ONE - NORM_TOL <= norm_sq3(n) <= NORM_SQ_ONE + NORM_TOL
    &&& bounded3(n, NORMAL_COMP_LIMIT as int)
}

/// Truncating (round-toward-zero) division, matching machine division on
/// magnitudes; `b` must be positive.
pub open spec fn div_trunc(a: int, b: int) -> int {
    if a >= 0 {
        a / b
    } else {
        -((-a) / b)
    }
}

/// Confidence-weighted average of two scalars, truncated toward zero.
pub open spec fn wavg_int(c: int, a: int, nc: int, b: int) -> int {
    div_trunc(c * a + nc * b, c + nc)
}

pub open spec fn wavg3_spec(c: int, a: Vec3, nc: int, b: Vec3) -> Vec3 {
    Vec3 {
        x: wavg_int(c, a.x as int, nc, b.x as int) as i64,
        y: wavg_int(c, a.y as int, nc, b.y as int) as i64,
        z: wavg_int(c, a.z as int, nc, b.z as int) as i64,
    }
}

impl Vec3 {
    pub fn new(x: i64, y: i64, z: i64) -> (r: Vec3)
        ensures
            r == (Vec3 { x, y, z }),
    {
        Vec3 { x, y, z }
    }

    pub fn dot(&self, o: &Vec3) -> (r: i128)
        requires
            bounded3(*self, POS_LIMIT as int),
            bounded3(*o, POS_LIMIT as int),
        ensures
            r as int == dot3(*self, *o),
    {
        proof {
            lemma_mul_le(self.x as int, o.x as int, POS_LIMIT as int, POS_LIMIT as int);
            lemma_mul_le(self.y as int, o.y as int, POS_LIMIT as int, POS_LIMIT as int);
            lemma_mul_le(self.z as int, o.z as int, POS_LIMIT as int, POS_LIMIT as int);
        }
        let px = mul_i128(self.x as i128, o.x as i128);
        let py = mul_i128(self.y as i128, o.y as i128);
        let pz = mul_i128(self.z as i128, o.z as i128);
        px + py + pz
    }

    pub fn norm_sq(&self) -> (r: i128)
        requires
            bounded3(*self, POS_LIMIT as int),
        ensures
            r as int == norm_sq3(*self),
            r >= 0,
    {
        let r = self.dot(self);
        proof {
            lemma_sq_nonneg(self.x as int);
            lemma_sq_nonneg(self.y as int);
            lemma_sq_nonneg(self.z as int);
        }
        r
    }

    pub fn dist_sq(&self, o: &Vec3) -> (r: i128)
        requires
            bounded3(*self, POS_LIMIT as int),
            bounded3(*o, POS_LIMIT as int),
        ensures
            r as int == dist_sq3(*self, *o),
            r >= 0,
    {
        let dx = (self.x as i128) - (o.x as i128);
        let dy = (self.y as i128) - (o.y as i128);
        let dz = (self.z as i128) - (o.z as i128);
        proof {
            lemma_sq_nonneg(dx as int);
            lemma_sq_nonneg(dy as int);
            lemma_sq_nonneg(dz as int);
            lemma_mul_le(dx as int, dx as int, 2 * POS_LIMIT as int, 2 * POS_LIMIT as int);
            lemma_mul_le(dy as int, dy as int, 2 * POS_LIMIT as int, 2 * POS_LIMIT as int);
            lemma_mul_le(dz as int, dz as int, 2 * POS_LIMIT as int, 2 * POS_LIMIT as int);
        }
        let sx = mul_i128(dx, dx);
        let sy = mul_i128(dy, dy);
        let sz = mul_i128(dz, dz);
        sx + sy + sz
    }

    /// Runtime check for [`is_unit3`].
    pub fn is_unit(&self) -> (r: bool)
        requires
            bounded3(*self, POS_LIMIT as int),
        ensures
            r == is_unit3(*self),
    {
        let s = self.norm_sq();
        let lo = (NORM_SQ_ONE - NORM_TOL) as i128;
        let hi = (NORM_SQ_ONE + NORM_TOL) as i128;
        let lim = NORMAL_COMP_LIMIT;
        lo <= s && s <= hi && -lim <= self.x && self.x <= lim && -lim <= self.y && self.y <= lim
            && -lim <= self.z && self.z <= lim
    }
}

proof fn lemma_sq_nonneg(a: int)
    ensures
        a * a >= 0,
{
    assert(a * a >= 0) by (nonlinear_arith);
}

/// Machine multiplication of bounded 128-bit integers.
pub fn mul_i128(a: i128, b: i128) -> (r: i128)
    requires
        -MUL_ARG_LIMIT <= a <= MUL_ARG_LIMIT,
        -MUL_ARG_LIMIT <= b <= MUL_ARG_LIMIT,
    ensures
        r as int == (a as int) * (b as int),
{
    proof {
        lemma_mul_le(a as int, b as int, MUL_ARG_LIMIT as int, MUL_ARG_LIMIT as int);
    }
    a * b
}

/// Truncating division on machine integers; the quotient of `a` by `b`
/// rounded toward zero.
pub fn div_trunc_i128(a: i128, b: i128) -> (r: i128)
    requires
        b > 0,
        -DIV_ARG_LIMIT <= a <= DIV_ARG_LIMIT,
    ensures
        r as int == div_trunc(a as int, b as int),
        -DIV_ARG_LIMIT <= r <= DIV_ARG_LIMIT,
{
    if a >= 0 {
        let q = (a as u128) / (b as u128);
        proof {
            lemma_div_le_self(a as int, b as int);
        }
        q as i128
    } else {
        let m = (-a) as u128;
        let q = m / (b as u128);
        proof {
            lemma_div_le_self(m as int, b as int);
        }
        -(q as i128)
    }
}

/// For nonnegative `a` and positive `b`, the quotient is at most `a`.
pub proof fn lemma_div_le_self(a: int, b: int)
    requires
        a >= 0,
        b >= 1,
    ensures
        a / b <= a,
        a / b >= 0,
{
    lemma_div_is_ordered(0, a, b);
    lemma_div_of0(b);
    vstd::arithmetic::div_mod::lemma_div_is_ordered_by_denominator(a, 1, b);
    vstd::arithmetic::div_mod::lemma_div_basics(a);
}

/// Products are bounded by the product of the bounds.
pub proof fn lemma_mul_le(x: int, y: int, bx: int, by: int)
    requires
        -bx <= x <= bx,
        -by <= y <= by,
        0 <= bx,
        0 <= by,
    ensures
        -(bx * by) <= x * y <= bx * by,
{
    assert(-(bx * by) <= x * y <= bx * by) by (nonlinear_arith)
        requires
            -bx <= x <= bx,
            -by <= y <= by,
            0 <= bx,
            0 <= by,
    ;
}

/// The magnitude of a truncating quotient never exceeds the magnitude of
/// the dividend.
pub proof fn lemma_div_trunc_abs_le(a: int, b: int)
    requires
        b >= 1,
    ensures
        -(if a >= 0 { a } else { -a }) <= div_trunc(a, b) <= (if a >= 0 { a } else { -a }),
{
    if a >= 0 {
        lemma_div_le_self(a, b);
    } else {
        lemma_div_le_self(-a, b);
    }
}

/// A confidence-weighted average lies between its two inputs.
pub proof fn lemma_wavg_bounds(c: int, a: int, nc: int, b: int)
    requires
        c >= 1,
        nc >= 1,
    ensures
        a <= b ==> a <= wavg_int(c, a, nc, b) <= b,
        b <= a ==> b <= wavg_int(c, a, nc, b) <= a,
{
    let lo = if a <= b { a } else { b };
    let hi = if a <= b { b } else { a };
    let d = c + nc;
    let s = c * a + nc * b;
    assert(d * lo <= s && s <= d * hi) by (nonlinear_arith)
        requires
            c >= 1,
            nc >= 1,
            lo <= a <= hi,
            lo <= b <= hi,
            d == c + nc,
            s == c * a + nc * b,
    ;
    lemma_div_trunc_ordered(d * lo, s, d);
    lemma_div_trunc_ordered(s, d * hi, d);
    lemma_div_trunc_multiple(lo, d);
    lemma_div_trunc_multiple(hi, d);
}

/// Truncating division preserves order for a positive divisor.
pub proof fn lemma_div_trunc_ordered(x: int, y: int, d: int)
    requires
        x <= y,
        d >= 1,
    ensures
        div_trunc(x, d) <= div_trunc(y, d),
{
    if x >= 0 {
        lemma_div_is_ordered(x, y, d);
    } else if y >= 0 {
        lemma_div_le_self(-x, d);
        lemma_div_le_self(y, d);
    } else {
        lemma_div_is_ordered(-y, -x, d);
    }
}

/// `div_trunc(d * x, d) == x` for positive `d`.
pub proof fn lemma_div_trunc_multiple(x: int, d: int)
    requires
        d >= 1,
    ensures
        div_trunc(d * x, d) == x,
{
    if x >= 0 {
        lemma_div_multiples_vanish(x, d);
    } else {
        assert(-(d * x) == d * (-x)) by (nonlinear_arith);
        lemma_div_multiples_vanish(-x, d);
    }
}

/// A dividend bounded by `b * m` has its truncating quotient bounded by `m`.
pub proof fn lemma_div_trunc_le_bound(a: int, b: int, m: int)
    requires
        b >= 1,
        m >= 0,
        -(b * m) <= a <= b * m,
    ensures
        -m <= div_trunc(a, b) <= m,
{
    lemma_div_trunc_ordered(a, b * m, b);
    lemma_div_trunc_ordered(-(b * m), a, b);
    lemma_div_trunc_multiple(m, b);
    lemma_div_trunc_multiple(-m, b);
    assert(b * -m == -(b * m)) by (nonlinear_arith);
}

/// A weighted average of a value with itself is that value.
pub proof fn lemma_wavg_same(c: int, a: int, nc: int)
    requires
        c >= 1,
        nc >= 1,
    ensures
        wavg_int(c, a, nc, a) == a,
{
    let d = c + nc;
    assert(c * a + nc * a == d * a) by (nonlinear_arith)
        requires
            d == c + nc,
    ;
    lemma_div_trunc_multiple(a, d);
}

/// Weighted average of machine scalars, with its value pinned to
/// [`wavg_int`] and bounded between the inputs.
pub fn wavg(c: u32, a: i64, nc: u32, b: i64) -> (r: i64)
    requires
        1 <= c <= CONF_CAP,
        1 <= nc <= CONF_CAP,
        -POS_LIMIT <= a <= POS_LIMIT,
        -POS_LIMIT <= b <= POS_LIMIT,
    ensures
        r as int == wavg_int(c as int, a as int, nc as int, b as int),
        a <= b ==> a <= r <= b,
        b <= a ==> b <= r <= a,
    {
    proof {
        lemma_mul_le(c as int, a as int, CONF_CAP as int, POS_LIMIT as int);
        lemma_mul_le(nc as int, b as int, CONF_CAP as int, POS_LIMIT as int);
    }
    let sa = mul_i128(c as i128, a as i128);
    let sb = mul_i128(nc as i128, b as i128);
    let s = sa + sb;
    let d = (c as i128) + (nc as i128);
    let q = div_trunc_i128(s, d);
    proof {
        lemma_wavg_bounds(c as int, a as int, nc as int, b as int);
    }
    q as i64
}

/// Weighted average of two vectors, componentwise.
pub fn wavg3(c: u32, a: &Vec3, nc: u32, b: &Vec3) -> (r: Vec3)
    requires
        1 <= c <= CONF_CAP,
        1 <= nc <= CONF_CAP,
        bounded3(*a, POS_LIMIT as int),
        bounded3(*b, POS_LIMIT as int),
    ensures
        r == wavg3_spec(c as int, *a, nc as int, *b),
        a.x <= b.x ==> a.x <= r.x <= b.x,
        b.x <= a.x ==> b.x <= r.x <= a.x,
        a.y <= b.y ==> a.y <= r.y <= b.y,
        b.y <= a.y ==> b.y <= r.y <= a.y,
        a.z <= b.z ==> a.z <= r.z <= b.z,
        b.z <= a.z ==> b.z <= r.z <= a.z,
{
    Vec3 {
        x: wavg(c, a.x, nc, b.x),
        y: wavg(c, a.y, nc, b.y),
        z: wavg(c, a.z, nc, b.z),
    }
}

/// Mathematical integer square root, defined by recursion on `x`.
pub open spec fn isqrt_spec(x: nat) -> nat
    decreases x,
{
    if x == 0 {
        0
    } else {
        let r = isqrt_spec((x - 1) as nat);
        if (r + 1) * (r + 1) <= x {
            r + 1
        } else {
            r
        }
    }
}

pub proof fn lemma_isqrt_bounds(x: nat)
    ensures
        isqrt_spec(x) * isqrt_spec(x) <= x,
        (isqrt_spec(x) + 1) * (isqrt_spec(x) + 1) > x,
    decreases x,
{
    if x > 0 {
        lemma_isqrt_bounds((x - 1) as nat);
        let r = isqrt_spec((x - 1) as nat);
        assert(r * r <= x - 1);
        assert((r + 1) * (r + 1) > x - 1);
        if (r + 1) * (r + 1) <= x {
            assert(isqrt_spec(x) == r + 1);
            assert((r + 2) * (r + 2) > x) by (nonlinear_arith)
                requires
                    (r + 1) * (r + 1) > x - 1,
                    r >= 0,
            ;
            assert((isqrt_spec(x) + 1) * (isqrt_spec(x) + 1) > x);
        } else {
            assert(isqrt_spec(x) == r);
            assert(r * r <= x);
            assert((isqrt_spec(x) + 1) * (isqrt_spec(x) + 1) > x);
        }
    } else {
        assert(isqrt_spec(0) == 0);
        assert(isqrt_spec(x) * isqrt_spec(x) <= x && (isqrt_spec(x) + 1) * (isqrt_spec(x) + 1)
            > x) by (nonlinear_arith)
            requires
                isqrt_spec(x) == 0,
                x == 0,
        ;
    }
}

/// Any integer satisfying the square-root bracketing equals `isqrt_spec`.
pub proof fn lemma_isqrt_unique(x: nat, r: nat)
    requires
        r * r <= x,
        (r + 1) * (r + 1) > x,
    ensures
        r == isqrt_spec(x),
{
    let s = isqrt_spec(x);
    lemma_isqrt_bounds(x);
    if r < s {
        assert((r + 1) * (r + 1) <= s * s) by (nonlinear_arith)
            requires
                r + 1 <= s,
                r >= 0,
        ;
    }
    if s < r {
        assert((s + 1) * (s + 1) <= r * r) by (nonlinear_arith)
            requires
                s + 1 <= r,
                s >= 0,
        ;
    }
}

/// Integer square root of a machine integer.
pub fn isqrt64(x: u64) -> (r: u64)
    requires
        x <= SQRT_ARG_LIMIT,
    ensures
        r as nat == isqrt_spec(x as nat),
        (r as int) * (r as int) <= x as int,
        (r as int + 1) * (r as int + 1) > x as int,
{
    let mut r: u64 = 0;
    loop
        invariant
            x <= SQRT_ARG_LIMIT,
            (r as int) * (r as int) <= x as int,
            r <= x,
        ensures
            (r as int) * (r as int) <= x as int,
            (r as int + 1) * (r as int + 1) > x as int,
        decreases x - r,
    {
        proof {
            lemma_mul_le(r as int + 1, r as int + 1, 0x4000_0000_0000_0001, 0x4000_0000_0000_0001);
        }
        let next = (r as u128 + 1) * (r as u128 + 1);
        if next <= x as u128 {
            proof {
                assert(r as int + 1 <= (r as int + 1) * (r as int + 1)) by (nonlinear_arith)
                    requires
                        r >= 0,
                ;
            }
            r = r + 1;
        } else {
            break;
        }
    }
    proof {
        lemma_isqrt_unique(x as nat, r as nat);
    }
    r
}

/// Rescaling of `cand` to unit length used by [`unitize_spec`].
pub open spec fn scale_to_unit(cand: Vec3, len: int) -> Vec3 {
    Vec3 {
        x: div_trunc(cand.x * (NORM_ONE as int), len) as i64,
        y: div_trunc(cand.y * (NORM_ONE as int), len) as i64,
        z: div_trunc(cand.z * (NORM_ONE as int), len) as i64,
    }
}

/// Renormalization: a candidate vector is kept as-is when already unit,
/// otherwise rescaled by its integer length; `None` when even the rescaled
/// vector misses the unit band (a degenerate candidate).
pub open spec fn unitize_opt_spec(cand: Vec3) -> Option<Vec3> {
    if is_unit3(cand) {
        Some(cand)
    } else if norm_sq3(cand) == 0 {
        None
    } else {
        let r = scale_to_unit(cand, isqrt_spec(norm_sq3(cand) as nat) as int);
        if is_unit3(r) {
            Some(r)
        } else {
            None
        }
    }
}

/// Renormalization with a fallback, used when merging normals: the fallback
/// is returned unchanged when the candidate degenerates.
pub open spec fn unitize_spec(cand: Vec3, fallback: Vec3) -> Vec3 {
    match unitize_opt_spec(cand) {
        Some(u) => u,
        None => fallback,
    }
}

/// Largest candidate component accepted by [`unitize_opt`].
pub const UNIT_CAND_LIMIT: i64 = 8192;

/// Renormalizes `cand` when possible.
pub fn unitize_opt(cand: &Vec3) -> (r: Option<Vec3>)
    requires
        bounded3(*cand, UNIT_CAND_LIMIT as int),
    ensures
        r == unitize_opt_spec(*cand),
        r is Some ==> is_unit3(r.unwrap()),
{
    if cand.is_unit() {
        return Some(*cand);
    }
    let s = cand.norm_sq();
    if s == 0 {
        return None;
    }
    assert(s <= 201326592) by (nonlinear_arith)
        requires
            bounded3(*cand, UNIT_CAND_LIMIT as int),
            s as int == norm_sq3(*cand),
    ;
    let len = isqrt64(s as u64);
    assert(len >= 1) by (nonlinear_arith)
        requires
            (len as int) * (len as int) <= s as int,
            (len as int + 1) * (len as int + 1) > s as int,
            s >= 1,
    ;
    proof {
        lemma_mul_le(cand.x as int, NORM_ONE as int, UNIT_CAND_LIMIT as int, NORM_ONE as int);
        lemma_mul_le(cand.y as int, NORM_ONE as int, UNIT_CAND_LIMIT as int, NORM_ONE as int);
        lemma_mul_le(cand.z as int, NORM_ONE as int, UNIT_CAND_LIMIT as int, NORM_ONE as int);
    }
    let sx = div_trunc_i128(mul_i128(cand.x as i128, NORM_ONE as i128), len as i128);
    let sy = div_trunc_i128(mul_i128(cand.y as i128, NORM_ONE as i128), len as i128);
    let sz = div_trunc_i128(mul_i128(cand.z as i128, NORM_ONE as i128), len as i128);
    proof {
        lemma_div_trunc_abs_le(cand.x as int * (NORM_ONE as int), len as int);
        lemma_div_trunc_abs_le(cand.y as int * (NORM_ONE as int), len as int);
        lemma_div_trunc_abs_le(cand.z as int * (NORM_ONE as int), len as int);
    }
    let r = Vec3 { x: sx as i64, y: sy as i64, z: sz as i64 };
    if r.is_unit() {
        Some(r)
    } else {
        None
    }
}

/// Renormalizes `cand`, falling back to a known unit vector when the
/// candidate degenerates.
pub fn unitize(cand: &Vec3, fallback: &Vec3) -> (r: Vec3)
    requires
        bounded3(*cand, UNIT_CAND_LIMIT as int),
        is_unit3(*fallback),
    ensures
        r == unitize_spec(*cand, *fallback),
        is_unit3(r),
{
    match unitize_opt(cand) {
        Some(u) => u,
        None => *fallback,
    }
}

} // verus!
