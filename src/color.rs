//! Color arithmetic: alpha blending of 8-bit RGB colors and color distance.
//!
//! Opacity is an integer in thousandths (`0..=ALPHA_SCALE`), and distances are
//! fixed-point numbers in units of `1 / DISTANCE_SCALE`.
use vstd::prelude::*;

verus! {

/// Opacity of a fully opaque layer, in thousandths.
pub const ALPHA_SCALE: u16 = 1000;

/// Number of distance units per unit of Euclidean RGB distance.
pub const DISTANCE_SCALE: u64 = 256;

/// An 8-bit RGB color.
#[derive(Clone, Copy, Debug, PartialEq, Eq, Structural)]
pub struct Rgb {
    pub r: u8,
    pub g: u8,
    pub b: u8,
}

impl Rgb {
    pub fn new(r: u8, g: u8, b: u8) -> (c: Rgb)
        ensures
            c == (Rgb { r, g, b }),
    {
        Rgb { r, g, b }
    }

    pub fn black() -> (c: Rgb)
        ensures
            c == black(),
    {
        Rgb { r: 0, g: 0, b: 0 }
    }
}

pub open spec fn black() -> Rgb {
    Rgb { r: 0, g: 0, b: 0 }
}

/// Opacity clamped into `[0, ALPHA_SCALE]`.
pub open spec fn clamp_alpha(alpha: int) -> int {
    if alpha < 0 {
        0
    } else if alpha > ALPHA_SCALE as int {
        ALPHA_SCALE as int
    } else {
        alpha
    }
}

/// `below * (1 - alpha) + above * alpha`, rounded to the nearest integer
/// (halves round up), with `alpha` read in thousandths.
pub open spec fn blend_channel(alpha: int, below: int, above: int) -> int {
    let a = clamp_alpha(alpha);
    (below * (ALPHA_SCALE - a) + above * a + ALPHA_SCALE / 2) / (ALPHA_SCALE as int)
}

/// The color seen when `above` is laid at opacity `alpha` over `below`.
pub open spec fn blend_spec(alpha: int, below: Rgb, above: Rgb) -> Rgb {
    Rgb {
        r: blend_channel(alpha, below.r as int, above.r as int) as u8,
        g: blend_channel(alpha, below.g as int, above.g as int) as u8,
        b: blend_channel(alpha, below.b as int, above.b as int) as u8,
    }
}

/// Squared Euclidean distance of two colors in RGB space.
pub open spec fn sq_dist(c1: Rgb, c2: Rgb) -> int {
    let dr = c1.r - c2.r;
    let dg = c1.g - c2.g;
    let db = c1.b - c2.b;
    dr * dr + dg * dg + db * db
}

/// Integer square root: the largest `r` with `r * r <= n`.
pub open spec fn isqrt(n: nat) -> nat
    decreases n,
{
    if n == 0 {
        0
    } else {
        let r = isqrt((n - 1) as nat);
        if (r + 1) * (r + 1) <= n {
            r + 1
        } else {
            r
        }
    }
}

/// Euclidean distance of two colors, rounded down to a multiple of
/// `1 / DISTANCE_SCALE` and counted in those units.
pub open spec fn dist(c1: Rgb, c2: Rgb) -> int {
    isqrt((sq_dist(c1, c2) * (DISTANCE_SCALE * DISTANCE_SCALE)) as nat) as int
}

pub proof fn lemma_isqrt_bounds(n: nat)
    ensures
        isqrt(n) * isqrt(n) <= n,
        n < (isqrt(n) + 1) * (isqrt(n) + 1),
    decreases n,
{
    if n > 0 {
        lemma_isqrt_bounds((n - 1) as nat);
        let r = isqrt((n - 1) as nat);
        assert((r + 1) * (r + 1) < (r + 2) * (r + 2)) by (nonlinear_arith);
        if (r + 1) * (r + 1) <= n {
            let s = r + 1;
            assert(isqrt(n) == s);
            assert(n < (s + 1) * (s + 1)) by (nonlinear_arith)
                requires
                    n - 1 < (r + 1) * (r + 1),
                    s == r + 1,
            ;
        } else {
            assert(isqrt(n) == r);
            assert(r * r <= n);
        }
    } else {
        assert(isqrt(n) == 0);
        assert(0 * 0 == 0 && 1 * 1 == 1) by (nonlinear_arith);
    }
}

/// The bounds `r * r <= n < (r + 1) * (r + 1)` fix `r` to `isqrt(n)`.
pub proof fn lemma_isqrt_unique(n: nat, r: nat)
    requires
        r * r <= n,
        n < (r + 1) * (r + 1),
    ensures
        r == isqrt(n),
{
    lemma_isqrt_bounds(n);
    let s = isqrt(n);
    if r < s {
        assert((r + 1) * (r + 1) <= s * s) by (nonlinear_arith)
            requires
                r + 1 <= s,
        ;
    } else if s < r {
        assert((s + 1) * (s + 1) <= r * r) by (nonlinear_arith)
            requires
                s + 1 <= r,
        ;
    }
}

pub proof fn lemma_isqrt_monotone(n1: nat, n2: nat)
    requires
        n1 <= n2,
    ensures
        isqrt(n1) <= isqrt(n2),
{
    lemma_isqrt_bounds(n1);
    lemma_isqrt_bounds(n2);
    let r1 = isqrt(n1);
    let r2 = isqrt(n2);
    if r1 > r2 {
        assert((r2 + 1) * (r2 + 1) <= r1 * r1) by (nonlinear_arith)
            requires
                r2 + 1 <= r1,
        ;
    }
}

/// A smaller squared distance never gives a larger distance.
pub proof fn lemma_dist_monotone(a1: Rgb, b1: Rgb, a2: Rgb, b2: Rgb)
    requires
        sq_dist(a1, b1) <= sq_dist(a2, b2),
    ensures
        dist(a1, b1) <= dist(a2, b2),
{
    lemma_sq_dist_nonneg(a1, b1);
    let k = DISTANCE_SCALE * DISTANCE_SCALE;
    assert(sq_dist(a1, b1) * k <= sq_dist(a2, b2) * k) by (nonlinear_arith)
        requires
            sq_dist(a1, b1) <= sq_dist(a2, b2),
            k == 65536,
    ;
    lemma_isqrt_monotone(
        (sq_dist(a1, b1) * k) as nat,
        (sq_dist(a2, b2) * k) as nat,
    );
}

pub proof fn lemma_sq_dist_nonneg(c1: Rgb, c2: Rgb)
    ensures
        0 <= sq_dist(c1, c2),
        sq_dist(c1, c2) == 0 <==> c1 == c2,
{
    let dr = c1.r - c2.r;
    let dg = c1.g - c2.g;
    let db = c1.b - c2.b;
    assert(0 <= dr * dr) by (nonlinear_arith);
    assert(0 <= dg * dg) by (nonlinear_arith);
    assert(0 <= db * db) by (nonlinear_arith);
    assert(dr * dr == 0 ==> dr == 0) by (nonlinear_arith);
    assert(dg * dg == 0 ==> dg == 0) by (nonlinear_arith);
    assert(db * db == 0 ==> db == 0) by (nonlinear_arith);
    assert(sq_dist(c1, c2) == dr * dr + dg * dg + db * db);
    if sq_dist(c1, c2) == 0 {
        assert(c1.r == c2.r && c1.g == c2.g && c1.b == c2.b);
        assert(c1 == c2);
    }
    if c1 == c2 {
        assert(dr == 0 && dg == 0 && db == 0);
        assert(dr * dr + dg * dg + db * db == 0) by (nonlinear_arith)
            requires
                dr == 0 && dg == 0 && db == 0,
        ;
    }
}

proof fn lemma_blend_channel_opaque(below: int, above: int)
    ensures
        blend_channel(ALPHA_SCALE as int, below, above) == above,
{
    assert(below * (1000 - 1000) == 0) by (nonlinear_arith);
    assert((above * 1000 + 500) / 1000 == above) by (nonlinear_arith);
}

/// A fully opaque layer shows its own color.
pub proof fn lemma_blend_opaque(below: Rgb, above: Rgb)
    ensures
        blend_spec(ALPHA_SCALE as int, below, above) == above,
{
    lemma_blend_channel_opaque(below.r as int, above.r as int);
    lemma_blend_channel_opaque(below.g as int, above.g as int);
    lemma_blend_channel_opaque(below.b as int, above.b as int);
}

proof fn lemma_blend_channel_range(alpha: int, below: int, above: int)
    requires
        0 <= below <= 255,
        0 <= above <= 255,
    ensures
        0 <= blend_channel(alpha, below, above) <= 255,
{
    let a = clamp_alpha(alpha);
    assert(0 <= below * (1000 - a) + above * a <= 255 * 1000) by (nonlinear_arith)
        requires
            0 <= below <= 255,
            0 <= above <= 255,
            0 <= a <= 1000,
    ;
}

fn blend_channel_exec(alpha: u16, below: u8, above: u8) -> (r: u8)
    ensures
        r as int == blend_channel(alpha as int, below as int, above as int),
{
    let a: u32 = if alpha > ALPHA_SCALE {
        ALPHA_SCALE as u32
    } else {
        alpha as u32
    };
    let lo = below as u32;
    let hi = above as u32;
    proof {
        lemma_blend_channel_range(alpha as int, below as int, above as int);
        assert(lo * (1000 - a) <= 255 * 1000) by (nonlinear_arith)
            requires
                lo <= 255,
                a <= 1000,
        ;
        assert(hi * a <= 255 * 1000) by (nonlinear_arith)
            requires
                hi <= 255,
                a <= 1000,
        ;
    }
    let sum = lo * (1000 - a) + hi * a + 500;
    (sum / 1000) as u8
}

/// Lays `above` at opacity `alpha` (thousandths, clamped into
/// `[0, ALPHA_SCALE]`) over `below`, channel by channel, rounding to the
/// nearest 8-bit value.
pub fn blend(alpha: u16, below: Rgb, above: Rgb) -> (c: Rgb)
    ensures
        c == blend_spec(alpha as int, below, above),
{
    Rgb {
        r: blend_channel_exec(alpha, below.r, above.r),
        g: blend_channel_exec(alpha, below.g, above.g),
        b: blend_channel_exec(alpha, below.b, above.b),
    }
}

fn abs_diff(a: u8, b: u8) -> (d: u32)
    ensures
        d as int == if a >= b { a - b } else { b - a },
{
    if a >= b {
        (a - b) as u32
    } else {
        (b - a) as u32
    }
}

/// Squared Euclidean distance of two colors.
pub fn sq_distance(c1: Rgb, c2: Rgb) -> (d: u32)
    ensures
        d as int == sq_dist(c1, c2),
        d <= 3 * 255 * 255,
{
    let dr = abs_diff(c1.r, c2.r);
    let dg = abs_diff(c1.g, c2.g);
    let db = abs_diff(c1.b, c2.b);
    assert(dr * dr <= 255 * 255) by (nonlinear_arith)
        requires
            dr <= 255,
    ;
    assert(dg * dg <= 255 * 255) by (nonlinear_arith)
        requires
            dg <= 255,
    ;
    assert(db * db <= 255 * 255) by (nonlinear_arith)
        requires
            db <= 255,
    ;
    assert(sq_dist(c1, c2) == dr * dr + dg * dg + db * db) by (nonlinear_arith)
        requires
            dr == if c1.r >= c2.r { c1.r - c2.r } else { c2.r - c1.r },
            dg == if c1.g >= c2.g { c1.g - c2.g } else { c2.g - c1.g },
            db == if c1.b >= c2.b { c1.b - c2.b } else { c2.b - c1.b },
    ;
    dr * dr + dg * dg + db * db
}

/// Largest `r` with `r * r <= n`, by bisection.
fn isqrt_exec(n: u64) -> (r: u64)
    requires
        n < 0x4_0000_0000,
    ensures
        r as nat == isqrt(n as nat),
{
    let mut lo: u64 = 0;
    let mut hi: u64 = 0x2_0000;
    assert(n < hi * hi);
    while hi - lo > 1
        invariant
            lo < hi <= 0x2_0000,
            lo * lo <= n,
            n < hi * hi,
        decreases hi - lo,
    {
        let mid = lo + (hi - lo) / 2;
        assert(mid * mid <= 0x2_0000 * 0x2_0000) by (nonlinear_arith)
            requires
                mid <= 0x2_0000,
        ;
        if mid * mid <= n {
            lo = mid;
        } else {
            hi = mid;
        }
    }
    proof {
        lemma_isqrt_unique(n as nat, lo as nat);
    }
    lo
}

/// Euclidean distance of two colors in units of `1 / DISTANCE_SCALE`,
/// rounded down.
pub fn distance(c1: Rgb, c2: Rgb) -> (d: u64)
    ensures
        d as int == dist(c1, c2),
        d <= 3 * 255 * DISTANCE_SCALE,
{
    let sq = sq_distance(c1, c2) as u64;
    assert(sq * 65536 <= 3 * 255 * 255 * 65536) by (nonlinear_arith)
        requires
            sq <= 3 * 255 * 255,
    ;
    let scaled = sq * (DISTANCE_SCALE * DISTANCE_SCALE);
    let d = isqrt_exec(scaled);
    proof {
        lemma_isqrt_bounds(scaled as nat);
        assert(d <= 195840) by (nonlinear_arith)
            requires
                d * d <= scaled,
                scaled <= 3 * 255 * 255 * 65536,
        ;
    }
    d
}

} // verus!
