use vstd::prelude::*;

use crate::edge::EdgeHead;

verus! {

// ---------------------------------------------------------------------------
// Integer square root
// ---------------------------------------------------------------------------

/// `r` is the integer square root of `n`.
pub open spec fn is_isqrt(n: int, r: int) -> bool {
    0 <= r && r * r <= n < (r + 1) * (r + 1)
}

/// The integer square root of `n`.
pub open spec fn spec_isqrt(n: int) -> int {
    choose|r: int| is_isqrt(n, r)
}

/// Two integer square roots of the same number are equal.
pub proof fn lemma_isqrt_unique(n: int, a: int, b: int)
    by (nonlinear_arith)
    requires
        is_isqrt(n, a),
        is_isqrt(n, b),
    ensures
        a == b,
{
}

/// The integer square root of `n`, by binary search over the answer.
pub fn isqrt(n: u128) -> (r: u128)
    ensures
        is_isqrt(n as int, r as int),
        r as int == spec_isqrt(n as int),
{
    let mut lo: u128 = 0;
    let mut hi: u128 = 0x1_0000_0000_0000_0000;
    proof {
        assert((hi as int) * (hi as int) > n as int) by (nonlinear_arith)
            requires
                hi == 0x1_0000_0000_0000_0000u128,
                n <= u128::MAX,
        ;
    }
    while hi - lo > 1
        invariant
            lo < hi <= 0x1_0000_0000_0000_0000,
            (lo as int) * (lo as int) <= n as int,
            (hi as int) * (hi as int) > n as int,
        decreases hi - lo,
    {
        let mid = lo + (hi - lo) / 2;
        proof {
            assert((mid as int) * (mid as int) < 0x1_0000_0000_0000_0000_0000_0000_0000_0000int)
                by (nonlinear_arith)
                requires
                    mid < 0x1_0000_0000_0000_0000,
            ;
        }
        if mid * mid <= n {
            lo = mid;
        } else {
            hi = mid;
        }
    }
    proof {
        assert(is_isqrt(n as int, lo as int));
        assert(exists|r: int| is_isqrt(n as int, r));
        lemma_isqrt_unique(n as int, lo as int, spec_isqrt(n as int));
    }
    lo
}

// ---------------------------------------------------------------------------
// Anchor geometry
// ---------------------------------------------------------------------------

/// Clearance a head keeps between the node border and the line end, in
/// half-pixel units: arrowed heads reserve 7.5 pixels, the rest 3.
pub open spec fn head_clear(h: EdgeHead) -> int {
    if h == EdgeHead::Left || h == EdgeHead::Right {
        15
    } else {
        6
    }
}

fn head_clear_c(h: EdgeHead) -> (r: i64)
    ensures
        r as int == head_clear(h),
{
    match h {
        EdgeHead::Left => 15,
        EdgeHead::Right => 15,
        _ => 6,
    }
}

/// `a / b` with the quotient rounded towards zero.
pub open spec fn div_trunc(a: int, b: int) -> int {
    if a >= 0 {
        a / b
    } else {
        -((-a) / b)
    }
}

/// Positions and sizes the anchor arithmetic accepts: centre coordinates
/// inside the layout's range, non-negative sizes up to the sizing cap.
pub open spec fn anchor_in_range(cx: int, cy: int, w: int, h: int) -> bool {
    &&& 0 <= cx <= 0x100_0000_0000
    &&& 0 <= cy <= 0x100_0000_0000
    &&& 0 <= w <= 0x10_0000
    &&& 0 <= h <= 0x10_0000
}

/// The anchor of an edge, in half-pixel units, from the centres and sizes
/// of its endpoint nodes (in pixels) and its head styles.
///
/// The line runs along the direction from source centre to target centre;
/// each end retreats from its centre by the node's half-extent per axis
/// plus the head's clearance.  When the centres coincide the direction
/// falls back to straight down, `(0, 1)`.  Quotients round towards zero.
pub open spec fn spec_anchor(
    sx: int,
    sy: int,
    sw: int,
    sh: int,
    tx: int,
    ty: int,
    tw: int,
    th: int,
    shead: EdgeHead,
    thead: EdgeHead,
) -> (int, int, int, int) {
    let sx2 = 2 * sx;
    let sy2 = 2 * sy;
    let tx2 = 2 * tx;
    let ty2 = 2 * ty;
    let dx = tx2 - sx2;
    let dy = ty2 - sy2;
    let kxs = sw + head_clear(shead);
    let kys = sh + head_clear(shead);
    let kxt = tw + head_clear(thead);
    let kyt = th + head_clear(thead);
    if dx == 0 && dy == 0 {
        (sx2, sy2 + kys, tx2, ty2 - kyt)
    } else {
        let len = spec_isqrt(dx * dx + dy * dy);
        (
            sx2 + div_trunc(dx * kxs, len),
            sy2 + div_trunc(dy * kys, len),
            tx2 - div_trunc(dx * kxt, len),
            ty2 - div_trunc(dy * kyt, len),
        )
    }
}

/// A zero-length direction never reaches the division: when the centres
/// differ, the squared distance is at least one.
pub proof fn lemma_anchor_len_positive(dx: int, dy: int)
    by (nonlinear_arith)
    requires
        !(dx == 0 && dy == 0),
    ensures
        dx * dx + dy * dy >= 1,
{
}

fn mul_div_trunc(a: i64, k: i64, len: i64) -> (r: i64)
    requires
        -0x200_0000_0000 <= a <= 0x200_0000_0000,
        0 <= k <= 0x10_0040,
        1 <= len,
    ensures
        r as int == div_trunc(a as int * k as int, len as int),
        -0x200_0000_0000 * 0x10_0040 <= r as int <= 0x200_0000_0000 * 0x10_0040,
{
    let mag: i64 = if a >= 0 {
        a
    } else {
        -a
    };
    proof {
        assert(0 <= mag as int * k as int <= 0x200_0000_0000 * 0x10_0040) by (nonlinear_arith)
            requires
                0 <= mag <= 0x200_0000_0000,
                0 <= k <= 0x10_0040,
        ;
        assert(a < 0 ==> mag as int * k as int == -(a as int * k as int)) by (nonlinear_arith)
            requires
                mag == if a >= 0 {
                    a as int
                } else {
                    -(a as int)
                },
        ;
        assert(a >= 0 ==> mag as int * k as int == a as int * k as int);
    }
    let num: i64 = mag * k;
    let q: i64 = num / len;
    proof {
        assert(0 <= num as int / len as int <= num as int) by (nonlinear_arith)
            requires
                0 <= num,
                1 <= len,
        ;
    }
    if a >= 0 {
        q
    } else {
        -q
    }
}

/// The anchor of an edge: where its line starts and ends, in half-pixel
/// units, given the endpoint nodes' centres and sizes in pixels.
pub fn resolve_anchor(
    sx: i64,
    sy: i64,
    sw: i64,
    sh: i64,
    tx: i64,
    ty: i64,
    tw: i64,
    th: i64,
    shead: EdgeHead,
    thead: EdgeHead,
) -> (r: (i64, i64, i64, i64))
    requires
        anchor_in_range(sx as int, sy as int, sw as int, sh as int),
        anchor_in_range(tx as int, ty as int, tw as int, th as int),
    ensures
        (r.0 as int, r.1 as int, r.2 as int, r.3 as int) == spec_anchor(
            sx as int,
            sy as int,
            sw as int,
            sh as int,
            tx as int,
            ty as int,
            tw as int,
            th as int,
            shead,
            thead,
        ),
        -0x4000_0000_0000_0000 < r.0 < 0x4000_0000_0000_0000,
        -0x4000_0000_0000_0000 < r.1 < 0x4000_0000_0000_0000,
        -0x4000_0000_0000_0000 < r.2 < 0x4000_0000_0000_0000,
        -0x4000_0000_0000_0000 < r.3 < 0x4000_0000_0000_0000,
{
    let sx2: i64 = 2 * sx;
    let sy2: i64 = 2 * sy;
    let tx2: i64 = 2 * tx;
    let ty2: i64 = 2 * ty;
    let dx: i64 = tx2 - sx2;
    let dy: i64 = ty2 - sy2;
    let kxs: i64 = sw + head_clear_c(shead);
    let kys: i64 = sh + head_clear_c(shead);
    let kxt: i64 = tw + head_clear_c(thead);
    let kyt: i64 = th + head_clear_c(thead);
    if dx == 0 && dy == 0 {
        (sx2, sy2 + kys, tx2, ty2 - kyt)
    } else {
        proof {
            assert((dx as int) * (dx as int) + (dy as int) * (dy as int)
                <= 0x8_0000_0000_0000_0000_0000int) by (nonlinear_arith)
                requires
                    -0x200_0000_0000 <= dx <= 0x200_0000_0000,
                    -0x200_0000_0000 <= dy <= 0x200_0000_0000,
            ;
            assert((dx as int) * (dx as int) >= 0 && (dy as int) * (dy as int) >= 0)
                by (nonlinear_arith);
        }
        let dx2: i128 = (dx as i128) * (dx as i128);
        let dy2: i128 = (dy as i128) * (dy as i128);
        let len128 = isqrt((dx2 + dy2) as u128);
        proof {
            lemma_anchor_len_positive(dx as int, dy as int);
            assert(len128 as int * len128 as int <= dx as int * dx as int + dy as int * dy as int);
            assert(len128 as int <= 0x400_0000_0000) by (nonlinear_arith)
                requires
                    len128 as int * len128 as int <= 0x8_0000_0000_0000_0000_0000int,
                    len128 >= 0,
            ;
            assert(len128 >= 1) by (nonlinear_arith)
                requires
                    is_isqrt(
                        dx as int * dx as int + dy as int * dy as int,
                        len128 as int,
                    ),
                    dx as int * dx as int + dy as int * dy as int >= 1,
            ;
        }
        let len: i64 = len128 as i64;
        let ax = sx2 + mul_div_trunc(dx, kxs, len);
        let ay = sy2 + mul_div_trunc(dy, kys, len);
        let bx = tx2 - mul_div_trunc(dx, kxt, len);
        let by = ty2 - mul_div_trunc(dy, kyt, len);
        (ax, ay, bx, by)
    }
}

} // verus!
