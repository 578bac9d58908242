//! Pose recovery: Euler angles from the rotation sub-block of a processed
//! parameter vector.
//!
//! The first two rows of the 3 x 4 pose block are normalized into an
//! orthonormal-like frame, the third row is their cross product, and
//! yaw / pitch / roll are recovered with a fixed-point `atan2` built on a
//! bounded polynomial approximation of the arctangent.  Angles are 16.16
//! fixed point radians.

use vstd::prelude::*;
use crate::errors::TrackError;
use crate::fixed::{abs_i64, bounded, div_t, div_trunc, fx_mul, lemma_div_t_bound, FX_ONE};
use crate::filter::abs_int;
use crate::engine::{LIM_PARAM, PARAM_LEN};
use vstd::arithmetic::div_mod::lemma_div_pos_is_pos;

verus! {

/// Pi in 16.16 fixed point radians.
pub const PI_FX: i64 = 205887;

/// Pi over two in 16.16 fixed point radians.
pub const HALF_PI_FX: i64 = 102944;

/// First arctangent polynomial coefficient: pi over four on the grid.
pub const ATAN_C1: i64 = 51472;

/// Second arctangent polynomial coefficient: about 0.273 on the grid.
pub const ATAN_C2: i64 = 17891;

/// The integer square root: the largest `r` with `r * r <= n`.
pub open spec fn isqrt_spec(n: nat) -> nat
    decreases n,
{
    if n == 0 {
        0
    } else {
        let r = isqrt_spec((n - 1) as nat);
        if (r + 1) * (r + 1) <= n {
            (r + 1) as nat
        } else {
            r
        }
    }
}

/// `isqrt_spec` is characterized by its two bounding squares.
pub proof fn lemma_isqrt_spec(n: nat)
    ensures
        isqrt_spec(n) * isqrt_spec(n) <= n,
        n < (isqrt_spec(n) + 1) * (isqrt_spec(n) + 1),
    decreases n,
{
    if n == 0 {
        assert(isqrt_spec(n) == 0);
        assert(isqrt_spec(n) * isqrt_spec(n) <= n);
        assert((isqrt_spec(n) + 1) * (isqrt_spec(n) + 1) == 1) by (nonlinear_arith)
            requires
                isqrt_spec(n) == 0,
        ;
        assert(n < (isqrt_spec(n) + 1) * (isqrt_spec(n) + 1));
    } else {
        lemma_isqrt_spec((n - 1) as nat);
        let r = isqrt_spec((n - 1) as nat);
        assert(r * r <= n - 1);
        assert(n - 1 < (r + 1) * (r + 1));
        if (r + 1) * (r + 1) <= n {
            assert(isqrt_spec(n) == (r + 1) as nat);
            assert((r + 1) * (r + 1) + 1 <= (r + 2) * (r + 2)) by (nonlinear_arith);
            assert(n < (r + 2) * (r + 2));
        } else {
            assert(isqrt_spec(n) == r);
            assert(r * r <= n);
            assert(n < (r + 1) * (r + 1));
        }
    }
}

/// Any `r` whose square brackets `n` is the integer square root.
pub proof fn lemma_isqrt_unique(n: nat, r: nat)
    requires
        r * r <= n,
        n < (r + 1) * (r + 1),
    ensures
        r == isqrt_spec(n),
{
    lemma_isqrt_spec(n);
    let s = isqrt_spec(n);
    if r < s {
        assert((r + 1) * (r + 1) <= s * s) by (nonlinear_arith)
            requires
                r + 1 <= s,
        ;
    }
    if s < r {
        assert((s + 1) * (s + 1) <= r * r) by (nonlinear_arith)
            requires
                s + 1 <= r,
        ;
    }
}

/// Integer square root by bisection.
pub fn isqrt(n: u128) -> (r: u128)
    ensures
        r as int == isqrt_spec(n as nat),
        (r as int) * (r as int) <= n as int,
        (n as int) < ((r as int) + 1) * ((r as int) + 1),
{
    let mut lo: u128 = 0;
    let mut hi: u128 = 0xFFFF_FFFF_FFFF_FFFF;
    proof {
        assert((n as int) < 0x1_0000_0000_0000_0000 * 0x1_0000_0000_0000_0000);
    }
    while lo < hi
        invariant
            lo <= hi,
            hi <= 0xFFFF_FFFF_FFFF_FFFF,
            (lo as int) * (lo as int) <= n as int,
            (n as int) < ((hi as int) + 1) * ((hi as int) + 1),
        decreases hi - lo,
    {
        let mid: u128 = lo + (hi - lo + 1) / 2;
        proof {
            assert((mid as int) * (mid as int) <= 0xFFFF_FFFF_FFFF_FFFF * 0xFFFF_FFFF_FFFF_FFFF)
                by (nonlinear_arith)
                requires
                    0 <= mid <= 0xFFFF_FFFF_FFFF_FFFF,
            ;
        }
        let sq: u128 = mid * mid;
        if sq <= n {
            lo = mid;
        } else {
            hi = mid - 1;
        }
    }
    proof {
        lemma_isqrt_unique(n as nat, lo as nat);
    }
    lo
}

/// The bounded arctangent approximation on `[0, 1]`:
/// `z * (c1 + c2 * (1 - z))`, all on the 16.16 grid.
pub open spec fn atan_poly_spec(z: int) -> int {
    div_t(z * (ATAN_C1 + div_t(ATAN_C2 * (FX_ONE - z), FX_ONE as int)), FX_ONE as int)
}

/// Executable arctangent approximation.
fn atan_poly(z: i64) -> (r: i64)
    requires
        0 <= z <= FX_ONE,
    ensures
        r as int == atan_poly_spec(z as int),
        0 <= r <= ATAN_C1 + ATAN_C2,
{
    proof {
        assert(0 <= ATAN_C2 as int * ((FX_ONE - z) as int) <= (ATAN_C2 as int) * (FX_ONE as int))
            by (nonlinear_arith)
            requires
                0 <= FX_ONE - z <= FX_ONE,
        ;
        lemma_div_t_bound(ATAN_C2 as int * ((FX_ONE - z) as int), FX_ONE as int, ATAN_C2 as int);
        lemma_div_pos_is_pos(ATAN_C2 as int * ((FX_ONE - z) as int), FX_ONE as int);
    }
    let inner: i64 = ATAN_C1 + fx_mul(ATAN_C2, FX_ONE - z);
    proof {
        assert(0 <= z as int * (inner as int) <= (FX_ONE as int) * ((ATAN_C1 + ATAN_C2) as int))
            by (nonlinear_arith)
            requires
                0 <= z <= FX_ONE,
                ATAN_C1 <= inner <= ATAN_C1 + ATAN_C2,
        ;
        lemma_div_t_bound(z as int * (inner as int), FX_ONE as int, (ATAN_C1 + ATAN_C2) as int);
        lemma_div_pos_is_pos(z as int * (inner as int), FX_ONE as int);
    }
    let r: i64 = fx_mul(z, inner);
    r
}

/// The full-plane arctangent on the 16.16 grid: octant reduction over the
/// polynomial approximation.  Zero at the origin.
pub open spec fn atan2_spec(y: int, x: int) -> int {
    let ay = abs_int(y);
    let ax = abs_int(x);
    let th = if ay == 0 && ax == 0 {
        0
    } else if ax >= ay {
        if x >= 0 {
            atan_poly_spec(div_t(ay * FX_ONE, ax))
        } else {
            PI_FX - atan_poly_spec(div_t(ay * FX_ONE, ax))
        }
    } else {
        if x >= 0 {
            HALF_PI_FX - atan_poly_spec(div_t(ax * FX_ONE, ay))
        } else {
            HALF_PI_FX + atan_poly_spec(div_t(ax * FX_ONE, ay))
        }
    };
    if y >= 0 {
        th
    } else {
        -th
    }
}

/// Executable full-plane arctangent.  The result always lies in
/// `[-PI_FX, PI_FX]`.
pub fn atan2_fx(y: i64, x: i64) -> (r: i64)
    requires
        bounded(y as int, 0x1_0000_0000_0000),
        bounded(x as int, 0x1_0000_0000_0000),
    ensures
        r as int == atan2_spec(y as int, x as int),
        bounded(r as int, PI_FX as int),
{
    let ay: i64 = abs_i64(y);
    let ax: i64 = abs_i64(x);
    let th: i64;
    if ay == 0 && ax == 0 {
        th = 0;
    } else if ax >= ay {
        proof {
            assert(0 <= ay as int * (FX_ONE as int) <= (FX_ONE as int) * (ax as int))
                by (nonlinear_arith)
                requires
                    0 <= ay <= ax,
            ;
            lemma_div_t_bound(ay as int * (FX_ONE as int), ax as int, FX_ONE as int);
            lemma_div_pos_is_pos(ay as int * (FX_ONE as int), ax as int);
        }
        let z: i64 = div_trunc((ay as i128) * (FX_ONE as i128), ax as i128) as i64;
        let base: i64 = atan_poly(z);
        if x >= 0 {
            th = base;
        } else {
            th = PI_FX - base;
        }
    } else {
        proof {
            assert(0 <= ax as int * (FX_ONE as int) <= (FX_ONE as int) * (ay as int))
                by (nonlinear_arith)
                requires
                    0 <= ax < ay,
            ;
            lemma_div_t_bound(ax as int * (FX_ONE as int), ay as int, FX_ONE as int);
            lemma_div_pos_is_pos(ax as int * (FX_ONE as int), ay as int);
        }
        let z: i64 = div_trunc((ax as i128) * (FX_ONE as i128), ay as i128) as i64;
        let base: i64 = atan_poly(z);
        if x >= 0 {
            th = HALF_PI_FX - base;
        } else {
            th = HALF_PI_FX + base;
        }
    }
    if y >= 0 {
        th
    } else {
        -th
    }
}

/// Sum of squares of one row of the pose block (flat elements `base`,
/// `base + 1`, `base + 2` of the parameter vector).
pub open spec fn row_sq_spec(param: Seq<i64>, base: int) -> int {
    param[base] * param[base] + param[base + 1] * param[base + 1] + param[base + 2] * param[base
        + 2]
}

/// Entry `j` of the normalized first rotation row.
pub open spec fn rot_x_spec(param: Seq<i64>, j: int) -> int {
    div_t(param[j] * FX_ONE, isqrt_spec(row_sq_spec(param, 0) as nat) as int)
}

/// Entry `j` of the normalized second rotation row.
pub open spec fn rot_y_spec(param: Seq<i64>, j: int) -> int {
    div_t(param[4 + j] * FX_ONE, isqrt_spec(row_sq_spec(param, 4) as nat) as int)
}

/// Entry `j` of the third rotation row: the cross product of the first
/// two.
pub open spec fn rot_z_spec(param: Seq<i64>, j: int) -> int {
    if j == 0 {
        div_t(
            rot_x_spec(param, 1) * rot_y_spec(param, 2) - rot_x_spec(param, 2) * rot_y_spec(
                param,
                1,
            ),
            FX_ONE as int,
        )
    } else if j == 1 {
        div_t(
            rot_x_spec(param, 2) * rot_y_spec(param, 0) - rot_x_spec(param, 0) * rot_y_spec(
                param,
                2,
            ),
            FX_ONE as int,
        )
    } else {
        div_t(
            rot_x_spec(param, 0) * rot_y_spec(param, 1) - rot_x_spec(param, 1) * rot_y_spec(
                param,
                0,
            ),
            FX_ONE as int,
        )
    }
}

/// Yaw: the arcsine of the negated third-row first entry, in `atan2` form.
pub open spec fn yaw_spec(param: Seq<i64>) -> int {
    atan2_spec(
        -rot_z_spec(param, 0),
        isqrt_spec(
            (rot_z_spec(param, 1) * rot_z_spec(param, 1) + rot_z_spec(param, 2) * rot_z_spec(
                param,
                2,
            )) as nat,
        ) as int,
    )
}

/// Pitch: the rotation of the third row about the first axis.
pub open spec fn pitch_spec(param: Seq<i64>) -> int {
    atan2_spec(rot_z_spec(param, 1), rot_z_spec(param, 2))
}

/// Roll: the in-plane rotation of the first column.
pub open spec fn roll_spec(param: Seq<i64>) -> int {
    atan2_spec(rot_y_spec(param, 0), rot_x_spec(param, 0))
}

/// A component of a sum of squares is bounded in magnitude by any `n`
/// whose successor square exceeds the sum.
proof fn lemma_component_bound(v: int, rest: int, s: int, n: int)
    requires
        v * v + rest == s,
        0 <= rest,
        0 <= n,
        s < (n + 1) * (n + 1),
    ensures
        abs_int(v) <= n,
{
    assert(-n <= v <= n) by (nonlinear_arith)
        requires
            v * v + rest == s,
            0 <= rest,
            0 <= n,
            s < (n + 1) * (n + 1),
    ;
}

/// The norm of one row of the pose block, executable.
fn row_norm(param: &Vec<i64>, base: usize) -> (n: i64)
    requires
        param@.len() == PARAM_LEN,
        base + 3 <= param@.len(),
        forall|i: int| 0 <= i < param@.len()
            ==> bounded(#[trigger] param@[i] as int, LIM_PARAM as int),
    ensures
        n as int == isqrt_spec(row_sq_spec(param@, base as int) as nat),
        0 <= n <= 0x400_0000_0000,
        forall|j: int| base <= j < base + 3 ==> abs_int(param@[j] as int) <= n as int,
{
    let a: i64 = param[base];
    let b: i64 = param[base + 1];
    let c: i64 = param[base + 2];
    proof {
        assert(0 <= a as int * (a as int) <= (LIM_PARAM as int) * (LIM_PARAM as int))
            by (nonlinear_arith)
            requires
                bounded(a as int, LIM_PARAM as int),
        ;
        assert(0 <= b as int * (b as int) <= (LIM_PARAM as int) * (LIM_PARAM as int))
            by (nonlinear_arith)
            requires
                bounded(b as int, LIM_PARAM as int),
        ;
        assert(0 <= c as int * (c as int) <= (LIM_PARAM as int) * (LIM_PARAM as int))
            by (nonlinear_arith)
            requires
                bounded(c as int, LIM_PARAM as int),
        ;
    }
    let sa: i128 = (a as i128) * (a as i128);
    let sb: i128 = (b as i128) * (b as i128);
    let sc: i128 = (c as i128) * (c as i128);
    let s: u128 = (sa + sb + sc) as u128;
    let n: u128 = isqrt(s);
    proof {
        // The root of the sum of squares is at most 2^42 here, and bounds
        // each component's magnitude.
        assert(s as int <= 0x3_0000_0000_0000_0000_0000);
        assert((n as int) * (n as int) <= s as int);
        assert(n as int <= 0x400_0000_0000) by (nonlinear_arith)
            requires
                (n as int) * (n as int) <= 0x3_0000_0000_0000_0000_0000,
                0 <= n as int,
        ;
        assert forall|j: int| base <= j < base + 3 implies abs_int(param@[j] as int) <= n as int
        by {
            if j == base {
                lemma_component_bound(a as int, sb as int + sc as int, s as int, n as int);
            } else if j == base + 1 {
                lemma_component_bound(b as int, sa as int + sc as int, s as int, n as int);
            } else {
                lemma_component_bound(c as int, sa as int + sb as int, s as int, n as int);
            }
        }
    }
    n as i64
}

/// Recovers the projection rows and the Euler angles from a processed
/// parameter vector.  Succeeds exactly when both pose rows have non-zero
/// norm; a degenerate pose block is a recoverable `DecodeSkip`.
///
/// Returns the three normalized rotation rows and `[yaw, pitch, roll]` in
/// 16.16 fixed point radians, each within `[-PI_FX, PI_FX]`.
pub fn calc_pose(param: &Vec<i64>) -> (r: Result<(Vec<Vec<i64>>, Vec<i64>), TrackError>)
    requires
        param@.len() == PARAM_LEN,
        forall|i: int| 0 <= i < param@.len()
            ==> bounded(#[trigger] param@[i] as int, LIM_PARAM as int),
    ensures
        (r is Ok <==> isqrt_spec(row_sq_spec(param@, 0) as nat) > 0 && isqrt_spec(
            row_sq_spec(param@, 4) as nat,
        ) > 0),
        r is Ok ==> {
            let (rot, pose) = r->Ok_0;
            &&& rot@.len() == 3
            &&& rot@[0]@.len() == 3
            &&& rot@[1]@.len() == 3
            &&& rot@[2]@.len() == 3
            &&& forall|j: int| 0 <= j < 3 ==> #[trigger] rot@[0]@[j] as int == rot_x_spec(
                param@,
                j,
            )
            &&& forall|j: int| 0 <= j < 3 ==> #[trigger] rot@[1]@[j] as int == rot_y_spec(
                param@,
                j,
            )
            &&& forall|j: int| 0 <= j < 3 ==> #[trigger] rot@[2]@[j] as int == rot_z_spec(
                param@,
                j,
            )
            &&& pose@.len() == 3
            &&& pose@[0] as int == yaw_spec(param@)
            &&& pose@[1] as int == pitch_spec(param@)
            &&& pose@[2] as int == roll_spec(param@)
            &&& forall|k: int| 0 <= k < 3 ==> bounded(#[trigger] pose@[k] as int, PI_FX as int)
        },
        r is Err ==> r->Err_0 == TrackError::DecodeSkip,
{
    let n1: i64 = row_norm(param, 0);
    let n2: i64 = row_norm(param, 4);
    if n1 == 0 || n2 == 0 {
        return Err(TrackError::DecodeSkip);
    }
    // Normalized first and second rows: each entry has magnitude at most
    // FX_ONE.
    let mut xr: Vec<i64> = Vec::new();
    let mut yr: Vec<i64> = Vec::new();
    let mut j: usize = 0;
    while j < 3
        invariant
            param@.len() == PARAM_LEN,
            forall|i: int| 0 <= i < param@.len()
                ==> bounded(#[trigger] param@[i] as int, LIM_PARAM as int),
            n1 as int == isqrt_spec(row_sq_spec(param@, 0) as nat),
            n2 as int == isqrt_spec(row_sq_spec(param@, 4) as nat),
            1 <= n1 <= 0x400_0000_0000,
            1 <= n2 <= 0x400_0000_0000,
            forall|i: int| 0 <= i < 3 ==> abs_int(param@[i] as int) <= n1 as int,
            forall|i: int| 4 <= i < 7 ==> abs_int(param@[i] as int) <= n2 as int,
            0 <= j <= 3,
            xr@.len() == j,
            yr@.len() == j,
            forall|k: int| 0 <= k < j ==> #[trigger] xr@[k] as int == rot_x_spec(param@, k),
            forall|k: int| 0 <= k < j ==> #[trigger] yr@[k] as int == rot_y_spec(param@, k),
            forall|k: int| 0 <= k < j ==> bounded(#[trigger] xr@[k] as int, FX_ONE as int),
            forall|k: int| 0 <= k < j ==> bounded(#[trigger] yr@[k] as int, FX_ONE as int),
        decreases 3 - j,
    {
        let px: i64 = param[j];
        let py: i64 = param[4 + j];
        proof {
            assert(bounded(px as int * (FX_ONE as int), (n1 as int) * (FX_ONE as int)))
                by (nonlinear_arith)
                requires
                    abs_int(px as int) <= n1 as int,
                    0 < n1,
            ;
            assert((n1 as int) * (FX_ONE as int) == (FX_ONE as int) * (n1 as int))
                by (nonlinear_arith);
            lemma_div_t_bound(px as int * (FX_ONE as int), n1 as int, FX_ONE as int);
            assert(bounded(py as int * (FX_ONE as int), (n2 as int) * (FX_ONE as int)))
                by (nonlinear_arith)
                requires
                    abs_int(py as int) <= n2 as int,
                    0 < n2,
            ;
            assert((n2 as int) * (FX_ONE as int) == (FX_ONE as int) * (n2 as int))
                by (nonlinear_arith);
            lemma_div_t_bound(py as int * (FX_ONE as int), n2 as int, FX_ONE as int);
        }
        let ex: i64 = div_trunc((px as i128) * (FX_ONE as i128), n1 as i128) as i64;
        let ey: i64 = div_trunc((py as i128) * (FX_ONE as i128), n2 as i128) as i64;
        xr.push(ex);
        yr.push(ey);
        j = j + 1;
    }
    // Third row: the cross product of the normalized rows.
    let z0: i64 = cross_term(xr[1], yr[2], xr[2], yr[1]);
    let z1: i64 = cross_term(xr[2], yr[0], xr[0], yr[2]);
    let z2: i64 = cross_term(xr[0], yr[1], xr[1], yr[0]);
    proof {
        assert(z0 as int == rot_z_spec(param@, 0));
        assert(z1 as int == rot_z_spec(param@, 1));
        assert(z2 as int == rot_z_spec(param@, 2));
    }
    // Angles.
    proof {
        assert(0 <= z1 as int * (z1 as int) <= 0x2_0000 * 0x2_0000) by (nonlinear_arith)
            requires
                bounded(z1 as int, 0x2_0000),
        ;
        assert(0 <= z2 as int * (z2 as int) <= 0x2_0000 * 0x2_0000) by (nonlinear_arith)
            requires
                bounded(z2 as int, 0x2_0000),
        ;
    }
    let zs: i128 = (z1 as i128) * (z1 as i128) + (z2 as i128) * (z2 as i128);
    let m: u128 = isqrt(zs as u128);
    proof {
        assert(zs as int <= 0x8_0000_0000);
        assert((m as int) * (m as int) <= zs as int);
        assert(m as int <= 0x4_0000) by (nonlinear_arith)
            requires
                (m as int) * (m as int) <= 0x8_0000_0000,
                0 <= m as int,
        ;
    }
    let yaw: i64 = atan2_fx(-z0, m as i64);
    let pitch: i64 = atan2_fx(z1, z2);
    let roll: i64 = atan2_fx(yr[0], xr[0]);
    let mut rot: Vec<Vec<i64>> = Vec::new();
    let mut zr: Vec<i64> = Vec::new();
    zr.push(z0);
    zr.push(z1);
    zr.push(z2);
    rot.push(xr);
    rot.push(yr);
    rot.push(zr);
    let mut pose: Vec<i64> = Vec::new();
    pose.push(yaw);
    pose.push(pitch);
    pose.push(roll);
    Ok((rot, pose))
}

/// The fixed landmark subset the auxiliary 2D projection uses: chin tip,
/// outer eye corners, and the nose tip.
pub const PROJ_SUBSET: [usize; 4] = [8, 36, 45, 30];

/// The 2D projection of landmark `c` along projection row `r` (0 for x,
/// 1 for y): the row applied to the landmark's three coordinates.
pub open spec fn proj_spec(rot: Seq<Vec<i64>>, pts: Seq<Vec<i64>>, r: int, c: int) -> int {
    div_t(
        rot[r]@[0] * pts[0]@[c] + rot[r]@[1] * pts[1]@[c] + rot[r]@[2] * pts[2]@[c],
        FX_ONE as int,
    )
}

/// Smallest of four values.
pub open spec fn min4(a: int, b: int, c: int, d: int) -> int {
    let m1 = if a < b {
        a
    } else {
        b
    };
    let m2 = if c < d {
        c
    } else {
        d
    };
    if m1 < m2 {
        m1
    } else {
        m2
    }
}

/// Largest of four values.
pub open spec fn max4(a: int, b: int, c: int, d: int) -> int {
    let m1 = if a > b {
        a
    } else {
        b
    };
    let m2 = if c > d {
        c
    } else {
        d
    };
    if m1 > m2 {
        m1
    } else {
        m2
    }
}

/// The depth proxy of the projected subset: the mean of the horizontal
/// and vertical spreads.
pub open spec fn depth_spec(rot: Seq<Vec<i64>>, pts: Seq<Vec<i64>>) -> int {
    let x0 = proj_spec(rot, pts, 0, PROJ_SUBSET[0] as int);
    let x1 = proj_spec(rot, pts, 0, PROJ_SUBSET[1] as int);
    let x2 = proj_spec(rot, pts, 0, PROJ_SUBSET[2] as int);
    let x3 = proj_spec(rot, pts, 0, PROJ_SUBSET[3] as int);
    let y0 = proj_spec(rot, pts, 1, PROJ_SUBSET[0] as int);
    let y1 = proj_spec(rot, pts, 1, PROJ_SUBSET[1] as int);
    let y2 = proj_spec(rot, pts, 1, PROJ_SUBSET[2] as int);
    let y3 = proj_spec(rot, pts, 1, PROJ_SUBSET[3] as int);
    div_t(
        (max4(x0, x1, x2, x3) - min4(x0, x1, x2, x3)) + (max4(y0, y1, y2, y3) - min4(
            y0,
            y1,
            y2,
            y3,
        )),
        2,
    )
}

/// One projected coordinate, executable.
fn proj_coord(row: &Vec<i64>, pts: &Vec<Vec<i64>>, c: usize, Ghost(rot): Ghost<Seq<Vec<i64>>>,
    Ghost(r): Ghost<int>) -> (v: i64)
    requires
        0 <= r < rot.len(),
        row@ == rot[r]@,
        row@.len() == 3,
        forall|j: int| 0 <= j < 3 ==> bounded(#[trigger] row@[j] as int, 2 * FX_ONE as int),
        pts@.len() == 3,
        c < pts@[0]@.len(),
        pts@[1]@.len() == pts@[0]@.len(),
        pts@[2]@.len() == pts@[0]@.len(),
        forall|i: int, j: int| 0 <= i < 3 && 0 <= j < pts@[i]@.len() ==> bounded(
            #[trigger] pts@[i]@[j] as int,
            0x1000_0000,
        ),
    ensures
        v as int == proj_spec(rot, pts@, r, c as int),
        bounded(v as int, 0x1_0000_0000),
{
    let a0: i64 = row[0];
    let a1: i64 = row[1];
    let a2: i64 = row[2];
    let p0: i64 = pts[0][c];
    let p1: i64 = pts[1][c];
    let p2: i64 = pts[2][c];
    proof {
        assert(bounded(a0 as int * (p0 as int), 2 * (FX_ONE as int) * 0x1000_0000))
            by (nonlinear_arith)
            requires
                bounded(a0 as int, 2 * FX_ONE as int),
                bounded(p0 as int, 0x1000_0000),
        ;
        assert(bounded(a1 as int * (p1 as int), 2 * (FX_ONE as int) * 0x1000_0000))
            by (nonlinear_arith)
            requires
                bounded(a1 as int, 2 * FX_ONE as int),
                bounded(p1 as int, 0x1000_0000),
        ;
        assert(bounded(a2 as int * (p2 as int), 2 * (FX_ONE as int) * 0x1000_0000))
            by (nonlinear_arith)
            requires
                bounded(a2 as int, 2 * FX_ONE as int),
                bounded(p2 as int, 0x1000_0000),
        ;
        lemma_div_t_bound(
            a0 as int * (p0 as int) + a1 as int * (p1 as int) + a2 as int * (p2 as int),
            FX_ONE as int,
            0x1_0000_0000,
        );
    }
    let s: i128 = (a0 as i128) * (p0 as i128) + (a1 as i128) * (p1 as i128) + (a2 as i128) * (
    p2 as i128);
    div_trunc(s, FX_ONE as i128) as i64
}

/// Projects the fixed landmark subset to 2D with the first two projection
/// rows, and derives the depth proxy from the projected spread.  This is
/// an auxiliary signal; the minimal network payload does not carry it.
///
/// Returns one `[x, y]` pair per subset landmark, in subset order, and
/// the depth proxy.
pub fn gen_point2d(rot: &Vec<Vec<i64>>, pts: &Vec<Vec<i64>>) -> (r: (Vec<Vec<i64>>, i64))
    requires
        rot@.len() == 3,
        forall|i: int| 0 <= i < 3 ==> (#[trigger] rot@[i])@.len() == 3,
        forall|i: int, j: int| 0 <= i < 3 && 0 <= j < 3 ==> bounded(
            #[trigger] rot@[i]@[j] as int,
            2 * FX_ONE as int,
        ),
        pts@.len() == 3,
        pts@[0]@.len() == 68,
        pts@[1]@.len() == 68,
        pts@[2]@.len() == 68,
        forall|i: int, j: int| 0 <= i < 3 && 0 <= j < pts@[i]@.len() ==> bounded(
            #[trigger] pts@[i]@[j] as int,
            0x1000_0000,
        ),
    ensures
        ({
            let (point2d, distance) = r;
            &&& point2d@.len() == 4
            &&& forall|k: int| 0 <= k < 4 ==> (#[trigger] point2d@[k])@.len() == 2
            &&& forall|k: int| 0 <= k < 4 ==> (#[trigger] point2d@[k])@[0] as int == proj_spec(
                rot@,
                pts@,
                0,
                PROJ_SUBSET[k] as int,
            )
            &&& forall|k: int| 0 <= k < 4 ==> (#[trigger] point2d@[k])@[1] as int == proj_spec(
                rot@,
                pts@,
                1,
                PROJ_SUBSET[k] as int,
            )
            &&& distance as int == depth_spec(rot@, pts@)
        }),
{
    let row_x = &rot[0];
    let row_y = &rot[1];
    let ghost grot = rot@;
    let x0 = proj_coord(row_x, pts, PROJ_SUBSET[0], Ghost(grot), Ghost(0));
    let x1 = proj_coord(row_x, pts, PROJ_SUBSET[1], Ghost(grot), Ghost(0));
    let x2 = proj_coord(row_x, pts, PROJ_SUBSET[2], Ghost(grot), Ghost(0));
    let x3 = proj_coord(row_x, pts, PROJ_SUBSET[3], Ghost(grot), Ghost(0));
    let y0 = proj_coord(row_y, pts, PROJ_SUBSET[0], Ghost(grot), Ghost(1));
    let y1 = proj_coord(row_y, pts, PROJ_SUBSET[1], Ghost(grot), Ghost(1));
    let y2 = proj_coord(row_y, pts, PROJ_SUBSET[2], Ghost(grot), Ghost(1));
    let y3 = proj_coord(row_y, pts, PROJ_SUBSET[3], Ghost(grot), Ghost(1));
    let mut point2d: Vec<Vec<i64>> = Vec::new();
    let mut p: Vec<i64> = Vec::new();
    p.push(x0);
    p.push(y0);
    point2d.push(p);
    let mut p: Vec<i64> = Vec::new();
    p.push(x1);
    p.push(y1);
    point2d.push(p);
    let mut p: Vec<i64> = Vec::new();
    p.push(x2);
    p.push(y2);
    point2d.push(p);
    let mut p: Vec<i64> = Vec::new();
    p.push(x3);
    p.push(y3);
    point2d.push(p);
    let xmin = min4_i64(x0, x1, x2, x3);
    let xmax = max4_i64(x0, x1, x2, x3);
    let ymin = min4_i64(y0, y1, y2, y3);
    let ymax = max4_i64(y0, y1, y2, y3);
    let spread: i64 = (xmax - xmin) + (ymax - ymin);
    proof {
        lemma_div_t_bound(spread as int, 2, 0x4_0000_0000);
    }
    let distance: i64 = div_trunc(spread as i128, 2) as i64;
    (point2d, distance)
}

/// Smallest of four values, executable.
fn min4_i64(a: i64, b: i64, c: i64, d: i64) -> (r: i64)
    ensures
        r as int == min4(a as int, b as int, c as int, d as int),
{
    let m1 = if a < b {
        a
    } else {
        b
    };
    let m2 = if c < d {
        c
    } else {
        d
    };
    if m1 < m2 {
        m1
    } else {
        m2
    }
}

/// Largest of four values, executable.
fn max4_i64(a: i64, b: i64, c: i64, d: i64) -> (r: i64)
    ensures
        r as int == max4(a as int, b as int, c as int, d as int),
{
    let m1 = if a > b {
        a
    } else {
        b
    };
    let m2 = if c > d {
        c
    } else {
        d
    };
    if m1 > m2 {
        m1
    } else {
        m2
    }
}

/// One cross product entry: `(a * b - c * d) / FX_ONE` on the grid.
fn cross_term(a: i64, b: i64, c: i64, d: i64) -> (r: i64)
    requires
        bounded(a as int, FX_ONE as int),
        bounded(b as int, FX_ONE as int),
        bounded(c as int, FX_ONE as int),
        bounded(d as int, FX_ONE as int),
    ensures
        r as int == div_t(a * b - c * d, FX_ONE as int),
        bounded(r as int, 0x2_0000),
{
    proof {
        assert(bounded(a as int * (b as int), (FX_ONE as int) * (FX_ONE as int)))
            by (nonlinear_arith)
            requires
                bounded(a as int, FX_ONE as int),
                bounded(b as int, FX_ONE as int),
        ;
        assert(bounded(c as int * (d as int), (FX_ONE as int) * (FX_ONE as int)))
            by (nonlinear_arith)
            requires
                bounded(c as int, FX_ONE as int),
                bounded(d as int, FX_ONE as int),
        ;
        lemma_div_t_bound(
            a as int * (b as int) - c as int * (d as int),
            FX_ONE as int,
            2 * FX_ONE as int,
        );
    }
    let p: i128 = (a as i128) * (b as i128) - (c as i128) * (d as i128);
    div_trunc(p, FX_ONE as i128) as i64
}

} // verus!
