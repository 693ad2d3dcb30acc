//! The lattice noise changes by a bounded amount from one fixed-point
//! position to the next, also across the faces between cells.

use vstd::prelude::*;
use crate::fixed::ONE;
use crate::lattice::{
    cell, corner, fade_numerator, lattice_hash, lattice_noise, lemma_fade_bounds,
    lemma_grad_bound, lemma_lerp_between, offset, spec_fade, spec_grad, spec_lerp,
};

verus! {

/// The easing numerator as a sum of powers of the weight.
proof fn lemma_fade_numerator_powers(t: int)
    ensures
        fade_numerator(t) == 6 * (t * t * t * t * t) - 983040 * (t * t * t * t) + 42949672960 * (t
            * t * t),
{
    let t2 = t * t;
    let t3 = t2 * t;
    let t4 = t3 * t;
    let t5 = t4 * t;
    let q = 6 * t2 - 983040 * t + 42949672960;
    assert(t3 * q == 6 * t5 - 983040 * t4 + 42949672960 * t3) by (nonlinear_arith)
        requires
            q == 6 * t2 - 983040 * t + 42949672960,
            t2 == t * t,
            t3 == t2 * t,
            t4 == t3 * t,
            t5 == t4 * t,
    ;
    assert(6 * t * t == 6 * t2) by (nonlinear_arith)
        requires
            t2 == t * t,
    ;
}

/// The powers of the weight after `t`, by the binomial theorem.
proof fn lemma_next_powers(t: int)
    ensures
        (t + 1) * (t + 1) * (t + 1) == t * t * t + 3 * (t * t) + 3 * t + 1,
        (t + 1) * (t + 1) * (t + 1) * (t + 1) == t * t * t * t + 4 * (t * t * t) + 6 * (t * t) + 4
            * t + 1,
        (t + 1) * (t + 1) * (t + 1) * (t + 1) * (t + 1) == t * t * t * t * t + 5 * (t * t * t * t)
            + 10 * (t * t * t) + 10 * (t * t) + 5 * t + 1,
{
    let u = t + 1;
    let t2 = t * t;
    let t3 = t2 * t;
    let t4 = t3 * t;
    let t5 = t4 * t;
    let u2 = u * u;
    let u3 = u2 * u;
    let u4 = u3 * u;
    let u5 = u4 * u;
    assert(u2 == t2 + 2 * t + 1) by (nonlinear_arith)
        requires
            u == t + 1,
            u2 == u * u,
            t2 == t * t,
    ;
    assert(u3 == t3 + 3 * t2 + 3 * t + 1) by (nonlinear_arith)
        requires
            u == t + 1,
            u3 == u2 * u,
            u2 == t2 + 2 * t + 1,
            t2 == t * t,
            t3 == t2 * t,
    ;
    assert(u4 == t4 + 4 * t3 + 6 * t2 + 4 * t + 1) by (nonlinear_arith)
        requires
            u == t + 1,
            u4 == u3 * u,
            u3 == t3 + 3 * t2 + 3 * t + 1,
            t2 == t * t,
            t3 == t2 * t,
            t4 == t3 * t,
    ;
    assert(u5 == t5 + 5 * t4 + 10 * t3 + 10 * t2 + 5 * t + 1) by (nonlinear_arith)
        requires
            u == t + 1,
            u5 == u4 * u,
            u4 == t4 + 4 * t3 + 6 * t2 + 4 * t + 1,
            t2 == t * t,
            t3 == t2 * t,
            t4 == t3 * t,
            t5 == t4 * t,
    ;
}

/// The easing numerator grows by less than two units of the result between
/// neighbouring weights.
proof fn lemma_fade_numerator_step(t: int)
    requires
        0 <= t < ONE,
    ensures
        -0x2_0000_0000_0000_0000 <= fade_numerator(t + 1) - fade_numerator(t)
            <= 0x2_0000_0000_0000_0000,
{
    lemma_fade_numerator_powers(t);
    lemma_fade_numerator_powers(t + 1);
    lemma_next_powers(t);
    let t2 = t * t;
    let t3 = t2 * t;
    let t4 = t3 * t;
    let s = 65536 - t;
    let p = t * s;
    let d = s - t;
    let pd = p * d;
    let pp = p * p;
    assert(p == 65536 * t - t2) by (nonlinear_arith)
        requires
            p == t * s,
            s == 65536 - t,
            t2 == t * t,
    ;
    assert(pp == 4294967296 * t2 - 131072 * t3 + t4) by (nonlinear_arith)
        requires
            pp == p * p,
            p == 65536 * t - t2,
            t2 == t * t,
            t3 == t2 * t,
            t4 == t3 * t,
    ;
    let pt = p * t;
    assert(pt == 65536 * t2 - t3) by (nonlinear_arith)
        requires
            pt == p * t,
            p == 65536 * t - t2,
            t2 == t * t,
            t3 == t2 * t,
    ;
    assert(pd == 65536 * p - 2 * pt) by (nonlinear_arith)
        requires
            pd == p * d,
            pt == p * t,
            d == 65536 - 2 * t,
    ;
    assert(fade_numerator(t + 1) - fade_numerator(t) == 30 * pp + 30 * pd + 42949672960 - 60 * p
        + 15 * (t - s) + 6);
    let e = t - 32768;
    assert(p == 1073741824 - e * e && e * e >= 0) by (nonlinear_arith)
        requires
            p == t * s,
            s == 65536 - t,
            e == t - 32768,
    ;
    assert(p >= 0) by (nonlinear_arith)
        requires
            p == t * s,
            0 <= t,
            0 <= s,
    ;
    assert(0 <= pp <= 0x1000_0000_0000_0000 && -0x4000_0000_0000 <= pd <= 0x4000_0000_0000)
        by (nonlinear_arith)
        requires
            pp == p * p,
            pd == p * d,
            0 <= p <= 0x4000_0000,
            -65536 <= d <= 65536,
    ;
}

/// The easing curve changes by at most two between neighbouring weights.
proof fn lemma_fade_step(t: int)
    requires
        0 <= t < ONE,
    ensures
        -2 <= spec_fade(t + 1) - spec_fade(t) <= 2,
{
    reveal(spec_fade);
    lemma_fade_numerator_step(t);
    assert(ONE * ONE * ONE * ONE == 0x1_0000_0000_0000_0000);
    assert(spec_fade(t) == fade_numerator(t) / 0x1_0000_0000_0000_0000);
    assert(spec_fade(t + 1) == fade_numerator(t + 1) / 0x1_0000_0000_0000_0000);
}

/// Moving the weight by at most two moves an interpolated value by at most
/// twice the distance of the blended values.
proof fn lemma_lerp_weight_step(t: int, u: int, a: int, b: int)
    requires
        -2 <= u - t <= 2,
        -4 * ONE <= b - a <= 4 * ONE,
    ensures
        -8 <= spec_lerp(u, a, b) - spec_lerp(t, a, b) <= 8,
{
    reveal(spec_lerp);
    let d = b - a;
    assert(-8 * 65536 <= u * d - t * d <= 8 * 65536) by (nonlinear_arith)
        requires
            -2 <= u - t <= 2,
            -4 * 65536 <= d <= 4 * 65536,
    ;
}

/// Moving both blended values by at most `e` moves the interpolated value
/// by at most `e`.
proof fn lemma_lerp_value_step(t: int, a: int, b: int, c: int, d: int, e: int)
    requires
        0 <= t <= ONE,
        -e <= c - a <= e,
        -e <= d - b <= e,
    ensures
        -e <= spec_lerp(t, c, d) - spec_lerp(t, a, b) <= e,
{
    reveal(spec_lerp);
    let before = 65536 * a + t * (b - a);
    let after = 65536 * c + t * (d - c);
    assert(-(65536 * e) <= after - before <= 65536 * e) by (nonlinear_arith)
        requires
            0 <= t <= 65536,
            -e <= c - a <= e,
            -e <= d - b <= e,
            before == 65536 * a + t * (b - a),
            after == 65536 * c + t * (d - c),
    ;
    assert(spec_lerp(t, a, b) == before / 65536);
    assert(spec_lerp(t, c, d) == after / 65536);
}

/// Moving the weight by at most two and both blended values by at most `e`
/// moves the interpolated value by at most `e + 8`.
proof fn lemma_lerp_step(t: int, u: int, a: int, b: int, c: int, d: int, e: int)
    requires
        0 <= u <= ONE,
        -2 <= u - t <= 2,
        -4 * ONE <= b - a <= 4 * ONE,
        -e <= c - a <= e,
        -e <= d - b <= e,
    ensures
        -(e + 8) <= spec_lerp(u, c, d) - spec_lerp(t, a, b) <= e + 8,
{
    lemma_lerp_weight_step(t, u, a, b);
    lemma_lerp_value_step(u, a, b, c, d, e);
}

/// Moving one component of the relative position by one moves a gradient
/// contribution by at most one.
proof fn lemma_grad_step(hash: int, x: int, y: int, z: int, dx: int, dy: int, dz: int)
    requires
        0 <= dx,
        0 <= dy,
        0 <= dz,
        dx + dy + dz == 1,
    ensures
        -1 <= spec_grad(hash, x + dx, y + dy, z + dz) - spec_grad(hash, x, y, z) <= 1,
{
    reveal(spec_grad);
}

/// The contribution of a corner of the cell `(i, j, k)` at the offsets
/// `(fx, fy, fz)`, which may reach the far faces of the cell.
spec fn cell_corner(i: int, j: int, k: int, fx: int, fy: int, fz: int, dx: int, dy: int, dz: int)
    -> int {
    spec_grad(
        lattice_hash(i + dx, j + dy, k + dz),
        fx - dx * ONE,
        fy - dy * ONE,
        fz - dz * ONE,
    )
}

/// The blend along x of two corners of the cell.
spec fn blend_x(i: int, j: int, k: int, fx: int, fy: int, fz: int, dy: int, dz: int) -> int {
    spec_lerp(
        spec_fade(fx),
        cell_corner(i, j, k, fx, fy, fz, 0, dy, dz),
        cell_corner(i, j, k, fx, fy, fz, 1, dy, dz),
    )
}

/// The blend along x and y of four corners of the cell.
spec fn blend_xy(i: int, j: int, k: int, fx: int, fy: int, fz: int, dz: int) -> int {
    spec_lerp(
        spec_fade(fy),
        blend_x(i, j, k, fx, fy, fz, 0, dz),
        blend_x(i, j, k, fx, fy, fz, 1, dz),
    )
}

/// The blend of all eight corners of the cell.
spec fn blend_xyz(i: int, j: int, k: int, fx: int, fy: int, fz: int) -> int {
    spec_lerp(spec_fade(fz), blend_xy(i, j, k, fx, fy, fz, 0), blend_xy(i, j, k, fx, fy, fz, 1))
}

/// The lattice noise is the blend over the cell that holds the point.
proof fn lemma_noise_is_blend(x: int, y: int, z: int)
    ensures
        lattice_noise(x, y, z) == blend_xyz(
            cell(x),
            cell(y),
            cell(z),
            offset(x),
            offset(y),
            offset(z),
        ),
{
    assert forall|dx: int, dy: int, dz: int| #[trigger]
        corner(x, y, z, dx, dy, dz) == cell_corner(
            cell(x),
            cell(y),
            cell(z),
            offset(x),
            offset(y),
            offset(z),
            dx,
            dy,
            dz,
        ) by {}
}

/// Within a cell and on its faces, a corner contributes at most two.
proof fn lemma_cell_corner_bound(
    i: int,
    j: int,
    k: int,
    fx: int,
    fy: int,
    fz: int,
    dx: int,
    dy: int,
    dz: int,
)
    requires
        0 <= fx <= ONE,
        0 <= fy <= ONE,
        0 <= fz <= ONE,
        0 <= dx <= 1,
        0 <= dy <= 1,
        0 <= dz <= 1,
    ensures
        -2 * ONE <= cell_corner(i, j, k, fx, fy, fz, dx, dy, dz) <= 2 * ONE,
{
    lemma_grad_bound(
        lattice_hash(i + dx, j + dy, k + dz),
        fx - dx * ONE,
        fy - dy * ONE,
        fz - dz * ONE,
        ONE as int,
    );
}

/// Within a cell and on its faces, a blend along x is at most two.
proof fn lemma_blend_x_bound(i: int, j: int, k: int, fx: int, fy: int, fz: int, dy: int, dz: int)
    requires
        0 <= fx <= ONE,
        0 <= fy <= ONE,
        0 <= fz <= ONE,
        0 <= dy <= 1,
        0 <= dz <= 1,
    ensures
        -2 * ONE <= blend_x(i, j, k, fx, fy, fz, dy, dz) <= 2 * ONE,
{
    lemma_fade_bounds(fx);
    lemma_cell_corner_bound(i, j, k, fx, fy, fz, 0, dy, dz);
    lemma_cell_corner_bound(i, j, k, fx, fy, fz, 1, dy, dz);
    lemma_lerp_between(
        spec_fade(fx),
        cell_corner(i, j, k, fx, fy, fz, 0, dy, dz),
        cell_corner(i, j, k, fx, fy, fz, 1, dy, dz),
    );
}

/// Within a cell and on its faces, a blend along x and y is at most two.
proof fn lemma_blend_xy_bound(i: int, j: int, k: int, fx: int, fy: int, fz: int, dz: int)
    requires
        0 <= fx <= ONE,
        0 <= fy <= ONE,
        0 <= fz <= ONE,
        0 <= dz <= 1,
    ensures
        -2 * ONE <= blend_xy(i, j, k, fx, fy, fz, dz) <= 2 * ONE,
{
    lemma_fade_bounds(fy);
    lemma_blend_x_bound(i, j, k, fx, fy, fz, 0, dz);
    lemma_blend_x_bound(i, j, k, fx, fy, fz, 1, dz);
    lemma_lerp_between(
        spec_fade(fy),
        blend_x(i, j, k, fx, fy, fz, 0, dz),
        blend_x(i, j, k, fx, fy, fz, 1, dz),
    );
}

/// A step of one along one axis moves a corner contribution by at most one.
proof fn lemma_cell_corner_step(
    i: int,
    j: int,
    k: int,
    fx: int,
    fy: int,
    fz: int,
    dx: int,
    dy: int,
    dz: int,
    sx: int,
    sy: int,
    sz: int,
)
    requires
        0 <= sx,
        0 <= sy,
        0 <= sz,
        sx + sy + sz == 1,
    ensures
        -1 <= cell_corner(i, j, k, fx + sx, fy + sy, fz + sz, dx, dy, dz) - cell_corner(
            i,
            j,
            k,
            fx,
            fy,
            fz,
            dx,
            dy,
            dz,
        ) <= 1,
{
    lemma_grad_step(
        lattice_hash(i + dx, j + dy, k + dz),
        fx - dx * ONE,
        fy - dy * ONE,
        fz - dz * ONE,
        sx,
        sy,
        sz,
    );
}

/// A step of one along one axis moves a blend along x by at most one, and
/// by at most nine where the step is along x.
proof fn lemma_blend_x_step(
    i: int,
    j: int,
    k: int,
    fx: int,
    fy: int,
    fz: int,
    dy: int,
    dz: int,
    sx: int,
    sy: int,
    sz: int,
)
    requires
        0 <= fx,
        0 <= fy,
        0 <= fz,
        fx + sx <= ONE,
        fy + sy <= ONE,
        fz + sz <= ONE,
        0 <= sx,
        0 <= sy,
        0 <= sz,
        sx + sy + sz == 1,
        0 <= dy <= 1,
        0 <= dz <= 1,
    ensures
        -(1 + 8 * sx) <= blend_x(i, j, k, fx + sx, fy + sy, fz + sz, dy, dz) - blend_x(
            i,
            j,
            k,
            fx,
            fy,
            fz,
            dy,
            dz,
        ) <= 1 + 8 * sx,
{
    let a = cell_corner(i, j, k, fx, fy, fz, 0, dy, dz);
    let b = cell_corner(i, j, k, fx, fy, fz, 1, dy, dz);
    let c = cell_corner(i, j, k, fx + sx, fy + sy, fz + sz, 0, dy, dz);
    let d = cell_corner(i, j, k, fx + sx, fy + sy, fz + sz, 1, dy, dz);
    lemma_cell_corner_step(i, j, k, fx, fy, fz, 0, dy, dz, sx, sy, sz);
    lemma_cell_corner_step(i, j, k, fx, fy, fz, 1, dy, dz, sx, sy, sz);
    lemma_fade_bounds(fx + sx);
    if sx == 1 {
        lemma_fade_step(fx);
        lemma_cell_corner_bound(i, j, k, fx, fy, fz, 0, dy, dz);
        lemma_cell_corner_bound(i, j, k, fx, fy, fz, 1, dy, dz);
        lemma_lerp_step(spec_fade(fx), spec_fade(fx + 1), a, b, c, d, 1);
    } else {
        lemma_lerp_value_step(spec_fade(fx), a, b, c, d, 1);
    }
}

/// A step of one along one axis moves a blend along x and y by at most
/// one, and by at most nine where the step is along x or y.
proof fn lemma_blend_xy_step(
    i: int,
    j: int,
    k: int,
    fx: int,
    fy: int,
    fz: int,
    dz: int,
    sx: int,
    sy: int,
    sz: int,
)
    requires
        0 <= fx,
        0 <= fy,
        0 <= fz,
        fx + sx <= ONE,
        fy + sy <= ONE,
        fz + sz <= ONE,
        0 <= sx,
        0 <= sy,
        0 <= sz,
        sx + sy + sz == 1,
        0 <= dz <= 1,
    ensures
        -(1 + 8 * sx + 8 * sy) <= blend_xy(i, j, k, fx + sx, fy + sy, fz + sz, dz) - blend_xy(
            i,
            j,
            k,
            fx,
            fy,
            fz,
            dz,
        ) <= 1 + 8 * sx + 8 * sy,
{
    let a = blend_x(i, j, k, fx, fy, fz, 0, dz);
    let b = blend_x(i, j, k, fx, fy, fz, 1, dz);
    let c = blend_x(i, j, k, fx + sx, fy + sy, fz + sz, 0, dz);
    let d = blend_x(i, j, k, fx + sx, fy + sy, fz + sz, 1, dz);
    lemma_blend_x_step(i, j, k, fx, fy, fz, 0, dz, sx, sy, sz);
    lemma_blend_x_step(i, j, k, fx, fy, fz, 1, dz, sx, sy, sz);
    lemma_fade_bounds(fy + sy);
    if sy == 1 {
        lemma_fade_step(fy);
        lemma_blend_x_bound(i, j, k, fx, fy, fz, 0, dz);
        lemma_blend_x_bound(i, j, k, fx, fy, fz, 1, dz);
        lemma_lerp_step(spec_fade(fy), spec_fade(fy + 1), a, b, c, d, 1);
    } else {
        lemma_lerp_value_step(spec_fade(fy), a, b, c, d, 1 + 8 * sx);
    }
}

/// A step of one along one axis moves the blend over a cell by at most nine.
proof fn lemma_blend_xyz_step(
    i: int,
    j: int,
    k: int,
    fx: int,
    fy: int,
    fz: int,
    sx: int,
    sy: int,
    sz: int,
)
    requires
        0 <= fx,
        0 <= fy,
        0 <= fz,
        fx + sx <= ONE,
        fy + sy <= ONE,
        fz + sz <= ONE,
        0 <= sx,
        0 <= sy,
        0 <= sz,
        sx + sy + sz == 1,
    ensures
        -9 <= blend_xyz(i, j, k, fx + sx, fy + sy, fz + sz) - blend_xyz(i, j, k, fx, fy, fz) <= 9,
{
    let a = blend_xy(i, j, k, fx, fy, fz, 0);
    let b = blend_xy(i, j, k, fx, fy, fz, 1);
    let c = blend_xy(i, j, k, fx + sx, fy + sy, fz + sz, 0);
    let d = blend_xy(i, j, k, fx + sx, fy + sy, fz + sz, 1);
    lemma_blend_xy_step(i, j, k, fx, fy, fz, 0, sx, sy, sz);
    lemma_blend_xy_step(i, j, k, fx, fy, fz, 1, sx, sy, sz);
    lemma_fade_bounds(fz + sz);
    if sz == 1 {
        lemma_fade_step(fz);
        lemma_blend_xy_bound(i, j, k, fx, fy, fz, 0);
        lemma_blend_xy_bound(i, j, k, fx, fy, fz, 1);
        lemma_lerp_step(spec_fade(fz), spec_fade(fz + 1), a, b, c, d, 1);
    } else {
        lemma_lerp_value_step(spec_fade(fz), a, b, c, d, 1 + 8 * sx + 8 * sy);
    }
}

/// On the far x face of a cell the blend along x is the blend on the near
/// face of the next cell.
proof fn lemma_blend_x_carry(i: int, j: int, k: int, fy: int, fz: int, dy: int, dz: int)
    ensures
        blend_x(i, j, k, ONE as int, fy, fz, dy, dz) == blend_x(i + 1, j, k, 0, fy, fz, dy, dz),
{
    lemma_fade_bounds(ONE as int);
    lemma_fade_bounds(0);
    lemma_lerp_between(
        ONE as int,
        cell_corner(i, j, k, ONE as int, fy, fz, 0, dy, dz),
        cell_corner(i, j, k, ONE as int, fy, fz, 1, dy, dz),
    );
    lemma_lerp_between(
        0,
        cell_corner(i + 1, j, k, 0, fy, fz, 0, dy, dz),
        cell_corner(i + 1, j, k, 0, fy, fz, 1, dy, dz),
    );
}

/// Along y, the far face of a cell is the near face of the next cell.
proof fn lemma_blend_x_carry_y(i: int, j: int, k: int, fx: int, fz: int, dz: int)
    ensures
        blend_x(i, j, k, fx, ONE as int, fz, 1, dz) == blend_x(i, j + 1, k, fx, 0, fz, 0, dz),
{
}

/// Along z, the far face of a cell is the near face of the next cell.
proof fn lemma_blend_x_carry_z(i: int, j: int, k: int, fx: int, fy: int, dy: int)
    ensures
        blend_x(i, j, k, fx, fy, ONE as int, dy, 1) == blend_x(i, j, k + 1, fx, fy, 0, dy, 0),
{
}

/// The blend on a far face of a cell is the blend on the near face of the
/// cell beyond it.
proof fn lemma_blend_carry(i: int, j: int, k: int, fx: int, fy: int, fz: int)
    ensures
        blend_xyz(i, j, k, ONE as int, fy, fz) == blend_xyz(i + 1, j, k, 0, fy, fz),
        blend_xyz(i, j, k, fx, ONE as int, fz) == blend_xyz(i, j + 1, k, fx, 0, fz),
        blend_xyz(i, j, k, fx, fy, ONE as int) == blend_xyz(i, j, k + 1, fx, fy, 0),
{
    lemma_fade_bounds(ONE as int);
    lemma_fade_bounds(0);
    assert(blend_xyz(i, j, k, ONE as int, fy, fz) == blend_xyz(i + 1, j, k, 0, fy, fz)) by {
        lemma_blend_x_carry(i, j, k, fy, fz, 0, 0);
        lemma_blend_x_carry(i, j, k, fy, fz, 1, 0);
        lemma_blend_x_carry(i, j, k, fy, fz, 0, 1);
        lemma_blend_x_carry(i, j, k, fy, fz, 1, 1);
    }
    assert(blend_xyz(i, j, k, fx, ONE as int, fz) == blend_xyz(i, j + 1, k, fx, 0, fz)) by {
        lemma_blend_x_carry_y(i, j, k, fx, fz, 0);
        lemma_blend_x_carry_y(i, j, k, fx, fz, 1);
        lemma_lerp_between(
            ONE as int,
            blend_x(i, j, k, fx, ONE as int, fz, 0, 0),
            blend_x(i, j, k, fx, ONE as int, fz, 1, 0),
        );
        lemma_lerp_between(
            ONE as int,
            blend_x(i, j, k, fx, ONE as int, fz, 0, 1),
            blend_x(i, j, k, fx, ONE as int, fz, 1, 1),
        );
        lemma_lerp_between(
            0,
            blend_x(i, j + 1, k, fx, 0, fz, 0, 0),
            blend_x(i, j + 1, k, fx, 0, fz, 1, 0),
        );
        lemma_lerp_between(
            0,
            blend_x(i, j + 1, k, fx, 0, fz, 0, 1),
            blend_x(i, j + 1, k, fx, 0, fz, 1, 1),
        );
    }
    assert(blend_xyz(i, j, k, fx, fy, ONE as int) == blend_xyz(i, j, k + 1, fx, fy, 0)) by {
        lemma_blend_x_carry_z(i, j, k, fx, fy, 0);
        lemma_blend_x_carry_z(i, j, k, fx, fy, 1);
        lemma_lerp_between(
            ONE as int,
            blend_xy(i, j, k, fx, fy, ONE as int, 0),
            blend_xy(i, j, k, fx, fy, ONE as int, 1),
        );
        lemma_lerp_between(
            0,
            blend_xy(i, j, k + 1, fx, fy, 0, 0),
            blend_xy(i, j, k + 1, fx, fy, 0, 1),
        );
    }
}

/// A coordinate one step further lies in the same cell, or at the start of
/// the next cell.
proof fn lemma_next_offset(x: int)
    ensures
        offset(x) + 1 < ONE ==> cell(x + 1) == cell(x) && offset(x + 1) == offset(x) + 1,
        offset(x) + 1 == ONE ==> cell(x + 1) == cell(x) + 1 && offset(x + 1) == 0,
        0 <= offset(x) < ONE,
{
}

/// One fixed-point step along one axis changes the lattice noise by at most
/// nine of the smallest fixed-point units.
pub proof fn lemma_noise_step(x: int, y: int, z: int, sx: int, sy: int, sz: int)
    requires
        0 <= sx,
        0 <= sy,
        0 <= sz,
        sx + sy + sz == 1,
    ensures
        -9 <= lattice_noise(x + sx, y + sy, z + sz) - lattice_noise(x, y, z) <= 9,
{
    let i = cell(x);
    let j = cell(y);
    let k = cell(z);
    let fx = offset(x);
    let fy = offset(y);
    let fz = offset(z);
    lemma_next_offset(x);
    lemma_next_offset(y);
    lemma_next_offset(z);
    lemma_noise_is_blend(x, y, z);
    lemma_noise_is_blend(x + sx, y + sy, z + sz);
    lemma_blend_xyz_step(i, j, k, fx, fy, fz, sx, sy, sz);
    lemma_blend_carry(i, j, k, fx, fy, fz);
}

/// The distance between two points, summed over the three axes.
pub open spec fn distance(x: int, y: int, z: int, a: int, b: int, c: int) -> int {
    (if a >= x { a - x } else { x - a }) + (if b >= y { b - y } else { y - b }) + (if c >= z {
        c - z
    } else {
        z - c
    })
}

/// The lattice noise at two points differs by at most nine times their
/// distance: the field has no jumps, neither inside a cell nor between
/// cells.
pub proof fn lemma_noise_lipschitz(x: int, y: int, z: int, a: int, b: int, c: int)
    ensures
        -9 * distance(x, y, z, a, b, c) <= lattice_noise(a, b, c) - lattice_noise(x, y, z) <= 9
            * distance(x, y, z, a, b, c),
    decreases distance(x, y, z, a, b, c),
{
    if a > x {
        lemma_noise_lipschitz(x, y, z, a - 1, b, c);
        lemma_noise_step(a - 1, b, c, 1, 0, 0);
    } else if a < x {
        lemma_noise_lipschitz(x, y, z, a + 1, b, c);
        lemma_noise_step(a, b, c, 1, 0, 0);
    } else if b > y {
        lemma_noise_lipschitz(x, y, z, a, b - 1, c);
        lemma_noise_step(a, b - 1, c, 0, 1, 0);
    } else if b < y {
        lemma_noise_lipschitz(x, y, z, a, b + 1, c);
        lemma_noise_step(a, b, c, 0, 1, 0);
    } else if c > z {
        lemma_noise_lipschitz(x, y, z, a, b, c - 1);
        lemma_noise_step(a, b, c - 1, 0, 0, 1);
    } else if c < z {
        lemma_noise_lipschitz(x, y, z, a, b, c + 1);
        lemma_noise_step(a, b, c, 0, 0, 1);
    }
}

} // verus!
