use vstd::prelude::*;

use crate::mask::{FluidMask, Idx};
use crate::state::Direction;

verus! {

// ============================================================================
// One-dimensional substencils on a grid line
// ============================================================================

/// Point number `t` of grid line `line`: `(line, t)` on a vertical line
/// (`Direction::X`), `(t, line)` on a horizontal one (`Direction::Y`).
pub open spec fn line_point(dir: Direction, line: int, t: int) -> (int, int) {
    match dir {
        Direction::X => (line, t),
        Direction::Y => (t, line),
    }
}

/// Number of grid points along a line of the given family.
pub open spec fn line_extent(mask: FluidMask, dir: Direction) -> int {
    match dir {
        Direction::X => mask.ny as int,
        Direction::Y => mask.nx as int,
    }
}

/// Largest shift the substencil search tries.
pub open spec fn max_shift(mask: FluidMask, dir: Direction, width: int) -> int {
    line_extent(mask, dir) + width
}

/// All `width` consecutive points starting at `start` are fluid grid cells.
pub open spec fn substencil_fits(
    mask: FluidMask,
    dir: Direction,
    line: int,
    start: int,
    width: int,
) -> bool {
    forall|a: int|
        0 <= a < width ==> #[trigger] mask.fluid_cell(
            line_point(dir, line, start + a).0,
            line_point(dir, line, start + a).1,
        )
}

/// The substencil shifted by `t` from `start` fits.
pub open spec fn fits_shifted(
    mask: FluidMask,
    dir: Direction,
    line: int,
    start: int,
    width: int,
    t: int,
) -> bool {
    substencil_fits(mask, dir, line, start + t, width)
}

/// The `width` consecutive points starting at `start`.
pub open spec fn substencil(dir: Direction, line: int, start: int, width: int) -> Seq<Idx> {
    Seq::new(
        width as nat,
        |a: int|
            (
                line_point(dir, line, start + a).0 as isize,
                line_point(dir, line, start + a).1 as isize,
            ),
    )
}

/// Search order of shifts: `0, -1, +1, -2, +2, ...`.
pub open spec fn shift_rank(s: int) -> int {
    if s < 0 {
        -2 * s - 1
    } else {
        2 * s
    }
}

/// The shift chosen by the search, starting at magnitude `mag`.
pub open spec fn shift_search(
    mask: FluidMask,
    dir: Direction,
    line: int,
    start: int,
    width: int,
    mag: int,
) -> Option<int>
    decreases max_shift(mask, dir, width) + 1 - mag,
{
    if mag < 0 || mag > max_shift(mask, dir, width) {
        None
    } else if substencil_fits(mask, dir, line, start - mag, width) {
        Some(-mag)
    } else if mag != 0 && substencil_fits(mask, dir, line, start + mag, width) {
        Some(mag)
    } else {
        shift_search(mask, dir, line, start, width, mag + 1)
    }
}

/// The shift that moves a substencil starting at `start` wholly into the
/// fluid: the first fitting one in the order `0, -1, +1, -2, +2, ...`,
/// up to the largest shift tried.
pub open spec fn fit_shift(
    mask: FluidMask,
    dir: Direction,
    line: int,
    start: int,
    width: int,
) -> Option<int> {
    shift_search(mask, dir, line, start, width, 0)
}

proof fn lemma_search_from(
    mask: FluidMask,
    dir: Direction,
    line: int,
    start: int,
    width: int,
    mag: int,
)
    requires
        0 <= mag,
        forall|t: int| -mag < t < mag ==> !fits_shifted(mask, dir, line, start, width, t),
    ensures
        shift_search(mask, dir, line, start, width, mag) matches Some(s) ==> {
            &&& substencil_fits(mask, dir, line, start + s, width)
            &&& -max_shift(mask, dir, width) <= s <= max_shift(mask, dir, width)
            &&& forall|t: int|
                shift_rank(t) < shift_rank(s) ==> !fits_shifted(mask, dir, line, start, width, t)
        },
        shift_search(mask, dir, line, start, width, mag) is None ==> forall|t: int|
            -max_shift(mask, dir, width) <= t <= max_shift(mask, dir, width)
                ==> !fits_shifted(mask, dir, line, start, width, t),
    decreases max_shift(mask, dir, width) + 1 - mag,
{
    let mx = max_shift(mask, dir, width);
    if mag > mx {
    } else if substencil_fits(mask, dir, line, start - mag, width) {
        assert(start + (-mag) == start - mag);
    } else if mag != 0 && substencil_fits(mask, dir, line, start + mag, width) {
        assert forall|t: int| shift_rank(t) < shift_rank(mag) implies !fits_shifted(mask, dir, line, start, width, t) by {
            if t == -mag {
                assert(start + t == start - mag);
            }
        }
    } else {
        assert forall|t: int| -(mag + 1) < t < mag + 1 implies !fits_shifted(mask, dir, line, start, width, t) by {
            if t == -mag {
                assert(start + t == start - mag);
            }
        }
        lemma_search_from(mask, dir, line, start, width, mag + 1);
    }
}

/// The substencil search tries the nearest shifts first and never drops
/// points: the chosen shift makes all `width` points fluid grid cells, and
/// no shift earlier in the order `0, -1, +1, -2, +2, ...` does; when the
/// search fails, no shift up to the largest one tried fits.
pub proof fn lemma_fit_shift_is_nearest(
    mask: FluidMask,
    dir: Direction,
    line: int,
    start: int,
    width: int,
)
    ensures
        fit_shift(mask, dir, line, start, width) matches Some(s) ==> {
            &&& substencil_fits(mask, dir, line, start + s, width)
            &&& -max_shift(mask, dir, width) <= s <= max_shift(mask, dir, width)
            &&& forall|t: int|
                shift_rank(t) < shift_rank(s) ==> !fits_shifted(mask, dir, line, start, width, t)
        },
        fit_shift(mask, dir, line, start, width) is None ==> forall|t: int|
            -max_shift(mask, dir, width) <= t <= max_shift(mask, dir, width)
                ==> !fits_shifted(mask, dir, line, start, width, t),
{
    lemma_search_from(mask, dir, line, start, width, 0);
}

/// The `width` consecutive points from `start` on the line, if all are
/// fluid grid cells.
fn substencil_at(
    mask: &FluidMask,
    dir: Direction,
    line: isize,
    start: isize,
    width: isize,
) -> (r: Option<Vec<Idx>>)
    requires
        mask.wf(),
        width >= 0,
        start + width <= isize::MAX,
    ensures
        r.is_some() == substencil_fits(*mask, dir, line as int, start as int, width as int),
        r matches Some(v) ==> v@ == substencil(dir, line as int, start as int, width as int),
{
    let mut v: Vec<Idx> = Vec::new();
    let mut a: isize = 0;
    while a < width
        invariant
            mask.wf(),
            0 <= a <= width,
            start + width <= isize::MAX,
            v@ == substencil(dir, line as int, start as int, a as int),
            forall|b: int|
                0 <= b < a ==> #[trigger] mask.fluid_cell(
                    line_point(dir, line as int, start + b).0,
                    line_point(dir, line as int, start + b).1,
                ),
        decreases width - a,
    {
        let t = start + a;
        let idx: Idx = match dir {
            Direction::X => (line, t),
            Direction::Y => (t, line),
        };
        assert((idx.0 as int, idx.1 as int) == line_point(dir, line as int, start + a));
        if !mask.is_in_grid(idx) || !mask.is_in_domain(idx) {
            assert(!mask.fluid_cell(
                line_point(dir, line as int, start + a).0,
                line_point(dir, line as int, start + a).1,
            ));
            return None;
        }
        v.push(idx);
        a = a + 1;
        assert(v@ =~= substencil(dir, line as int, start as int, a as int));
    }
    Some(v)
}

/// The chosen shift `s` is a nearest fitting one: the substencil moved by
/// `s` fits, no shift of smaller size fits, and a positive shift is taken
/// only when the negative shift of the same size does not fit.
pub proof fn lemma_fit_shift_minimal(
    mask: FluidMask,
    dir: Direction,
    line: int,
    start: int,
    width: int,
)
    ensures
        fit_shift(mask, dir, line, start, width) matches Some(s) ==> {
            &&& substencil_fits(mask, dir, line, start + s, width)
            &&& forall|t: int|
                -s < t < s || s < t < -s ==> !#[trigger] substencil_fits(
                    mask,
                    dir,
                    line,
                    start + t,
                    width,
                )
            &&& s > 0 ==> !substencil_fits(mask, dir, line, start - s, width)
        },
{
    lemma_fit_shift_is_nearest(mask, dir, line, start, width);
    if let Some(s) = fit_shift(mask, dir, line, start, width) {
        assert forall|t: int| -s < t < s || s < t < -s implies !#[trigger] substencil_fits(
            mask,
            dir,
            line,
            start + t,
            width,
        ) by {
            assert(shift_rank(t) < shift_rank(s));
            assert(!fits_shifted(mask, dir, line, start, width, t));
        }
        if s > 0 {
            assert(shift_rank(-s) < shift_rank(s));
            assert(!fits_shifted(mask, dir, line, start, width, -s));
            assert(start + (-s) == start - s);
        }
    }
}

/// Shifts a substencil of `width` consecutive points on grid line `line`,
/// nominally starting at `base_start`, as a whole along the line until all
/// its points are fluid grid cells. The nearest shifts are tried first
/// (`0, -1, +1, -2, +2, ...`); points are never dropped. `None` when no
/// shift up to the line length plus `width` fits.
pub fn shifted_substencil_indices(
    mask: &FluidMask,
    dir: Direction,
    line: isize,
    base_start: isize,
    width: isize,
) -> (r: Option<Vec<Idx>>)
    requires
        mask.wf(),
        width >= 0,
        line_extent(*mask, dir) + width < isize::MAX,
        base_start - max_shift(*mask, dir, width as int) >= isize::MIN,
        base_start + max_shift(*mask, dir, width as int) + width <= isize::MAX,
    ensures
        r.is_some() == fit_shift(*mask, dir, line as int, base_start as int, width as int).is_some(),
        r matches Some(v) ==> v@ == substencil(
            dir,
            line as int,
            base_start + fit_shift(*mask, dir, line as int, base_start as int, width as int)->0,
            width as int,
        ),
{
    proof {
        mask.lemma_sizes();
    }
    let extent: usize = match dir {
        Direction::X => mask.ny,
        Direction::Y => mask.nx,
    };
    let max: isize = extent as isize + width;
    let ghost mx = max_shift(*mask, dir, width as int);
    assert(max == mx);
    let mut mag: isize = 0;
    while mag <= max
        invariant
            mask.wf(),
            width >= 0,
            max == mx,
            max < isize::MAX,
            mx == max_shift(*mask, dir, width as int),
            0 <= mag <= max + 1,
            base_start - mx >= isize::MIN,
            base_start + mx + width <= isize::MAX,
            fit_shift(*mask, dir, line as int, base_start as int, width as int) == shift_search(
                *mask,
                dir,
                line as int,
                base_start as int,
                width as int,
                mag as int,
            ),
        decreases max + 1 - mag,
    {
        let lo = base_start - mag;
        if let Some(v) = substencil_at(mask, dir, line, lo, width) {
            assert(base_start + (-mag) == lo);
            return Some(v);
        }
        if mag != 0 {
            let hi = base_start + mag;
            if let Some(v) = substencil_at(mask, dir, line, hi, width) {
                return Some(v);
            }
        }
        mag = mag + 1;
    }
    None
}

// ============================================================================
// Two-dimensional boundary stencil E_r
// ============================================================================

/// Index of the `l`-th grid line of `E_r`, counted from the boundary into
/// the fluid.
pub open spec fn stencil_line(first: int, step: int, l: int) -> int {
    first + l * step
}

/// Nominal start of the substencil on line `l`: centred on the grid point
/// `m_lines[l]` where the inward normal crosses the line.
pub open spec fn line_base(m_lines: Seq<isize>, r: int, l: int) -> int {
    m_lines[l] - r / 2
}

/// The first `n` substencils of `E_r`, concatenated line by line; `None`
/// if one of them cannot be fitted into the fluid.
pub open spec fn paper_stencil(
    mask: FluidMask,
    dir: Direction,
    first: int,
    step: int,
    m_lines: Seq<isize>,
    r: int,
    n: int,
) -> Option<Seq<Idx>>
    decreases n,
{
    if n <= 0 {
        Some(Seq::empty())
    } else {
        let line = stencil_line(first, step, n - 1);
        let base = line_base(m_lines, r, n - 1);
        match (
            paper_stencil(mask, dir, first, step, m_lines, r, n - 1),
            fit_shift(mask, dir, line, base, r + 1),
        ) {
            (Some(a), Some(s)) => Some(a + substencil(dir, line, base + s, r + 1)),
            _ => None,
        }
    }
}

proof fn lemma_paper_stencil_none(
    mask: FluidMask,
    dir: Direction,
    first: int,
    step: int,
    m_lines: Seq<isize>,
    r: int,
    n: int,
    n2: int,
)
    requires
        0 <= n <= n2,
        paper_stencil(mask, dir, first, step, m_lines, r, n) is None,
    ensures
        paper_stencil(mask, dir, first, step, m_lines, r, n2) is None,
    decreases n2 - n,
{
    if n < n2 {
        lemma_paper_stencil_none(mask, dir, first, step, m_lines, r, n, n2 - 1);
    }
}

/// `E_r` is made of whole substencils of `r + 1` fluid grid cells each:
/// its first `n` lines hold exactly `n (r + 1)` points, all fluid cells of
/// the grid.
pub proof fn lemma_paper_stencil_shape(
    mask: FluidMask,
    dir: Direction,
    first: int,
    step: int,
    m_lines: Seq<isize>,
    r: int,
    n: int,
)
    requires
        mask.wf(),
        r >= 0,
        n >= 0,
    ensures
        paper_stencil(mask, dir, first, step, m_lines, r, n) matches Some(e) ==> {
            &&& e.len() == n * (r + 1)
            &&& forall|k: int|
                0 <= k < e.len() ==> #[trigger] mask.fluid_cell(e[k].0 as int, e[k].1 as int)
        },
    decreases n,
{
    if n > 0 {
        lemma_paper_stencil_shape(mask, dir, first, step, m_lines, r, n - 1);
        let line = stencil_line(first, step, n - 1);
        let base = line_base(m_lines, r, n - 1);
        if let Some(e) = paper_stencil(mask, dir, first, step, m_lines, r, n) {
            mask.lemma_sizes();
            let a = paper_stencil(mask, dir, first, step, m_lines, r, n - 1)->0;
            let s = fit_shift(mask, dir, line, base, r + 1)->0;
            lemma_fit_shift_is_nearest(mask, dir, line, base, r + 1);
            let sub = substencil(dir, line, base + s, r + 1);
            assert(e == a + sub);
            assert((n - 1) * (r + 1) + (r + 1) == n * (r + 1)) by (nonlinear_arith);
            assert forall|k: int| 0 <= k < e.len() implies #[trigger] mask.fluid_cell(
                e[k].0 as int,
                e[k].1 as int,
            ) by {
                if k < a.len() {
                    assert(e[k] == a[k]);
                } else {
                    let q = k - a.len();
                    assert(e[k] == sub[q]);
                    assert(mask.fluid_cell(
                        line_point(dir, line, base + s + q).0,
                        line_point(dir, line, base + s + q).1,
                    ));
                }
            }
        }
    }
}

/// When every line's substencil fits where it is nominally placed, `E_r`
/// holds on its `l`-th line (line `first + l * step`) exactly the `r + 1`
/// consecutive points starting `floor(r / 2)` below the crossing point
/// `m_lines[l]`: entry `l * (r + 1) + a` is point `m_lines[l] - r / 2 + a`
/// of that line.
pub proof fn lemma_unshifted_stencil_points(
    mask: FluidMask,
    dir: Direction,
    first: int,
    step: int,
    m_lines: Seq<isize>,
    r: int,
    n: int,
)
    requires
        mask.wf(),
        r >= 0,
        0 <= n <= m_lines.len(),
        forall|l: int|
            0 <= l < n ==> #[trigger] substencil_fits(
                mask,
                dir,
                first + l * step,
                m_lines[l] - r / 2,
                r + 1,
            ),
    ensures
        paper_stencil(mask, dir, first, step, m_lines, r, n) is Some,
        paper_stencil(mask, dir, first, step, m_lines, r, n)->0.len() == n * (r + 1),
        forall|l: int, a: int|
            0 <= l < n && 0 <= a <= r ==> {
                let p = #[trigger] paper_stencil(mask, dir, first, step, m_lines, r, n)->0[l * (r
                    + 1) + a];
                &&& dir == Direction::X ==> p.0 == first + l * step && p.1 == m_lines[l] - r / 2 + a
                &&& dir == Direction::Y ==> p.1 == first + l * step && p.0 == m_lines[l] - r / 2 + a
            },
    decreases n,
{
    if n > 0 {
        lemma_unshifted_stencil_points(mask, dir, first, step, m_lines, r, n - 1);
        let line = first + (n - 1) * step;
        let base = m_lines[n - 1] - r / 2;
        assert(substencil_fits(mask, dir, line, base, r + 1));
        assert(stencil_line(first, step, n - 1) == line);
        assert(line_base(m_lines, r, n - 1) == base);
        mask.lemma_sizes();
        assert(substencil_fits(mask, dir, line, base - 0, r + 1));
        assert(fit_shift(mask, dir, line, base, r + 1) == Some(0int));
        let prev = paper_stencil(mask, dir, first, step, m_lines, r, n - 1)->0;
        assert(base + 0 == base);
        let sub = substencil(dir, line, base, r + 1);
        let e = paper_stencil(mask, dir, first, step, m_lines, r, n)->0;
        assert(e == prev + sub);
        assert(prev.len() == (n - 1) * (r + 1));
        assert((n - 1) * (r + 1) + (r + 1) == n * (r + 1)) by (nonlinear_arith);
        assert forall|l: int, a: int| 0 <= l < n && 0 <= a <= r implies {
            let p = #[trigger] e[l * (r + 1) + a];
            &&& dir == Direction::X ==> p.0 == first + l * step && p.1 == m_lines[l] - r / 2 + a
            &&& dir == Direction::Y ==> p.1 == first + l * step && p.0 == m_lines[l] - r / 2 + a
        } by {
            if l < n - 1 {
                assert(l * (r + 1) + a < (n - 1) * (r + 1)) by (nonlinear_arith)
                    requires
                        0 <= l < n - 1,
                        0 <= a <= r,
                ;
                assert(e[l * (r + 1) + a] == prev[l * (r + 1) + a]);
            } else {
                assert(l * (r + 1) + a - prev.len() == a) by (nonlinear_arith)
                    requires
                        l == n - 1,
                        prev.len() == (n - 1) * (r + 1),
                ;
                assert(mask.fluid_cell(
                    line_point(dir, line, base + a).0,
                    line_point(dir, line, base + a).1,
                ));
                assert(e[l * (r + 1) + a] == sub[a]);
            }
        }
    }
}

/// The cubic case of the paper: when the substencils fit unshifted, line
/// `l` of `E_3` holds the four points `m - 1, m, m + 1, m + 2` around the
/// crossing point `m = m_lines[l]`.
pub proof fn lemma_cubic_stencil_brackets_the_crossing(
    mask: FluidMask,
    dir: Direction,
    first: int,
    step: int,
    m_lines: Seq<isize>,
)
    requires
        mask.wf(),
        m_lines.len() == 4,
        forall|l: int|
            0 <= l < 4 ==> #[trigger] substencil_fits(mask, dir, first + l * step, m_lines[l] - 1, 4),
    ensures
        ({
            let e = paper_stencil(mask, dir, first, step, m_lines, 3, 4)->0;
            &&& paper_stencil(mask, dir, first, step, m_lines, 3, 4) is Some
            &&& e.len() == 16
            &&& forall|l: int, a: int|
                0 <= l < 4 && 0 <= a < 4 ==> {
                    let p = #[trigger] e[4 * l + a];
                    &&& dir == Direction::X ==> p.0 == first + l * step && p.1 == m_lines[l] - 1 + a
                    &&& dir == Direction::Y ==> p.1 == first + l * step && p.0 == m_lines[l] - 1 + a
                }
        }),
{
    assert forall|l: int| 0 <= l < 4 implies #[trigger] substencil_fits(
        mask,
        dir,
        first + l * step,
        m_lines[l] - 3int / 2,
        3int + 1,
    ) by {
        assert(substencil_fits(mask, dir, first + l * step, m_lines[l] - 1, 4));
    }
    lemma_unshifted_stencil_points(mask, dir, first, step, m_lines, 3, 4);
    let e = paper_stencil(mask, dir, first, step, m_lines, 3, 4)->0;
    assert forall|l: int, a: int| 0 <= l < 4 && 0 <= a < 4 implies {
        let p = #[trigger] e[4 * l + a];
        &&& dir == Direction::X ==> p.0 == first + l * step && p.1 == m_lines[l] - 1 + a
        &&& dir == Direction::Y ==> p.1 == first + l * step && p.0 == m_lines[l] - 1 + a
    } by {
        assert(4 * l + a == l * (3int + 1) + a);
    }
}

/// Builds the boundary stencil `E_r` (`r = 0..4`) for the two-dimensional
/// WENO extrapolation at a boundary point.
///
/// `E_r` consists of `r + 1` one-dimensional substencils, each made of
/// `r + 1` consecutive grid points on one grid line of the family `dir`.
/// The lines are `first_line`, `first_line + step`, ..., successively
/// further into the fluid. On line `l` the substencil is nominally centred
/// on the grid point `m_lines[l]` (the grid point just below / left of the
/// place where the inward normal crosses the line, found by the caller from
/// the boundary geometry) and starts at `m_lines[l] - r / 2`; if it is not
/// wholly inside the fluid it is shifted as a whole along the line
/// (`shifted_substencil_indices`). Points are never dropped.
///
/// `None` when some substencil cannot be fitted. Otherwise the result holds
/// exactly `(r + 1)^2` fluid grid cells, line by line.
pub fn weno_stencil_extractor_indices(
    mask: &FluidMask,
    dir: Direction,
    first_line: isize,
    step: isize,
    m_lines: &[isize],
    r: usize,
) -> (res: Option<Vec<Idx>>)
    requires
        mask.wf(),
        r <= 4,
        m_lines@.len() == r + 1,
        step == 1 || step == -1,
        isize::MIN + 4 <= first_line <= isize::MAX - 4,
        line_extent(*mask, dir) + r + 1 < isize::MAX,
        forall|l: int|
            0 <= l <= r ==> line_base(m_lines@, r as int, l) - max_shift(*mask, dir, r + 1)
                >= isize::MIN && line_base(m_lines@, r as int, l) + max_shift(*mask, dir, r + 1)
                + r + 1 <= isize::MAX,
    ensures
        res.is_some() == paper_stencil(
            *mask,
            dir,
            first_line as int,
            step as int,
            m_lines@,
            r as int,
            r + 1,
        ).is_some(),
        res matches Some(e) ==> {
            &&& e@ == paper_stencil(
                *mask,
                dir,
                first_line as int,
                step as int,
                m_lines@,
                r as int,
                r + 1,
            )->0
            &&& e@.len() == (r + 1) * (r + 1)
            &&& forall|k: int|
                0 <= k < e@.len() ==> #[trigger] mask.fluid_cell(e@[k].0 as int, e@[k].1 as int)
        },
{
    let width: isize = (r + 1) as isize;
    let half: isize = (r / 2) as isize;
    let ghost ms = m_lines@;
    let mut e: Vec<Idx> = Vec::new();
    let mut l: usize = 0;
    while l <= r
        invariant
            mask.wf(),
            r <= 4,
            l <= r + 1,
            m_lines@ == ms,
            ms.len() == r + 1,
            step == 1 || step == -1,
            isize::MIN + 4 <= first_line <= isize::MAX - 4,
            line_extent(*mask, dir) + r + 1 < isize::MAX,
            width == r + 1,
            half == r as int / 2,
            forall|l2: int|
                0 <= l2 <= r ==> line_base(ms, r as int, l2) - max_shift(*mask, dir, r + 1)
                    >= isize::MIN && line_base(ms, r as int, l2) + max_shift(*mask, dir, r + 1)
                    + r + 1 <= isize::MAX,
            paper_stencil(*mask, dir, first_line as int, step as int, ms, r as int, l as int)
                == Some(e@),
        decreases r + 1 - l,
    {
        let line: isize = if step == 1 {
            first_line + l as isize
        } else {
            first_line - l as isize
        };
        assert(line_base(ms, r as int, l as int) - max_shift(*mask, dir, r + 1) >= isize::MIN);
        let base: isize = m_lines[l] - half;
        assert(line == stencil_line(first_line as int, step as int, l as int));
        assert(base == line_base(ms, r as int, l as int));
        match shifted_substencil_indices(mask, dir, line, base, width) {
            Some(mut sub) => {
                e.append(&mut sub);
            },
            None => {
                proof {
                    lemma_paper_stencil_none(
                        *mask,
                        dir,
                        first_line as int,
                        step as int,
                        ms,
                        r as int,
                        l + 1,
                        r + 1,
                    );
                }
                return None;
            },
        }
        l = l + 1;
    }
    proof {
        lemma_paper_stencil_shape(
            *mask,
            dir,
            first_line as int,
            step as int,
            ms,
            r as int,
            r + 1,
        );
        assert((r + 1) * (r + 1) == (r + 1) * (r as int + 1));
    }
    Some(e)
}

/// `E_r` together with the stored values of its points: each entry is
/// `(i, j, values[i * ny + j])` for the grid cells returned by
/// `weno_stencil_extractor_indices`, in the same order.
pub fn weno_stencil_extractor<T: Copy>(
    mask: &FluidMask,
    values: &[T],
    dir: Direction,
    first_line: isize,
    step: isize,
    m_lines: &[isize],
    r: usize,
) -> (res: Option<Vec<(isize, isize, T)>>)
    requires
        mask.wf(),
        values@.len() == mask.n_cells(),
        r <= 4,
        m_lines@.len() == r + 1,
        step == 1 || step == -1,
        isize::MIN + 4 <= first_line <= isize::MAX - 4,
        line_extent(*mask, dir) + r + 1 < isize::MAX,
        forall|l: int|
            0 <= l <= r ==> line_base(m_lines@, r as int, l) - max_shift(*mask, dir, r + 1)
                >= isize::MIN && line_base(m_lines@, r as int, l) + max_shift(*mask, dir, r + 1)
                + r + 1 <= isize::MAX,
    ensures
        res.is_some() == paper_stencil(
            *mask,
            dir,
            first_line as int,
            step as int,
            m_lines@,
            r as int,
            r + 1,
        ).is_some(),
        res matches Some(v) ==> {
            let e = paper_stencil(
                *mask,
                dir,
                first_line as int,
                step as int,
                m_lines@,
                r as int,
                r + 1,
            )->0;
            &&& v@.len() == e.len()
            &&& forall|k: int|
                0 <= k < v@.len() ==> #[trigger] v@[k] == (
                    e[k].0,
                    e[k].1,
                    values@[mask.grid_index(e[k].0 as int, e[k].1 as int)],
                )
        },
{
    let idx = match weno_stencil_extractor_indices(mask, dir, first_line, step, m_lines, r) {
        Some(e) => e,
        None => {
            return None;
        },
    };
    let mut out: Vec<(isize, isize, T)> = Vec::new();
    let mut k: usize = 0;
    while k < idx.len()
        invariant
            mask.wf(),
            values@.len() == mask.n_cells(),
            k <= idx@.len(),
            forall|q: int|
                0 <= q < idx@.len() ==> #[trigger] mask.fluid_cell(
                    idx@[q].0 as int,
                    idx@[q].1 as int,
                ),
            out@.len() == k,
            forall|q: int|
                0 <= q < k ==> #[trigger] out@[q] == (
                    idx@[q].0,
                    idx@[q].1,
                    values@[mask.grid_index(idx@[q].0 as int, idx@[q].1 as int)],
                ),
        decreases idx@.len() - k,
    {
        let p = idx[k];
        assert(mask.fluid_cell(p.0 as int, p.1 as int));
        let lin = mask.linear_index(p);
        out.push((p.0, p.1, values[lin]));
        k = k + 1;
    }
    Some(out)
}

// ============================================================================
// Nearest grid points
// ============================================================================

/// The grid line of the first interior line family member next to a
/// boundary point, clamped into `[0, n)`.
///
/// `q_ceil` and `q_floor` are the ceiling and floor of the boundary point's
/// coordinate in grid units along the line family's normal axis;
/// `outward_positive` tells whether the fluid's outward normal points
/// towards increasing indices, in which case the interior lies below.
pub fn first_interior_index(q_ceil: isize, q_floor: isize, outward_positive: bool, n: usize) -> (r:
    isize)
    requires
        0 < n <= isize::MAX,
        q_ceil > isize::MIN,
        q_floor < isize::MAX,
    ensures
        r == clamp_index(
            if outward_positive {
                q_ceil - 1
            } else {
                q_floor + 1
            },
            n as int,
        ),
        0 <= r < n,
{
    let raw = if outward_positive {
        q_ceil - 1
    } else {
        q_floor + 1
    };
    let hi = n as isize - 1;
    if raw < 0 {
        0
    } else if raw > hi {
        hi
    } else {
        raw
    }
}

/// `raw` clamped into `[0, n - 1]`.
pub open spec fn clamp_index(raw: int, n: int) -> int {
    if raw < 0 {
        0
    } else if raw > n - 1 {
        n - 1
    } else {
        raw
    }
}

/// Candidates around `c` examined by `find_nearest_grid_point`, in order.
pub open spec fn nearest_candidates(c: Idx) -> Seq<(int, int)> {
    let i = c.0 as int;
    let j = c.1 as int;
    seq![
        (i, j),
        (i - 1, j),
        (i + 1, j),
        (i, j - 1),
        (i, j + 1),
        (i + 1, j + 1),
        (i + 1, j - 1),
        (i - 1, j + 1),
        (i - 1, j - 1),
    ]
}

/// Candidates around `c` examined when a ghost point is mirrored into the
/// fluid, in order.
pub open spec fn reflection_candidates(c: Idx) -> Seq<(int, int)> {
    let i = c.0 as int;
    let j = c.1 as int;
    seq![
        (i, j),
        (i - 1, j),
        (i + 1, j),
        (i, j - 1),
        (i, j + 1),
        (i - 1, j - 1),
        (i - 1, j + 1),
        (i + 1, j - 1),
        (i + 1, j + 1),
    ]
}

/// Candidate `k` is the one picked: a fluid point whose key is below
/// `limit`, strictly smaller than the key of every earlier fluid candidate
/// and no larger than that of any later one (the first smallest wins).
pub open spec fn is_nearest(
    mask: FluidMask,
    cands: Seq<(int, int)>,
    keys: Seq<u64>,
    limit: u64,
    k: int,
) -> bool {
    &&& 0 <= k < cands.len()
    &&& mask.fluid(cands[k].0, cands[k].1)
    &&& keys[k] < limit
    &&& forall|j: int|
        0 <= j < k && #[trigger] mask.fluid(cands[j].0, cands[j].1) ==> keys[j] > keys[k]
    &&& forall|j: int|
        k < j < cands.len() && #[trigger] mask.fluid(cands[j].0, cands[j].1) ==> keys[j]
            >= keys[k]
}

/// No fluid candidate has a key below `limit`.
pub open spec fn none_below(
    mask: FluidMask,
    cands: Seq<(int, int)>,
    keys: Seq<u64>,
    limit: u64,
) -> bool {
    forall|j: int|
        0 <= j < cands.len() && #[trigger] mask.fluid(cands[j].0, cands[j].1) ==> keys[j]
            >= limit
}

/// Index of the fluid candidate with the smallest key below `limit`,
/// the first one on ties.
fn pick_nearest(mask: &FluidMask, cands: &[Idx; 9], keys: &[u64; 9], limit: u64) -> (r: Option<
    usize,
>)
    requires
        mask.wf(),
    ensures
        r matches Some(k) ==> is_nearest(
            *mask,
            cands@.map_values(|c: Idx| (c.0 as int, c.1 as int)),
            keys@,
            limit,
            k as int,
        ),
        r is None ==> none_below(
            *mask,
            cands@.map_values(|c: Idx| (c.0 as int, c.1 as int)),
            keys@,
            limit,
        ),
{
    let ghost cs = cands@.map_values(|c: Idx| (c.0 as int, c.1 as int));
    let mut best: Option<usize> = None;
    let mut best_key: u64 = limit;
    let mut k: usize = 0;
    while k < 9
        invariant
            mask.wf(),
            k <= 9,
            cs == cands@.map_values(|c: Idx| (c.0 as int, c.1 as int)),
            cs.len() == 9,
            keys@.len() == 9,
            best is None ==> best_key == limit && forall|j: int|
                0 <= j < k && #[trigger] mask.fluid(cs[j].0, cs[j].1) ==> keys@[j] >= limit,
            best matches Some(b) ==> {
                &&& b < k
                &&& best_key == keys@[b as int]
                &&& mask.fluid(cs[b as int].0, cs[b as int].1)
                &&& keys@[b as int] < limit
                &&& forall|j: int|
                    0 <= j < b && #[trigger] mask.fluid(cs[j].0, cs[j].1) ==> keys@[j]
                        > keys@[b as int]
                &&& forall|j: int|
                    b < j < k && #[trigger] mask.fluid(cs[j].0, cs[j].1) ==> keys@[j]
                        >= keys@[b as int]
            },
        decreases 9 - k,
    {
        assert((cands@[k as int].0 as int, cands@[k as int].1 as int) == cs[k as int]);
        if mask.is_in_domain(cands[k]) && keys[k] < best_key {
            best = Some(k);
            best_key = keys[k];
        }
        k = k + 1;
    }
    best
}

/// The grid point nearest to a boundary point `P0`.
///
/// `center` is the grid point obtained by rounding `P0` to grid units; the
/// fluid points among it and its eight neighbours (in the order of
/// `nearest_candidates`) compete. `dist_bits[k]` is the IEEE-754 bit
/// pattern of the (non-negative) Euclidean distance from candidate `k` to
/// `P0`; for non-negative doubles the bit patterns order exactly as the
/// values, so comparing them compares the distances. Only distances below
/// `1e50` count; the first smallest wins. `(0, 0)` when no candidate
/// qualifies.
///
/// The nine candidates must lie in the mask's classified box, where the
/// mask records the fluid classification of every point.
pub fn find_nearest_grid_point(mask: &FluidMask, center: Idx, dist_bits: &[u64; 9]) -> (r: Idx)
    requires
        mask.wf(),
        isize::MIN < center.0 < isize::MAX,
        isize::MIN < center.1 < isize::MAX,
        mask.in_box(center.0 - 1, center.1 - 1),
        mask.in_box(center.0 + 1, center.1 + 1),
    ensures
        (exists|k: int|
            is_nearest(*mask, nearest_candidates(center), dist_bits@, FAR_DISTANCE_BITS, k) && (
            r.0 as int, r.1 as int) == nearest_candidates(center)[k]) || (none_below(
            *mask,
            nearest_candidates(center),
            dist_bits@,
            FAR_DISTANCE_BITS,
        ) && r == (0isize, 0isize)),
{
    let (i, j) = center;
    let cands: [Idx; 9] = [
        (i, j),
        (i - 1, j),
        (i + 1, j),
        (i, j - 1),
        (i, j + 1),
        (i + 1, j + 1),
        (i + 1, j - 1),
        (i - 1, j + 1),
        (i - 1, j - 1),
    ];
    assert(cands@.map_values(|c: Idx| (c.0 as int, c.1 as int)) =~= nearest_candidates(center));
    match pick_nearest(mask, &cands, dist_bits, FAR_DISTANCE_BITS) {
        Some(k) => cands[k],
        None => (0, 0),
    }
}

/// Bit pattern of the double `1e50`, the distance beyond which no grid
/// point counts as near.
pub const FAR_DISTANCE_BITS: u64 = 0x4a51_1b0e_c57e_649a;

/// Bit pattern of the double `+infinity`.
pub const INFINITY_BITS: u64 = 0x7ff0_0000_0000_0000;

/// The fluid grid point nearest to the mirror image `Pi = 2 P0 - Pg` of a
/// ghost point `Pg` across its boundary foot `P0`.
///
/// `center` is `Pi` rounded to grid units; the fluid points among it and
/// its eight neighbours (in the order of `reflection_candidates`) compete.
/// `d2_bits[k]` is the bit pattern of the squared distance from candidate
/// `k` to `Pi`; any finite distance counts and the first smallest wins.
/// `None` when no candidate qualifies. The nine candidates must lie in the
/// mask's classified box.
pub fn reflected_interior_point(mask: &FluidMask, center: Idx, d2_bits: &[u64; 9]) -> (r: Option<
    Idx,
>)
    requires
        mask.wf(),
        isize::MIN < center.0 < isize::MAX,
        isize::MIN < center.1 < isize::MAX,
        mask.in_box(center.0 - 1, center.1 - 1),
        mask.in_box(center.0 + 1, center.1 + 1),
    ensures
        r matches Some(p) ==> exists|k: int|
            is_nearest(*mask, reflection_candidates(center), d2_bits@, INFINITY_BITS, k) && (
            p.0 as int, p.1 as int) == reflection_candidates(center)[k],
        r is None ==> none_below(*mask, reflection_candidates(center), d2_bits@, INFINITY_BITS),
{
    let (i, j) = center;
    let cands: [Idx; 9] = [
        (i, j),
        (i - 1, j),
        (i + 1, j),
        (i, j - 1),
        (i, j + 1),
        (i - 1, j - 1),
        (i - 1, j + 1),
        (i + 1, j - 1),
        (i + 1, j + 1),
    ];
    assert(cands@.map_values(|c: Idx| (c.0 as int, c.1 as int)) =~= reflection_candidates(center));
    match pick_nearest(mask, &cands, d2_bits, INFINITY_BITS) {
        Some(k) => Some(cands[k]),
        None => None,
    }
}

// ============================================================================
// Polynomial coefficient layout
// ============================================================================

/// Column of the monomial `x^i y^j` in the coefficient vector of a
/// two-dimensional polynomial: monomials are ordered by total degree
/// `t = i + j`, and within one degree by increasing power of `x`
/// (`y^t, x y^(t-1), ..., x^t`).
pub open spec fn monomial_column(i: int, j: int) -> int {
    (i + j) * (i + j + 1) / 2 + i
}

/// Column of the `x^k` monomial in the coefficient vector of a
/// two-dimensional polynomial (see `monomial_column`): it closes the block
/// of total degree `k`, after the `k (k + 1) / 2` monomials of lower degree.
pub fn xk_coefficient_column(k: usize) -> (col: usize)
    requires
        k * (k + 3) / 2 <= usize::MAX,
    ensures
        col == monomial_column(k as int, 0),
        col == k * (k + 3) / 2,
{
    let mut col: usize = 0;
    let mut t: usize = 0;
    while t < k
        invariant
            t <= k,
            k * (k + 3) / 2 <= usize::MAX,
            col == t * (t + 1) / 2,
        decreases k - t,
    {
        assert((t + 1) * (t + 2) / 2 == t * (t + 1) / 2 + t + 1) by (nonlinear_arith);
        assert((t + 1) * (t + 2) / 2 <= k * (k + 3) / 2) by (nonlinear_arith)
            requires
                t < k,
        ;
        col = col + t + 1;
        t = t + 1;
    }
    assert(k * (k + 1) / 2 + k == k * (k + 3) / 2) by (nonlinear_arith);
    col + k
}

} // verus!
