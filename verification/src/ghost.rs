use vstd::prelude::*;

use crate::mask::{FluidMask, Idx};

verus! {

/// A stencil offset `(di, dj)` relative to an anchor cell.
pub type Offset = (isize, isize);

// ============================================================================
// Strictly sorted point lists
// ============================================================================

/// Lexicographic order on grid points: first by `i`, then by `j`.
pub open spec fn lex_lt(a: Idx, b: Idx) -> bool {
    a.0 < b.0 || (a.0 == b.0 && a.1 < b.1)
}

/// Strictly increasing in lexicographic order (hence free of repeats).
pub open spec fn strictly_sorted(s: Seq<Idx>) -> bool {
    forall|a: int, b: int| 0 <= a < b < s.len() ==> lex_lt(#[trigger] s[a], #[trigger] s[b])
}

fn lex_less(a: Idx, b: Idx) -> (r: bool)
    ensures
        r == lex_lt(a, b),
{
    a.0 < b.0 || (a.0 == b.0 && a.1 < b.1)
}

/// Binary search in a strictly sorted list: the number of entries below
/// `p`, and whether `p` itself is present (at that position).
fn search_sorted(v: &Vec<Idx>, p: Idx) -> (r: (bool, usize))
    requires
        strictly_sorted(v@),
    ensures
        r.1 <= v@.len(),
        forall|k: int| 0 <= k < r.1 ==> lex_lt(#[trigger] v@[k], p),
        forall|k: int| r.1 <= k < v@.len() ==> !lex_lt(#[trigger] v@[k], p),
        r.0 == (r.1 < v@.len() && v@[r.1 as int] == p),
        r.0 == v@.contains(p),
{
    let mut lo: usize = 0;
    let mut hi: usize = v.len();
    while lo < hi
        invariant
            strictly_sorted(v@),
            lo <= hi <= v@.len(),
            forall|k: int| 0 <= k < lo ==> lex_lt(#[trigger] v@[k], p),
            forall|k: int| hi <= k < v@.len() ==> !lex_lt(#[trigger] v@[k], p),
        decreases hi - lo,
    {
        let mid = lo + (hi - lo) / 2;
        if lex_less(v[mid], p) {
            assert forall|k: int| 0 <= k < mid + 1 implies lex_lt(#[trigger] v@[k], p) by {
                if k < mid {
                    assert(lex_lt(v@[k], v@[mid as int]));
                }
            }
            lo = mid + 1;
        } else {
            assert forall|k: int| mid <= k < v@.len() implies !lex_lt(#[trigger] v@[k], p) by {
                if k > mid {
                    assert(lex_lt(v@[mid as int], v@[k]));
                }
            }
            hi = mid;
        }
    }
    let found = lo < v.len() && v[lo].0 == p.0 && v[lo].1 == p.1;
    proof {
        if !found {
            assert forall|k: int| 0 <= k < v@.len() implies v@[k] != p by {
                if k >= lo {
                    assert(!lex_lt(v@[k], p));
                    if k > lo {
                        assert(lex_lt(v@[lo as int], v@[k]));
                    }
                }
            }
        } else {
            assert(v@[lo as int] == p);
        }
    }
    (found, lo)
}

/// Inserts `p` into a strictly sorted list unless it is already there.
fn insert_sorted(v: &mut Vec<Idx>, p: Idx)
    requires
        strictly_sorted(old(v)@),
    ensures
        strictly_sorted(final(v)@),
        forall|q: Idx| final(v)@.contains(q) <==> (old(v)@.contains(q) || q == p),
{
    let (found, pos) = search_sorted(v, p);
    if !found {
        let ghost before = v@;
        v.insert(pos, p);
        proof {
            assert(v@ == before.insert(pos as int, p));
            assert forall|a: int, b: int| 0 <= a < b < v@.len() implies lex_lt(
                #[trigger] v@[a],
                #[trigger] v@[b],
            ) by {
                if b < pos {
                } else if a < pos && b == pos {
                } else if a < pos {
                    assert(lex_lt(before[a], p));
                    assert(!lex_lt(before[b - 1], p));
                } else if a == pos {
                    assert(!lex_lt(before[b - 1], p));
                    assert(before[b - 1] != p);
                } else {
                    assert(lex_lt(before[a - 1], before[b - 1]));
                }
            }
            assert forall|q: Idx| v@.contains(q) <==> (before.contains(q) || q == p) by {
                if before.contains(q) {
                    let k = choose|k: int| 0 <= k < before.len() && before[k] == q;
                    if k < pos {
                        assert(v@[k] == q);
                    } else {
                        assert(v@[k + 1] == q);
                    }
                }
                if q == p {
                    assert(v@[pos as int] == p);
                }
                if v@.contains(q) {
                    let k = choose|k: int| 0 <= k < v@.len() && v@[k] == q;
                    if k < pos {
                        assert(before[k] == q);
                    } else if k > pos {
                        assert(before[k - 1] == q);
                    }
                }
            }
        }
    }
}

/// True if `p` occurs in the strictly sorted list.
pub fn sorted_contains(v: &Vec<Idx>, p: Idx) -> (r: bool)
    requires
        strictly_sorted(v@),
    ensures
        r == v@.contains(p),
{
    search_sorted(v, p).0
}

// ============================================================================
// Stencil offsets
// ============================================================================

/// `q` is an offset of the radius-four cross: `(d, 0)` or `(0, d)` with
/// `|d| <= 4`.
pub open spec fn in_cross4(q: Offset) -> bool {
    (q.1 == 0 && -4 <= q.0 <= 4) || (q.0 == 0 && -4 <= q.1 <= 4)
}

/// The union of the dimension-by-dimension solver stencils: the
/// radius-four cross of 17 offsets, sorted and without repeats. A radius
/// of four covers the WENO, diffusion and non-conservative stencils.
pub fn default_stencil_offsets() -> (r: Vec<Offset>)
    ensures
        strictly_sorted(r@),
        r@.len() == 17,
        forall|q: Offset| r@.contains(q) <==> in_cross4(q),
{
    let r: Vec<Offset> = vec![
        (-4, 0),
        (-3, 0),
        (-2, 0),
        (-1, 0),
        (0, -4),
        (0, -3),
        (0, -2),
        (0, -1),
        (0, 0),
        (0, 1),
        (0, 2),
        (0, 3),
        (0, 4),
        (1, 0),
        (2, 0),
        (3, 0),
        (4, 0),
    ];
    proof {
        assert forall|q: Offset| r@.contains(q) <==> in_cross4(q) by {
            if in_cross4(q) {
                if q.1 == 0 {
                    if q.0 < 0 {
                        assert(r@[q.0 + 4] == q);
                    } else if q.0 == 0 {
                        assert(r@[8] == q);
                    } else {
                        assert(r@[q.0 + 12] == q);
                    }
                } else {
                    assert(r@[q.1 + 8] == q);
                }
            }
        }
    }
    r
}

/// The union of several offset lists, sorted and without repeats.
pub fn union_offsets(groups: &[&[Offset]]) -> (r: Vec<Offset>)
    ensures
        strictly_sorted(r@),
        forall|q: Offset|
            r@.contains(q) <==> exists|g: int|
                0 <= g < groups@.len() && (#[trigger] groups@[g])@.contains(q),
{
    let mut r: Vec<Offset> = Vec::new();
    let mut g: usize = 0;
    while g < groups.len()
        invariant
            g <= groups@.len(),
            strictly_sorted(r@),
            forall|q: Offset|
                r@.contains(q) <==> exists|g2: int|
                    0 <= g2 < g && (#[trigger] groups@[g2])@.contains(q),
        decreases groups@.len() - g,
    {
        let group: &[Offset] = groups[g];
        let mut k: usize = 0;
        while k < group.len()
            invariant
                g < groups@.len(),
                group@ == groups@[g as int]@,
                k <= group@.len(),
                strictly_sorted(r@),
                forall|q: Offset|
                    r@.contains(q) <==> (exists|g2: int|
                        0 <= g2 < g && (#[trigger] groups@[g2])@.contains(q)) || group@.subrange(
                        0,
                        k as int,
                    ).contains(q),
            decreases group@.len() - k,
        {
            let ghost before = r@;
            insert_sorted(&mut r, group[k]);
            proof {
                assert forall|q: Offset|
                    r@.contains(q) <==> (exists|g2: int|
                        0 <= g2 < g && (#[trigger] groups@[g2])@.contains(q)) || group@.subrange(
                        0,
                        k + 1,
                    ).contains(q) by {
                    let s0 = group@.subrange(0, k as int);
                    let s1 = group@.subrange(0, k + 1);
                    assert(s1 == s0.push(group@[k as int]));
                    if s1.contains(q) {
                        let a = choose|a: int| 0 <= a < s1.len() && s1[a] == q;
                        if a < k {
                            assert(s0[a] == q);
                        }
                    }
                    if s0.contains(q) {
                        let a = choose|a: int| 0 <= a < s0.len() && s0[a] == q;
                        assert(s1[a] == q);
                    }
                    if q == group@[k as int] {
                        assert(s1[k as int] == q);
                    }
                }
            }
            k = k + 1;
        }
        proof {
            assert(group@.subrange(0, group@.len() as int) == group@);
            assert forall|q: Offset|
                r@.contains(q) <==> exists|g2: int|
                    0 <= g2 < g + 1 && (#[trigger] groups@[g2])@.contains(q) by {
                if r@.contains(q) && !(exists|g2: int|
                    0 <= g2 < g && (#[trigger] groups@[g2])@.contains(q)) {
                    assert(groups@[g as int]@.contains(q));
                }
                if exists|g2: int| 0 <= g2 < g + 1 && (#[trigger] groups@[g2])@.contains(q) {
                    let g2 = choose|g2: int|
                        0 <= g2 < g + 1 && (#[trigger] groups@[g2])@.contains(q);
                    if g2 == g {
                        assert(group@.contains(q));
                    }
                }
            }
        }
        g = g + 1;
    }
    r
}

// ============================================================================
// Ghost points referenced by the solver stencils
// ============================================================================

/// Fluid grid cell `c` reaches `q` through offset number `k`, and `q` is
/// not a fluid point.
pub open spec fn ghost_ref(mask: FluidMask, offs: Seq<Offset>, c: (int, int), k: int, q: Idx) -> bool {
    &&& 0 <= k < offs.len()
    &&& mask.fluid_cell(c.0, c.1)
    &&& q.0 == c.0 + offs[k].0
    &&& q.1 == c.1 + offs[k].1
    &&& !mask.fluid(q.0 as int, q.1 as int)
}

/// `q` is a ghost point: a non-fluid point that the registered stencil of
/// some fluid grid cell references.
pub open spec fn is_ghost_point(mask: FluidMask, offs: Seq<Offset>, q: Idx) -> bool {
    exists|c: (int, int), k: int| #[trigger] ghost_ref(mask, offs, c, k, q)
}

/// Every offset lies within `bound` in both directions.
pub open spec fn offsets_within(offs: Seq<Offset>, bound: int) -> bool {
    forall|k: int|
        0 <= k < offs.len() ==> -bound <= (#[trigger] offs[k]).0 <= bound && -bound <= offs[k].1
            <= bound
}

/// Ghost references from cells before flattened index `l`, or from cell
/// `l` through offsets before `kk`.
spec fn seen(mask: FluidMask, offs: Seq<Offset>, q: Idx, l: int, kk: int) -> bool {
    exists|c: (int, int), k: int|
        #[trigger] ghost_ref(mask, offs, c, k, q) && (mask.grid_index(c.0, c.1) < l || (
        mask.grid_index(c.0, c.1) == l && k < kk))
}

proof fn lemma_seen_step(mask: FluidMask, offs: Seq<Offset>, q: Idx, l: int, kk: int)
    requires
        mask.wf(),
        0 <= l < mask.n_cells(),
        0 <= kk,
    ensures
        seen(mask, offs, q, l, kk + 1) <==> (seen(mask, offs, q, l, kk) || ghost_ref(
            mask,
            offs,
            mask.cell_of(l),
            kk,
            q,
        )),
{
    mask.lemma_cell_of(l);
    let cl = mask.cell_of(l);
    if seen(mask, offs, q, l, kk + 1) {
        let (c, k) = choose|c: (int, int), k: int|
            #[trigger] ghost_ref(mask, offs, c, k, q) && (mask.grid_index(c.0, c.1) < l || (
            mask.grid_index(c.0, c.1) == l && k < kk + 1));
        if mask.grid_index(c.0, c.1) == l && k == kk {
            mask.lemma_grid_index(c.0, c.1);
            assert(c == cl);
        }
    }
    if ghost_ref(mask, offs, cl, kk, q) {
        assert(mask.grid_index(cl.0, cl.1) == l);
    }
}

proof fn lemma_seen_row(mask: FluidMask, offs: Seq<Offset>, q: Idx, l: int)
    requires
        mask.wf(),
        0 <= l < mask.n_cells(),
    ensures
        mask.fluid_cell(mask.cell_of(l).0, mask.cell_of(l).1) ==> (seen(
            mask,
            offs,
            q,
            l,
            offs.len() as int,
        ) <==> seen(mask, offs, q, l + 1, 0)),
        !mask.fluid_cell(mask.cell_of(l).0, mask.cell_of(l).1) ==> (seen(mask, offs, q, l, 0)
            <==> seen(mask, offs, q, l + 1, 0)),
{
    mask.lemma_cell_of(l);
    if seen(mask, offs, q, l + 1, 0) {
        let (c, k) = choose|c: (int, int), k: int|
            #[trigger] ghost_ref(mask, offs, c, k, q) && (mask.grid_index(c.0, c.1) < l + 1 || (
            mask.grid_index(c.0, c.1) == l + 1 && k < 0));
        if mask.grid_index(c.0, c.1) == l {
            mask.lemma_grid_index(c.0, c.1);
            assert(c == mask.cell_of(l));
        }
    }
}

proof fn lemma_seen_all(mask: FluidMask, offs: Seq<Offset>, q: Idx)
    requires
        mask.wf(),
    ensures
        seen(mask, offs, q, mask.n_cells(), 0) <==> is_ghost_point(mask, offs, q),
{
    if is_ghost_point(mask, offs, q) {
        let (c, k) = choose|c: (int, int), k: int| #[trigger] ghost_ref(mask, offs, c, k, q);
        mask.lemma_grid_index(c.0, c.1);
    }
}

/// Every ghost point the solver will ask for: the non-fluid points that
/// the registered stencils (`offsets`) of the fluid grid cells reach,
/// sorted and without repeats.
///
/// The offsets must stay within the mask's margin, so that every point
/// they reach is classified by the mask.
pub fn discover_ghost_indices(mask: &FluidMask, offsets: &[Offset]) -> (r: Vec<Idx>)
    requires
        mask.wf(),
        offsets_within(offsets@, mask.margin as int),
    ensures
        strictly_sorted(r@),
        forall|q: Idx| r@.contains(q) <==> is_ghost_point(*mask, offsets@, q),
{
    proof {
        mask.lemma_sizes();
    }
    let n = mask.len();
    let mut r: Vec<Idx> = Vec::new();
    let mut l: usize = 0;
    while l < n
        invariant
            mask.wf(),
            n == mask.n_cells(),
            offsets_within(offsets@, mask.margin as int),
            l <= n,
            strictly_sorted(r@),
            forall|q: Idx| r@.contains(q) <==> seen(*mask, offsets@, q, l as int, 0),
        decreases n - l,
    {
        let c = mask.coords(l);
        if mask.is_in_domain(c) {
            let mut k: usize = 0;
            while k < offsets.len()
                invariant
                    mask.wf(),
                    n == mask.n_cells(),
                    offsets_within(offsets@, mask.margin as int),
                    l < n,
                    (c.0 as int, c.1 as int) == mask.cell_of(l as int),
                    mask.fluid_cell(c.0 as int, c.1 as int),
                    k <= offsets@.len(),
                    strictly_sorted(r@),
                    forall|q: Idx| r@.contains(q) <==> seen(*mask, offsets@, q, l as int, k as int),
                decreases offsets@.len() - k,
            {
                let off = offsets[k];
                proof {
                    mask.lemma_sizes();
                }
                assert(-(mask.margin as int) <= off.0 <= mask.margin && -(mask.margin as int)
                    <= off.1 <= mask.margin);
                let q: Idx = (c.0 + off.0, c.1 + off.1);
                let ghost before = r@;
                if !mask.is_in_domain(q) {
                    insert_sorted(&mut r, q);
                }
                proof {
                    assert forall|p: Idx|
                        r@.contains(p) <==> seen(*mask, offsets@, p, l as int, k + 1) by {
                        lemma_seen_step(*mask, offsets@, p, l as int, k as int);
                        if ghost_ref(*mask, offsets@, mask.cell_of(l as int), k as int, p) {
                            assert(p == q);
                        }
                    }
                }
                k = k + 1;
            }
            proof {
                assert forall|p: Idx| r@.contains(p) <==> seen(*mask, offsets@, p, l + 1, 0) by {
                    lemma_seen_row(*mask, offsets@, p, l as int);
                }
            }
        } else {
            proof {
                assert forall|p: Idx| r@.contains(p) <==> seen(*mask, offsets@, p, l + 1, 0) by {
                    lemma_seen_row(*mask, offsets@, p, l as int);
                }
            }
        }
        l = l + 1;
    }
    proof {
        assert forall|p: Idx| r@.contains(p) <==> is_ghost_point(*mask, offsets@, p) by {
            lemma_seen_all(*mask, offsets@, p);
        }
    }
    r
}

// ============================================================================
// Static ghost layout and stencil access table
// ============================================================================

/// Position of an offset `(di, dj)` with `|di|, |dj| <= 4` in the 9 x 9
/// offset table.
pub open spec fn offset_slot(o: Offset) -> int {
    (o.0 + 4) * 9 + (o.1 + 4)
}

/// Number of the last among the first `n` offsets that occupies table slot
/// `s`; `255` (the empty mark) when none does.
pub open spec fn slot_owner(offs: Seq<Offset>, s: int, n: int) -> int
    decreases n,
{
    if n <= 0 {
        255
    } else if offset_slot(offs[n - 1]) == s {
        n - 1
    } else {
        slot_owner(offs, s, n - 1)
    }
}

/// The target recorded for fluid cell `l` and stencil slot `k`: the
/// flattened index of the referenced point if it is a fluid grid cell,
/// otherwise `n_cells` plus its position in the ghost list. Non-fluid
/// cells record `0`.
pub open spec fn access_entry(
    mask: FluidMask,
    offs: Seq<Offset>,
    ghosts: Seq<Idx>,
    l: int,
    k: int,
) -> int {
    let c = mask.cell_of(l);
    let t = (c.0 + offs[k].0, c.1 + offs[k].1);
    if !mask.fluid_cell(c.0, c.1) {
        0
    } else if mask.fluid_cell(t.0, t.1) {
        mask.grid_index(t.0, t.1)
    } else {
        mask.n_cells() + ghosts.index_of((t.0 as isize, t.1 as isize))
    }
}

/// Fluid grid cell `c` reaches, through offset `k`, a fluid point outside
/// the grid.
pub open spec fn unaddressable_ref(mask: FluidMask, offs: Seq<Offset>, c: (int, int), k: int) -> bool {
    &&& 0 <= k < offs.len()
    &&& mask.fluid_cell(c.0, c.1)
    &&& !mask.in_grid(c.0 + offs[k].0, c.1 + offs[k].1)
    &&& mask.fluid(c.0 + offs[k].0, c.1 + offs[k].1)
}

/// Some fluid grid cell's stencil reaches a fluid point outside the grid,
/// which neither the grid nor the ghost list can address.
pub open spec fn has_unaddressable_ref(mask: FluidMask, offs: Seq<Offset>) -> bool {
    exists|c: (int, int), k: int| #[trigger] unaddressable_ref(mask, offs, c, k)
}

/// Static layout of the ghost points of a grid: which points are ghosts
/// (`ghosts`, sorted; a ghost's id is its position), which stencil offsets
/// are registered (`offsets`, located through `off_map`), and for every
/// fluid cell and registered offset where the referenced value lives
/// (`access`).
///
/// `access[l * offsets.len() + k]` is, for fluid cell `l` and offset `k`,
/// either the flattened index (`< n_cells`) of a fluid grid cell or
/// `n_cells + id` for ghost `id`.
pub struct GhostGrid {
    pub offsets: Vec<Offset>,
    pub ghosts: Vec<Idx>,
    pub access: Vec<u32>,
    pub off_map: Vec<u8>,
    pub n_cells: usize,
}

/// Lexicographic order agrees with storage order in the extended box.
proof fn lemma_box_index_monotone(mask: FluidMask, a: Idx, b: Idx)
    requires
        mask.wf(),
        mask.in_box(a.0 as int, a.1 as int),
        mask.in_box(b.0 as int, b.1 as int),
        lex_lt(a, b),
    ensures
        mask.box_index(a.0 as int, a.1 as int) < mask.box_index(b.0 as int, b.1 as int),
{
    let h = mask.box_h();
    let aa = a.0 + mask.margin;
    let bb = b.0 + mask.margin;
    let x = a.1 + mask.margin;
    let y = b.1 + mask.margin;
    if aa < bb {
        assert(aa * h + x < bb * h + y) by (nonlinear_arith)
            requires
                0 <= aa < bb,
                0 <= x < h,
                0 <= y < h,
        ;
    }
}

proof fn lemma_sorted_indices_grow(mask: FluidMask, s: Seq<Idx>, k: int)
    requires
        mask.wf(),
        strictly_sorted(s),
        forall|q: int| 0 <= q < s.len() ==> mask.in_box(#[trigger] s[q].0 as int, s[q].1 as int),
        0 <= k < s.len(),
    ensures
        mask.box_index(s[k].0 as int, s[k].1 as int) >= k,
    decreases k,
{
    mask.lemma_box_index(s[k].0 as int, s[k].1 as int);
    if k > 0 {
        lemma_sorted_indices_grow(mask, s, k - 1);
        lemma_box_index_monotone(mask, s[k - 1], s[k]);
    }
}

/// A strictly sorted list of points of the extended box is no longer than
/// the box.
proof fn lemma_sorted_in_box_len(mask: FluidMask, s: Seq<Idx>)
    requires
        mask.wf(),
        strictly_sorted(s),
        forall|q: int| 0 <= q < s.len() ==> mask.in_box(#[trigger] s[q].0 as int, s[q].1 as int),
    ensures
        s.len() <= mask.box_w() * mask.box_h(),
{
    if s.len() > 0 {
        lemma_sorted_indices_grow(mask, s, s.len() - 1);
        mask.lemma_box_index(s[s.len() - 1].0 as int, s[s.len() - 1].1 as int);
    }
}

/// In a strictly sorted list an entry is found at its own position.
pub proof fn lemma_index_of_unique(s: Seq<Idx>, pos: int)
    requires
        strictly_sorted(s),
        0 <= pos < s.len(),
    ensures
        s.index_of(s[pos]) == pos,
{
    let i = s.index_of(s[pos]);
    assert(0 <= i < s.len() && s[i] == s[pos]);
    if i < pos {
        assert(lex_lt(s[i], s[pos]));
    } else if i > pos {
        assert(lex_lt(s[pos], s[i]));
    }
}

proof fn lemma_slot_owner(offs: Seq<Offset>, s: int, n: int)
    requires
        0 <= n <= offs.len(),
    ensures
        slot_owner(offs, s, n) == 255 || (0 <= slot_owner(offs, s, n) < n && offset_slot(
            offs[slot_owner(offs, s, n)],
        ) == s),
        (exists|k: int| 0 <= k < n && offset_slot(#[trigger] offs[k]) == s) ==> slot_owner(
            offs,
            s,
            n,
        ) != 255 || n > 255,
    decreases n,
{
    if n > 0 {
        lemma_slot_owner(offs, s, n - 1);
        if exists|k: int| 0 <= k < n && offset_slot(#[trigger] offs[k]) == s {
            let k = choose|k: int| 0 <= k < n && offset_slot(#[trigger] offs[k]) == s;
            if k < n - 1 {
                assert(exists|k2: int| 0 <= k2 < n - 1 && offset_slot(#[trigger] offs[k2]) == s);
            }
        }
    }
}

impl GhostGrid {
    /// Access-table entry of flattened cell `l` and offset `k`.
    pub open spec fn entry(&self, l: int, k: int) -> int {
        self.access@[l * self.offsets@.len() + k] as int
    }

    /// Internal consistency of the layout.
    pub open spec fn wf(&self) -> bool {
        &&& strictly_sorted(self.ghosts@)
        &&& self.offsets@.len() < 255
        &&& offsets_within(self.offsets@, 4)
        &&& self.off_map@.len() == 81
        &&& forall|s: int|
            0 <= s < 81 ==> #[trigger] self.off_map@[s] == slot_owner(
                self.offsets@,
                s,
                self.offsets@.len() as int,
            )
        &&& self.access@.len() == self.n_cells * self.offsets@.len()
        &&& self.n_cells + self.ghosts@.len() <= u32::MAX
    }

    /// The layout is the one of `mask`: its ghosts are exactly the ghost
    /// points of the mask and its access table holds `access_entry` for
    /// every grid cell and registered offset.
    pub open spec fn built_from(&self, mask: FluidMask) -> bool {
        &&& self.wf()
        &&& self.n_cells == mask.n_cells()
        &&& forall|q: Idx| self.ghosts@.contains(q) <==> is_ghost_point(mask, self.offsets@, q)
        &&& forall|l: int, k: int|
            0 <= l < mask.n_cells() && 0 <= k < self.offsets@.len() ==> #[trigger] self.entry(
                l,
                k,
            ) == access_entry(
                mask,
                self.offsets@,
                self.ghosts@,
                l,
                k,
            )
    }

    /// Every access-table entry of a fluid cell designates the point its
    /// stencil offset reaches: a fluid grid cell, or a ghost.
    pub open spec fn resolves(&self, mask: FluidMask) -> bool {
        forall|l: int, k: int|
            0 <= l < mask.n_cells() && 0 <= k < self.offsets@.len() && mask.fluid_cell(
                mask.cell_of(l).0,
                mask.cell_of(l).1,
            ) ==> {
                let t = #[trigger] self.entry(l, k);
                let p = (
                    mask.cell_of(l).0 + self.offsets@[k].0,
                    mask.cell_of(l).1 + self.offsets@[k].1,
                );
                if t < mask.n_cells() {
                    &&& mask.cell_of(t) == p
                    &&& mask.fluid_cell(p.0, p.1)
                } else {
                    &&& t - mask.n_cells() < self.ghosts@.len()
                    &&& (self.ghosts@[t - mask.n_cells()].0 as int, self.ghosts@[t
                        - mask.n_cells()].1 as int) == p
                    &&& !mask.fluid(p.0, p.1)
                }
            }
    }
}

/// The access table of a layout built from a mask reads, for every fluid
/// cell and registered offset, the value of the very point the offset
/// reaches: the fluid grid cell itself, or the ghost cached for it.
pub proof fn lemma_access_resolves(g: GhostGrid, mask: FluidMask)
    requires
        mask.wf(),
        g.built_from(mask),
        !has_unaddressable_ref(mask, g.offsets@),
        offsets_within(g.offsets@, mask.margin as int),
    ensures
        g.resolves(mask),
{
    assert forall|l: int, k: int|
        0 <= l < mask.n_cells() && 0 <= k < g.offsets@.len() && mask.fluid_cell(
            mask.cell_of(l).0,
            mask.cell_of(l).1,
        ) implies {
        let t = #[trigger] g.entry(l, k);
        let p = (mask.cell_of(l).0 + g.offsets@[k].0, mask.cell_of(l).1 + g.offsets@[k].1);
        if t < mask.n_cells() {
            &&& mask.cell_of(t) == p
            &&& mask.fluid_cell(p.0, p.1)
        } else {
            &&& t - mask.n_cells() < g.ghosts@.len()
            &&& (g.ghosts@[t - mask.n_cells()].0 as int, g.ghosts@[t - mask.n_cells()].1 as int)
                == p
            &&& !mask.fluid(p.0, p.1)
        }
    } by {
        let c = mask.cell_of(l);
        let p = (c.0 + g.offsets@[k].0, c.1 + g.offsets@[k].1);
        mask.lemma_cell_of(l);
        mask.lemma_sizes();
        if mask.fluid_cell(p.0, p.1) {
            mask.lemma_grid_index(p.0, p.1);
        } else {
            if mask.fluid(p.0, p.1) {
                assert(unaddressable_ref(mask, g.offsets@, c, k));
                assert(has_unaddressable_ref(mask, g.offsets@));
            }
            let q: Idx = (p.0 as isize, p.1 as isize);
            assert(ghost_ref(mask, g.offsets@, c, k, q));
            assert(g.ghosts@.contains(q));
            let pos = g.ghosts@.index_of(q);
            assert(0 <= pos < g.ghosts@.len() && g.ghosts@[pos] == q);
            assert(mask.n_cells() + pos >= mask.n_cells());
        }
    }
}

impl GhostGrid {
    /// Builds the static ghost layout of `mask` for the registered stencil
    /// `offsets` (at most 254 of them, each within four cells and within the
    /// mask's margin): the ghost points (`discover_ghost_indices`), the
    /// offset table, and the access table of every fluid cell.
    ///
    /// `None` exactly when some fluid cell's stencil reaches a fluid point
    /// outside the grid, which the layout cannot address.
    pub fn build(mask: &FluidMask, offsets: &[Offset]) -> (r: Option<GhostGrid>)
        requires
            mask.wf(),
            offsets@.len() < 255,
            offsets_within(offsets@, 4),
            offsets_within(offsets@, mask.margin as int),
            2 * (mask.box_w() * mask.box_h()) <= u32::MAX,
            mask.n_cells() * offsets@.len() <= usize::MAX,
        ensures
            r is None <==> has_unaddressable_ref(*mask, offsets@),
            r matches Some(g) ==> {
                &&& g.built_from(*mask)
                &&& g.offsets@ == offsets@
                &&& g.resolves(*mask)
            },
    {
        proof {
            mask.lemma_sizes();
        }
        let ghosts = discover_ghost_indices(mask, offsets);
        proof {
            assert forall|q: int| 0 <= q < ghosts@.len() implies mask.in_box(
                #[trigger] ghosts@[q].0 as int,
                ghosts@[q].1 as int,
            ) by {
                let p = ghosts@[q];
                assert(ghosts@.contains(p));
                let (c, k) = choose|c: (int, int), k: int| #[trigger]
                    ghost_ref(*mask, offsets@, c, k, p);
                assert(-(mask.margin as int) <= offsets@[k].0 <= mask.margin);
                assert(-(mask.margin as int) <= offsets@[k].1 <= mask.margin);
            }
            lemma_sorted_in_box_len(*mask, ghosts@);
        }
        let n_off = offsets.len();
        let mut offs: Vec<Offset> = Vec::new();
        let mut k: usize = 0;
        while k < n_off
            invariant
                n_off == offsets@.len(),
                k <= n_off,
                offs@ == offsets@.subrange(0, k as int),
            decreases n_off - k,
        {
            offs.push(offsets[k]);
            k = k + 1;
            assert(offs@ =~= offsets@.subrange(0, k as int));
        }
        assert(offs@ =~= offsets@);

        let mut off_map: Vec<u8> = Vec::new();
        let mut s: usize = 0;
        while s < 81
            invariant
                s <= 81,
                off_map@.len() == s,
                forall|s2: int| 0 <= s2 < s ==> #[trigger] off_map@[s2] == 255,
            decreases 81 - s,
        {
            off_map.push(255u8);
            s = s + 1;
        }
        let mut k: usize = 0;
        while k < n_off
            invariant
                n_off == offsets@.len(),
                n_off < 255,
                offsets_within(offsets@, 4),
                k <= n_off,
                off_map@.len() == 81,
                forall|s2: int|
                    0 <= s2 < 81 ==> #[trigger] off_map@[s2] == slot_owner(
                        offsets@,
                        s2,
                        k as int,
                    ),
            decreases n_off - k,
        {
            let off = offsets[k];
            assert(-4 <= off.0 <= 4 && -4 <= off.1 <= 4);
            let slot: usize = ((off.0 + 4) * 9 + (off.1 + 4)) as usize;
            off_map.set(slot, k as u8);
            k = k + 1;
        }

        let n = mask.len();
        let mut access: Vec<u32> = Vec::new();
        let mut l: usize = 0;
        while l < n
            invariant
                mask.wf(),
                n == mask.n_cells(),
                n <= mask.box_w() * mask.box_h(),
                n <= isize::MAX,
                mask.box_w() <= isize::MAX,
                mask.box_h() <= isize::MAX,
                n_off == offsets@.len(),
                offsets_within(offsets@, mask.margin as int),
                2 * (mask.box_w() * mask.box_h()) <= u32::MAX,
                n * n_off <= usize::MAX,
                strictly_sorted(ghosts@),
                ghosts@.len() <= mask.box_w() * mask.box_h(),
                forall|q: Idx| ghosts@.contains(q) <==> is_ghost_point(*mask, offsets@, q),
                l <= n,
                access@.len() == l * n_off,
                forall|p: int|
                    0 <= p < access@.len() ==> #[trigger] access@[p] == access_entry(
                        *mask,
                        offsets@,
                        ghosts@,
                        p / n_off as int,
                        p % n_off as int,
                    ),
                forall|l2: int, k2: int|
                    0 <= l2 < l && 0 <= k2 < n_off ==> !#[trigger] unaddressable_ref(
                        *mask,
                        offsets@,
                        mask.cell_of(l2),
                        k2,
                    ),
            decreases n - l,
        {
            let c = mask.coords(l);
            let fluid_c = mask.is_in_domain(c);
            let mut k: usize = 0;
            while k < n_off
                invariant
                    mask.wf(),
                    n == mask.n_cells(),
                    n <= mask.box_w() * mask.box_h(),
                    n <= isize::MAX,
                    mask.box_w() <= isize::MAX,
                    mask.box_h() <= isize::MAX,
                    n_off == offsets@.len(),
                    offsets_within(offsets@, mask.margin as int),
                    2 * (mask.box_w() * mask.box_h()) <= u32::MAX,
                    n * n_off <= usize::MAX,
                    strictly_sorted(ghosts@),
                    ghosts@.len() <= mask.box_w() * mask.box_h(),
                    forall|q: Idx| ghosts@.contains(q) <==> is_ghost_point(*mask, offsets@, q),
                    l < n,
                    (c.0 as int, c.1 as int) == mask.cell_of(l as int),
                    mask.in_grid(c.0 as int, c.1 as int),
                    fluid_c == mask.fluid(c.0 as int, c.1 as int),
                    k <= n_off,
                    access@.len() == l * n_off + k,
                    forall|p: int|
                        0 <= p < access@.len() ==> #[trigger] access@[p] == access_entry(
                            *mask,
                            offsets@,
                            ghosts@,
                            p / n_off as int,
                            p % n_off as int,
                        ),
                    forall|l2: int, k2: int|
                        (0 <= l2 < l && 0 <= k2 < n_off) || (l2 == l && 0 <= k2 < k) ==> !#[trigger]
                        unaddressable_ref(*mask, offsets@, mask.cell_of(l2), k2),
                decreases n_off - k,
            {
                proof {
                    crate::mask::lemma_row_major(l as int, k as int, n as int, n_off as int);
                    assert((l * n_off + k) < n * n_off) by (nonlinear_arith)
                        requires
                            l < n,
                            k < n_off,
                    ;
                }
                let off = offsets[k];
                assert(-(mask.margin as int) <= off.0 <= mask.margin && -(mask.margin as int)
                    <= off.1 <= mask.margin);
                let e: u32 = if !fluid_c {
                    0
                } else {
                    let t: Idx = (c.0 + off.0, c.1 + off.1);
                    if mask.is_in_grid(t) && mask.is_in_domain(t) {
                        let lt = mask.linear_index(t);
                        lt as u32
                    } else {
                        let (found, pos) = search_sorted(&ghosts, t);
                        if !found {
                            proof {
                                if !mask.fluid(t.0 as int, t.1 as int) {
                                    assert(ghost_ref(
                                        *mask,
                                        offsets@,
                                        mask.cell_of(l as int),
                                        k as int,
                                        t,
                                    ));
                                    assert(ghosts@.contains(t));
                                }
                                assert(unaddressable_ref(
                                    *mask,
                                    offsets@,
                                    mask.cell_of(l as int),
                                    k as int,
                                ));
                            }
                            return None;
                        }
                        proof {
                            lemma_index_of_unique(ghosts@, pos as int);
                        }
                        (n + pos) as u32
                    }
                };
                access.push(e);
                k = k + 1;
            }
            proof {
                assert(access@.len() == (l + 1) * n_off) by (nonlinear_arith)
                    requires
                        access@.len() == l * n_off + n_off,
                ;
            }
            l = l + 1;
        }
        let g = GhostGrid { offsets: offs, ghosts, access, off_map, n_cells: n };
        proof {
            assert(access@.len() == n * n_off);
            assert forall|l2: int, k2: int|
                0 <= l2 < mask.n_cells() && 0 <= k2 < g.offsets@.len() implies #[trigger] g.entry(
                l2,
                k2,
            ) == access_entry(*mask, g.offsets@, g.ghosts@, l2, k2) by {
                crate::mask::lemma_row_major(l2, k2, n as int, n_off as int);
            }
            assert(!has_unaddressable_ref(*mask, offsets@)) by {
                if has_unaddressable_ref(*mask, offsets@) {
                    let (c, k2) = choose|c: (int, int), k2: int| #[trigger]
                        unaddressable_ref(*mask, offsets@, c, k2);
                    mask.lemma_grid_index(c.0, c.1);
                    assert(unaddressable_ref(
                        *mask,
                        offsets@,
                        mask.cell_of(mask.grid_index(c.0, c.1)),
                        k2,
                    ));
                }
            }
            lemma_access_resolves(g, *mask);
        }
        Some(g)
    }
}

impl GhostGrid {
    /// Number of ghost points.
    pub fn len(&self) -> (r: usize)
        ensures
            r == self.ghosts@.len(),
    {
        self.ghosts.len()
    }

    /// True if there are no ghost points.
    pub fn is_empty(&self) -> (r: bool)
        ensures
            r == (self.ghosts@.len() == 0),
    {
        self.ghosts.len() == 0
    }

    /// True if `idx` is a ghost point of the layout.
    pub fn contains(&self, idx: Idx) -> (r: bool)
        requires
            self.wf(),
        ensures
            r == self.ghosts@.contains(idx),
    {
        sorted_contains(&self.ghosts, idx)
    }

    /// Id (position in the ghost list) of the ghost point `idx`, if it is
    /// one.
    pub fn id(&self, idx: Idx) -> (r: Option<usize>)
        requires
            self.wf(),
        ensures
            r.is_some() == self.ghosts@.contains(idx),
            r matches Some(i) ==> i < self.ghosts@.len() && self.ghosts@[i as int] == idx && i
                == self.ghosts@.index_of(idx),
    {
        let (found, pos) = search_sorted(&self.ghosts, idx);
        if found {
            proof {
                lemma_index_of_unique(self.ghosts@, pos as int);
            }
            Some(pos)
        } else {
            None
        }
    }

    /// The value cached for ghost point `idx`, where `values[id]` holds the
    /// value of the ghost with that id.
    pub fn get<T: Copy>(&self, values: &[T], idx: Idx) -> (r: T)
        requires
            self.wf(),
            values@.len() == self.ghosts@.len(),
            self.ghosts@.contains(idx),
        ensures
            r == values@[self.ghosts@.index_of(idx)],
    {
        let id = self.id(idx);
        match id {
            Some(i) => values[i],
            None => {
                assert(false);
                values[0]
            },
        }
    }

    /// Position of the registered stencil offset `(di, dj)` in the offset
    /// list.
    pub fn k_for(&self, di: isize, dj: isize) -> (k: usize)
        requires
            self.wf(),
            -4 <= di <= 4,
            -4 <= dj <= 4,
            self.offsets@.contains((di, dj)),
        ensures
            k < self.offsets@.len(),
            self.offsets@[k as int] == (di, dj),
            k == slot_owner(self.offsets@, offset_slot((di, dj)), self.offsets@.len() as int),
    {
        let slot: usize = ((di + 4) * 9 + (dj + 4)) as usize;
        proof {
            let s = offset_slot((di, dj));
            let i = choose|i: int| 0 <= i < self.offsets@.len() && self.offsets@[i] == (di, dj);
            assert(offset_slot(self.offsets@[i]) == s);
            lemma_slot_owner(self.offsets@, s, self.offsets@.len() as int);
            let o = slot_owner(self.offsets@, s, self.offsets@.len() as int);
            let p = self.offsets@[o];
            assert(-4 <= p.0 <= 4 && -4 <= p.1 <= 4);
            assert(p == (di, dj)) by (nonlinear_arith)
                requires
                    (p.0 + 4) * 9 + (p.1 + 4) == (di + 4) * 9 + (dj + 4),
                    -4 <= p.0 <= 4,
                    -4 <= p.1 <= 4,
                    -4 <= di <= 4,
                    -4 <= dj <= 4,
            ;
        }
        self.off_map[slot] as usize
    }

    /// Access-table entry of fluid cell `anchor` and stencil slot `k`.
    pub fn target(&self, anchor: usize, k: usize) -> (t: u32)
        requires
            self.wf(),
            anchor < self.n_cells,
            k < self.offsets@.len(),
        ensures
            t == self.entry(anchor as int, k as int),
    {
        let n_off = self.offsets.len();
        let total = self.access.len();
        proof {
            crate::mask::lemma_row_major(
                anchor as int,
                k as int,
                self.n_cells as int,
                n_off as int,
            );
            assert(anchor * n_off + k < total);
        }
        self.access[anchor * n_off + k]
    }

    /// Value at `idx`: from the grid values (`field`, by flattened index)
    /// for a fluid point, otherwise the ghost value cached in `ghost_values`.
    pub fn get_with_field<T: Copy>(
        &self,
        mask: &FluidMask,
        field: &[T],
        ghost_values: &[T],
        idx: Idx,
    ) -> (r: T)
        requires
            self.wf(),
            mask.wf(),
            field@.len() == mask.n_cells(),
            ghost_values@.len() == self.ghosts@.len(),
            mask.fluid(idx.0 as int, idx.1 as int) ==> mask.in_grid(idx.0 as int, idx.1 as int),
            !mask.fluid(idx.0 as int, idx.1 as int) ==> self.ghosts@.contains(idx),
        ensures
            mask.fluid(idx.0 as int, idx.1 as int) ==> r == field@[mask.grid_index(
                idx.0 as int,
                idx.1 as int,
            )],
            !mask.fluid(idx.0 as int, idx.1 as int) ==> r == ghost_values@[self.ghosts@.index_of(
                idx,
            )],
    {
        if mask.is_in_domain(idx) {
            field[mask.linear_index(idx)]
        } else {
            self.get(ghost_values, idx)
        }
    }
}

} // verus!
