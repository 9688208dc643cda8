use vstd::prelude::*;

use vstd::bytes::{spec_u64_from_le_bytes, spec_u64_to_le_bytes};

use crate::io::{
    check_restart_header, decode_spec, encode_header, header_bytes, restart_header_spec, slice_range,
    Header, HeaderError,
};

verus! {

// Payload of a solution file: after the header, one record per grid point
// in j-major order (x fastest), record number `j * nx + i` for point
// `(i, j)`. A record is eight doubles `x, y, rho, mom_x, mom_y, ee, ei, er`,
// each carried here by its IEEE-754 bit pattern and written little endian.
// Grid values are stored i-major, cell `l = i * ny + j`, six per cell:
// word `6 * l + c` is component `c` of cell `l`.

/// Bit pattern of the quiet NaN written for points outside the fluid.
pub const NAN_BITS: u64 = 0x7ff8_0000_0000_0000;

/// Exponent field of a double.
pub const EXPONENT_MASK: u64 = 0x7ff0_0000_0000_0000;

/// The double with bit pattern `b` is finite (neither infinite nor NaN).
pub open spec fn finite_bits(b: u64) -> bool {
    b & EXPONENT_MASK != EXPONENT_MASK
}

/// The little-endian bytes of a sequence of 64-bit words.
pub open spec fn words_bytes(w: Seq<u64>) -> Seq<u8>
    decreases w.len(),
{
    if w.len() == 0 {
        Seq::empty()
    } else {
        words_bytes(w.drop_last()) + spec_u64_to_le_bytes(w.last())
    }
}

/// Word `m` of the payload of an `nx` by `ny` grid whose x and y
/// coordinates are `xs` and `ys`, whose fluid cells are `fluid` and whose
/// values are `vals`: record `m / 8` is that of point `(i, j)` with
/// `m / 8 == j * nx + i`; its word `m % 8` is `x_i`, `y_j`, or value
/// component `m % 8 - 2` of the cell, NaN for a point outside the fluid.
pub open spec fn payload_word(
    xs: Seq<u64>,
    ys: Seq<u64>,
    fluid: Seq<bool>,
    vals: Seq<u64>,
    nx: int,
    ny: int,
    m: int,
) -> u64 {
    let n_cells = fluid.len();
    let n_vals = vals.len();
    let r = m / 8;
    let q = m % 8;
    let i = r % nx;
    let j = r / nx;
    let l = i * ny + j;
    if q == 0 {
        xs[i]
    } else if q == 1 {
        ys[j]
    } else if fluid[l] {
        vals[6 * l + q - 2]
    } else {
        NAN_BITS
    }
}

/// All words of the payload, record after record.
pub open spec fn payload_words(
    xs: Seq<u64>,
    ys: Seq<u64>,
    fluid: Seq<bool>,
    vals: Seq<u64>,
    nx: int,
    ny: int,
) -> Seq<u64> {
    Seq::new((8 * nx * ny) as nat, |m: int| payload_word(xs, ys, fluid, vals, nx, ny, m))
}

/// The bytes of a solution file: the header, then the payload.
pub open spec fn solution_file(
    h: Header,
    xs: Seq<u64>,
    ys: Seq<u64>,
    fluid: Seq<bool>,
    vals: Seq<u64>,
) -> Seq<u8> {
    header_bytes(h) + words_bytes(payload_words(xs, ys, fluid, vals, h.nx as int, h.ny as int))
}

/// The byte layout of a word sequence: eight bytes per word, in order.
pub proof fn lemma_words_bytes(w: Seq<u64>)
    ensures
        words_bytes(w).len() == 8 * w.len(),
        forall|k: int|
            0 <= k < w.len() ==> words_bytes(w).subrange(8 * k, 8 * k + 8)
                == spec_u64_to_le_bytes(#[trigger] w[k]),
    decreases w.len(),
{
    vstd::bytes::lemma_auto_spec_u64_to_from_le_bytes();
    if w.len() > 0 {
        let init = w.drop_last();
        lemma_words_bytes(init);
        let a = words_bytes(init);
        let b = spec_u64_to_le_bytes(w.last());
        assert(words_bytes(w) == a + b);
        assert forall|k: int| 0 <= k < w.len() implies words_bytes(w).subrange(8 * k, 8 * k + 8)
            == spec_u64_to_le_bytes(#[trigger] w[k]) by {
            if k < w.len() - 1 {
                assert(init[k] == w[k]);
                assert(words_bytes(w).subrange(8 * k, 8 * k + 8) =~= a.subrange(8 * k, 8 * k + 8));
            } else {
                assert(words_bytes(w).subrange(8 * k, 8 * k + 8) =~= b);
            }
        }
    }
}

proof fn lemma_words_take_step(w: Seq<u64>, m: int)
    requires
        0 <= m < w.len(),
    ensures
        words_bytes(w.take(m + 1)) == words_bytes(w.take(m)) + spec_u64_to_le_bytes(w[m]),
{
    assert(w.take(m + 1).drop_last() =~= w.take(m));
    assert(w.take(m + 1).last() == w[m]);
}

/// Sizes of an `nx` by `ny` grid whose solution file fits in memory.
proof fn lemma_file_sizes(nx: int, ny: int)
    requires
        nx > 0,
        ny > 0,
        40 + 64 * nx * ny <= usize::MAX,
    ensures
        nx <= nx * ny <= usize::MAX,
        ny <= nx * ny,
        8 * nx * ny <= usize::MAX,
        nx * 8 <= 8 * nx * ny,
{
    assert(nx <= nx * ny && ny <= nx * ny) by (nonlinear_arith)
        requires
            nx > 0,
            ny > 0,
    ;
    assert(nx * ny <= 8 * nx * ny <= 64 * nx * ny) by (nonlinear_arith)
        requires
            nx > 0,
            ny > 0,
    ;
    assert(nx * 8 <= 8 * nx * ny) by (nonlinear_arith)
        requires
            ny > 0,
            nx > 0,
    ;
}

fn payload_word_exec(
    xs: &[u64],
    ys: &[u64],
    fluid: &[bool],
    vals: &[u64],
    nx: usize,
    ny: usize,
    m: usize,
) -> (w: u64)
    requires
        nx > 0,
        ny > 0,
        xs@.len() == nx,
        ys@.len() == ny,
        fluid@.len() == nx * ny,
        vals@.len() == 6 * nx * ny,
        m < 8 * nx * ny,
    ensures
        w == payload_word(xs@, ys@, fluid@, vals@, nx as int, ny as int, m as int),
{
    let n_cells = fluid.len();
    let n_vals = vals.len();
    let r = m / 8;
    let q = m % 8;
    let i = r % nx;
    let j = r / nx;
    proof {
        assert(r < nx * ny) by (nonlinear_arith)
            requires
                m < 8 * nx * ny,
                r == m / 8,
        ;
        assert(j < ny) by (nonlinear_arith)
            requires
                r < nx * ny,
                j == r / nx,
                nx > 0,
        ;
        assert(i * ny + j < nx * ny) by (nonlinear_arith)
            requires
                i < nx,
                j < ny,
        ;
        assert(6 * (i * ny + j) + 5 < 6 * nx * ny) by (nonlinear_arith)
            requires
                i * ny + j < nx * ny,
        ;
        assert(i * ny <= i * ny + j);
    }
    if q == 0 {
        xs[i]
    } else if q == 1 {
        ys[j]
    } else {
        let l = i * ny + j;
        if fluid[l] {
            vals[6 * l + q - 2]
        } else {
            NAN_BITS
        }
    }
}

/// The bytes of a solution file with header `h`: for grid point `(i, j)`,
/// j-major, the record `x_i, y_j` and, for a fluid cell `l = i * ny + j`,
/// the six values `vals[6 l .. 6 l + 6]`, NaN otherwise.
pub fn encode_solution(
    h: &Header,
    xs: &[u64],
    ys: &[u64],
    fluid: &[bool],
    vals: &[u64],
) -> (r: Vec<u8>)
    requires
        h.nx > 0,
        h.ny > 0,
        xs@.len() == h.nx,
        ys@.len() == h.ny,
        fluid@.len() == h.nx * h.ny,
        vals@.len() == 6 * h.nx * h.ny,
        40 + 64 * h.nx * h.ny <= usize::MAX,
    ensures
        r@ == solution_file(*h, xs@, ys@, fluid@, vals@),
{
    proof {
        lemma_file_sizes(h.nx as int, h.ny as int);
    }
    let nx = h.nx as usize;
    let ny = h.ny as usize;
    let total = 8 * nx * ny;
    let ghost words = payload_words(xs@, ys@, fluid@, vals@, nx as int, ny as int);
    let mut r = encode_header(h);
    let mut m: usize = 0;
    while m < total
        invariant
            nx == h.nx,
            ny == h.ny,
            nx > 0,
            ny > 0,
            xs@.len() == nx,
            ys@.len() == ny,
            fluid@.len() == nx * ny,
            vals@.len() == 6 * nx * ny,
            total == 8 * nx * ny,
            words == payload_words(xs@, ys@, fluid@, vals@, nx as int, ny as int),
            m <= total,
            r@ == header_bytes(*h) + words_bytes(words.take(m as int)),
        decreases total - m,
    {
        let w = payload_word_exec(xs, ys, fluid, vals, nx, ny, m);
        let mut b = vstd::bytes::u64_to_le_bytes(w);
        r.append(&mut b);
        proof {
            lemma_words_take_step(words, m as int);
            assert(r@ =~= header_bytes(*h) + words_bytes(words.take(m + 1)));
        }
        m = m + 1;
    }
    proof {
        assert(words.take(total as int) =~= words);
    }
    r
}


// ============================================================================
// Reading a solution file back
// ============================================================================

/// Why a restart file was not loaded.
#[derive(Clone, Copy, Debug, PartialEq, Eq)]
pub enum LoadError {
    /// The header was rejected.
    Header(HeaderError),
    /// The file ends before the last record.
    Truncated,
    /// A fluid point's record holds a value that is not finite; the first
    /// such point in file order.
    NonFinite { i: usize, j: usize },
}

/// Payload word `m` of file bytes `b`.
pub open spec fn file_word(b: Seq<u8>, m: int) -> u64 {
    spec_u64_from_le_bytes(b.subrange(40 + 8 * m, 48 + 8 * m))
}

/// Record `r` (point `(r % nx, r / nx)`) is that of a fluid cell and one of
/// its six values is not finite.
pub open spec fn bad_record(b: Seq<u8>, nx: int, ny: int, fluid: Seq<bool>, r: int) -> bool {
    let i = r % nx;
    let j = r / nx;
    &&& fluid[i * ny + j]
    &&& exists|c: int| 0 <= c < 6 && !finite_bits(#[trigger] file_word(b, 8 * r + 2 + c))
}

/// The first bad record from number `k` on.
pub open spec fn first_bad(b: Seq<u8>, nx: int, ny: int, fluid: Seq<bool>, k: int) -> Option<int>
    decreases nx * ny - k,
{
    if k < 0 || k >= nx * ny {
        None
    } else if bad_record(b, nx, ny, fluid, k) {
        Some(k)
    } else {
        first_bad(b, nx, ny, fluid, k + 1)
    }
}

/// Result of loading file bytes `b` onto an `nx` by `ny` grid: the time's
/// bit pattern, or the first reason for rejection in the order header,
/// length, non-finite fluid value.
pub open spec fn load_spec(b: Seq<u8>, nx: usize, ny: usize, fluid: Seq<bool>) -> Result<
    u64,
    LoadError,
> {
    match restart_header_spec(b, nx as u64, ny as u64) {
        Err(e) => Err(LoadError::Header(e)),
        Ok(h) => if b.len() < 40 + 64 * nx * ny {
            Err(LoadError::Truncated)
        } else {
            match first_bad(b, nx as int, ny as int, fluid, 0) {
                Some(r) => Err(
                    LoadError::NonFinite { i: (r % nx as int) as usize, j: (r / nx as int) as usize },
                ),
                None => Ok(h.time_bits),
            }
        },
    }
}

/// A load succeeds only on a file written for the grid being loaded: its
/// header decodes to the grid's `nx` and `ny`, the file holds all
/// `nx * ny` records, no fluid value is non-finite, and the result is the
/// header's time. A well-formed header for another grid size is rejected
/// as a grid mismatch.
pub proof fn lemma_load_requires_matching_grid(b: Seq<u8>, nx: usize, ny: usize, fluid: Seq<bool>)
    ensures
        load_spec(b, nx, ny, fluid) matches Ok(t) ==> decode_spec(b) matches Ok(h) && h.nx == nx
            && h.ny == ny && t == h.time_bits && b.len() >= 40 + 64 * nx * ny && first_bad(
            b,
            nx as int,
            ny as int,
            fluid,
            0,
        ) is None,
        decode_spec(b) matches Ok(h) ==> ((h.nx != nx || h.ny != ny) ==> load_spec(
            b,
            nx,
            ny,
            fluid,
        ) == Err::<u64, LoadError>(
            LoadError::Header(HeaderError::GridMismatch { nx: h.nx, ny: h.ny }),
        )),
{
    crate::io::lemma_restart_header_matches_grid(b, nx as u64, ny as u64);
}

/// The grid values after a load: component `c` of fluid cell
/// `l = i * ny + j` from record `j * nx + i` of the file, every other word
/// as it was.
pub open spec fn loaded_values(b: Seq<u8>, nx: int, ny: int, fluid: Seq<bool>, old: Seq<u64>) -> Seq<
    u64,
> {
    Seq::new(
        old.len(),
        |k: int|
            {
                let l = k / 6;
                let c = k % 6;
                let i = l / ny;
                let j = l % ny;
                if fluid[l] {
                    file_word(b, 8 * (j * nx + i) + 2 + c)
                } else {
                    old[k]
                }
            },
    )
}

/// Point `(r % nx, r / nx)` of record `r` is a grid cell.
proof fn lemma_record_cell(nx: int, ny: int, r: int)
    requires
        nx > 0,
        ny > 0,
        0 <= r < nx * ny,
    ensures
        0 <= r % nx < nx,
        0 <= r / nx < ny,
        (r / nx) * nx + r % nx == r,
        0 <= (r % nx) * ny + r / nx < nx * ny,
{
    vstd::arithmetic::div_mod::lemma_fundamental_div_mod(r, nx);
    let i = r % nx;
    let j = r / nx;
    assert(j * nx == nx * j) by (nonlinear_arith);
    assert(j < ny) by (nonlinear_arith)
        requires
            r == nx * j + i,
            0 <= i < nx,
            r < nx * ny,
    ;
    assert(0 <= j);
    assert(0 <= i * ny + j < nx * ny) by (nonlinear_arith)
        requires
            0 <= i < nx,
            0 <= j < ny,
    ;
}

/// Cell `l = i * ny + j` has record `j * nx + i`.
proof fn lemma_cell_record(nx: int, ny: int, l: int)
    requires
        nx > 0,
        ny > 0,
        0 <= l < nx * ny,
    ensures
        0 <= l / ny < nx,
        0 <= l % ny < ny,
        (l / ny) * ny + l % ny == l,
        0 <= (l % ny) * nx + l / ny < nx * ny,
        ((l % ny) * nx + l / ny) % nx == l / ny,
        ((l % ny) * nx + l / ny) / nx == l % ny,
{
    vstd::arithmetic::div_mod::lemma_fundamental_div_mod(l, ny);
    let i = l / ny;
    let j = l % ny;
    assert(i * ny == ny * i) by (nonlinear_arith);
    assert(i < nx) by (nonlinear_arith)
        requires
            l == ny * i + j,
            0 <= j < ny,
            l < nx * ny,
    ;
    assert(0 <= i);
    assert(0 <= j * nx + i < nx * ny) by (nonlinear_arith)
        requires
            0 <= i < nx,
            0 <= j < ny,
    ;
    vstd::arithmetic::div_mod::lemma_fundamental_div_mod_converse(j * nx + i, nx, j, i);
}

fn read_word(bytes: &[u8], m: usize) -> (w: u64)
    requires
        48 + 8 * m <= bytes@.len(),
    ensures
        w == file_word(bytes@, m as int),
{
    let len = bytes.len();
    let start = 40 + 8 * m;
    vstd::bytes::u64_from_le_bytes(slice_range(bytes, start, start + 8))
}

fn finite(b: u64) -> (r: bool)
    ensures
        r == finite_bits(b),
{
    b & EXPONENT_MASK != EXPONENT_MASK
}

/// Whether record `r` is bad.
fn record_is_bad(bytes: &[u8], nx: usize, ny: usize, fluid: &[bool], r: usize) -> (bad: bool)
    requires
        nx > 0,
        ny > 0,
        fluid@.len() == nx * ny,
        r < nx * ny,
        40 + 64 * nx * ny <= bytes@.len(),
    ensures
        bad == bad_record(bytes@, nx as int, ny as int, fluid@, r as int),
{
    proof {
        lemma_record_cell(nx as int, ny as int, r as int);
    }
    let n_cells = fluid.len();
    let len = bytes.len();
    let i = r % nx;
    let j = r / nx;
    assert(i * ny <= i * ny + j);
    let l = i * ny + j;
    if !fluid[l] {
        return false;
    }
    let mut c: usize = 0;
    while c < 6
        invariant
            c <= 6,
            r < nx * ny,
            len == bytes@.len(),
            40 + 64 * nx * ny <= bytes@.len(),
            nx > 0,
            i == r as int % nx as int,
            j == r as int / nx as int,
            fluid@[i * ny + j],
            forall|c2: int| 0 <= c2 < c ==> finite_bits(#[trigger] file_word(bytes@, 8 * r + 2 + c2)),
        decreases 6 - c,
    {
        assert(48 + 8 * (8 * r + 2 + c) <= bytes@.len()) by (nonlinear_arith)
            requires
                r + 1 <= nx * ny,
                c < 6,
                40 + 64 * nx * ny <= bytes@.len(),
        ;
        let w = read_word(bytes, 8 * r + 2 + c);
        if !finite(w) {
            assert(0 <= c < 6 && !finite_bits(file_word(bytes@, 8 * r + 2 + c)));
            return true;
        }
        c = c + 1;
    }
    false
}

/// Loads a solution file for an `nx` by `ny` grid: checks the header
/// against the grid, that all records are present and that every fluid
/// cell's values are finite, then sets the six values of each fluid cell
/// `l = i * ny + j` (`values[6 l .. 6 l + 6]`) from record `j * nx + i` and
/// returns the time's bit pattern. On rejection nothing is changed.
pub fn load_solution(
    bytes: &[u8],
    nx: usize,
    ny: usize,
    fluid: &[bool],
    values: &mut Vec<u64>,
) -> (r: Result<u64, LoadError>)
    requires
        nx > 0,
        ny > 0,
        fluid@.len() == nx * ny,
        old(values)@.len() == 6 * nx * ny,
    ensures
        r == load_spec(bytes@, nx, ny, fluid@),
        r is Ok ==> final(values)@ == loaded_values(
            bytes@,
            nx as int,
            ny as int,
            fluid@,
            old(values)@,
        ),
        r is Err ==> final(values)@ == old(values)@,
{
    let h = match check_restart_header(bytes, nx as u64, ny as u64) {
        Ok(h) => h,
        Err(e) => {
            return Err(LoadError::Header(e));
        },
    };
    let n = fluid.len();
    let len = bytes.len();
    proof {
        vstd::arithmetic::div_mod::lemma_fundamental_div_mod((len - 40) as int, 64);
    }
    if (len - 40) / 64 < n {
        assert(len < 40 + 64 * nx * ny) by (nonlinear_arith)
            requires
                (len - 40) / 64 < n,
                n == nx * ny,
                len - 40 == 64 * ((len - 40) / 64) + (len - 40) % 64,
                0 <= (len - 40) % 64 < 64,
        ;
        return Err(LoadError::Truncated);
    }
    assert(40 + 64 * nx * ny <= len) by (nonlinear_arith)
        requires
            (len - 40) / 64 >= n,
            n == nx * ny,
            len - 40 == 64 * ((len - 40) / 64) + (len - 40) % 64,
            0 <= (len - 40) % 64 < 64,
            len >= 40,
    ;
    let ghost b = bytes@;
    let mut rec: usize = 0;
    while rec < n
        invariant
            restart_header_spec(b, nx as u64, ny as u64) == Ok::<Header, HeaderError>(h),
            nx > 0,
            ny > 0,
            n == nx * ny,
            fluid@.len() == n,
            b == bytes@,
            40 + 64 * nx * ny <= b.len(),
            rec <= n,
            first_bad(b, nx as int, ny as int, fluid@, 0) == first_bad(
                b,
                nx as int,
                ny as int,
                fluid@,
                rec as int,
            ),
        decreases n - rec,
    {
        if record_is_bad(bytes, nx, ny, fluid, rec) {
            assert(first_bad(b, nx as int, ny as int, fluid@, rec as int) == Some(rec as int));
            return Err(LoadError::NonFinite { i: rec % nx, j: rec / nx });
        }
        rec = rec + 1;
    }
    assert(first_bad(b, nx as int, ny as int, fluid@, n as int) is None);
    let ghost old_values = values@;
    assert(6 * n == 6 * nx * ny) by (nonlinear_arith)
        requires
            n == nx * ny,
    ;
    let n_values = values.len();
    let mut l: usize = 0;
    while l < n
        invariant
            nx > 0,
            ny > 0,
            n == nx * ny,
            fluid@.len() == n,
            b == bytes@,
            40 + 64 * nx * ny <= b.len(),
            old_values.len() == 6 * n,
            values@.len() == 6 * n,
            n_values == 6 * n,
            len == bytes@.len(),
            l <= n,
            forall|k: int|
                0 <= k < 6 * l ==> #[trigger] values@[k] == loaded_values(
                    b,
                    nx as int,
                    ny as int,
                    fluid@,
                    old_values,
                )[k],
            forall|k: int| 6 * l <= k < 6 * n ==> #[trigger] values@[k] == old_values[k],
        decreases n - l,
    {
        proof {
            lemma_cell_record(nx as int, ny as int, l as int);
        }
        let i = l / ny;
        let j = l % ny;
        assert(j * nx <= j * nx + i);
        let rr = j * nx + i;
        let is_fluid = fluid[l];
        let mut c: usize = 0;
        while c < 6
            invariant
                nx > 0,
                ny > 0,
                n == nx * ny,
                fluid@.len() == n,
                b == bytes@,
                40 + 64 * nx * ny <= b.len(),
                old_values.len() == 6 * n,
                values@.len() == 6 * n,
                n_values == 6 * n,
                len == bytes@.len(),
                l < n,
                i == l as int / ny as int,
                j == l as int % ny as int,
                rr == j * nx + i,
                rr < n,
                is_fluid == fluid@[l as int],
                c <= 6,
                forall|k: int|
                    0 <= k < 6 * l + c ==> #[trigger] values@[k] == loaded_values(
                        b,
                        nx as int,
                        ny as int,
                        fluid@,
                        old_values,
                    )[k],
                forall|k: int| 6 * l + c <= k < 6 * n ==> #[trigger] values@[k] == old_values[k],
            decreases 6 - c,
        {
            let k = 6 * l + c;
            proof {
                assert(k / 6 == l && k % 6 == c) by (nonlinear_arith)
                    requires
                        k == 6 * l + c,
                        c < 6,
                ;
            }
            if is_fluid {
                assert(48 + 8 * (8 * rr + 2 + c) <= b.len()) by (nonlinear_arith)
                    requires
                        rr + 1 <= nx * ny,
                        c < 6,
                        40 + 64 * nx * ny <= b.len(),
                ;
                let w = read_word(bytes, 8 * rr + 2 + c);
                values.set(k, w);
            }
            c = c + 1;
        }
        l = l + 1;
    }
    proof {
        assert(values@ =~= loaded_values(b, nx as int, ny as int, fluid@, old_values));
    }
    Ok(h.time_bits)
}


/// Word `8 r + 2 + c` of the payload is value `c` of record `r`.
proof fn lemma_value_word(r: int, c: int)
    requires
        r >= 0,
        0 <= c < 6,
    ensures
        (8 * r + 2 + c) / 8 == r,
        (8 * r + 2 + c) % 8 == 2 + c,
{
    vstd::arithmetic::div_mod::lemma_fundamental_div_mod_converse(8 * r + 2 + c, 8, r, 2 + c);
}

/// The header of a written file reads back, and payload word `m` of the
/// file is the word that was written.
proof fn lemma_file_reads_back(h: Header, words: Seq<u64>)
    ensures
        decode_spec(header_bytes(h) + words_bytes(words)) == Ok::<Header, HeaderError>(h),
        (header_bytes(h) + words_bytes(words)).len() == 40 + 8 * words.len(),
        forall|m: int|
            0 <= m < words.len() ==> #[trigger] file_word(header_bytes(h) + words_bytes(words), m)
                == words[m],
{
    vstd::bytes::lemma_auto_spec_u32_to_from_le_bytes();
    vstd::bytes::lemma_auto_spec_u64_to_from_le_bytes();
    crate::io::lemma_header_round_trip(h);
    lemma_words_bytes(words);
    let hb = header_bytes(h);
    let wb = words_bytes(words);
    let b = hb + wb;
    assert(hb.len() == 40);
    assert(b.subrange(0, 8) =~= hb.subrange(0, 8));
    assert(b.subrange(8, 12) =~= hb.subrange(8, 12));
    assert(b.subrange(12, 16) =~= hb.subrange(12, 16));
    assert(b.subrange(16, 24) =~= hb.subrange(16, 24));
    assert(b.subrange(24, 32) =~= hb.subrange(24, 32));
    assert(b.subrange(32, 40) =~= hb.subrange(32, 40));
    assert forall|m: int| 0 <= m < words.len() implies #[trigger] file_word(b, m) == words[m] by {
        assert(b.subrange(40 + 8 * m, 48 + 8 * m) =~= wb.subrange(8 * m, 8 * m + 8));
    }
}

proof fn lemma_no_bad_record(
    b: Seq<u8>,
    nx: int,
    ny: int,
    fluid: Seq<bool>,
    words: Seq<u64>,
    xs: Seq<u64>,
    ys: Seq<u64>,
    vals: Seq<u64>,
    k: int,
)
    requires
        nx > 0,
        ny > 0,
        0 <= k,
        words == payload_words(xs, ys, fluid, vals, nx, ny),
        forall|m: int| 0 <= m < words.len() ==> #[trigger] file_word(b, m) == words[m],
        forall|l: int, c: int|
            0 <= l < nx * ny && 0 <= c < 6 && fluid[l] ==> finite_bits(#[trigger] vals[6 * l + c]),
    ensures
        first_bad(b, nx, ny, fluid, k) is None,
    decreases nx * ny - k,
{
    if k < nx * ny {
        lemma_record_cell(nx, ny, k);
        let i = k % nx;
        let j = k / nx;
        let l = i * ny + j;
        if fluid[l] {
            assert forall|c: int| 0 <= c < 6 implies finite_bits(
                #[trigger] file_word(b, 8 * k + 2 + c),
            ) by {
                lemma_value_word(k, c);
                assert(8 * k + 2 + c < 8 * nx * ny) by (nonlinear_arith)
                    requires
                        k < nx * ny,
                        c < 6,
                ;
                assert(words[8 * k + 2 + c] == payload_word(
                    xs,
                    ys,
                    fluid,
                    vals,
                    nx,
                    ny,
                    8 * k + 2 + c,
                ));
                assert(finite_bits(vals[6 * l + c]));
                assert(vals[6 * l + c] == file_word(b, 8 * k + 2 + c));
            }
        }
        assert(!bad_record(b, nx, ny, fluid, k));
        lemma_no_bad_record(b, nx, ny, fluid, words, xs, ys, vals, k + 1);
    }
}

/// A solution file loads back as it was written: for a grid of the file's
/// size whose fluid cells hold finite values, the load succeeds with the
/// written time, every fluid cell gets back exactly (bit for bit) the six
/// values that were written for it, and every other word keeps its value.
pub proof fn lemma_solution_round_trip(
    h: Header,
    xs: Seq<u64>,
    ys: Seq<u64>,
    fluid: Seq<bool>,
    vals: Seq<u64>,
    old: Seq<u64>,
)
    requires
        0 < h.nx <= usize::MAX,
        0 < h.ny <= usize::MAX,
        xs.len() == h.nx,
        ys.len() == h.ny,
        fluid.len() == h.nx * h.ny,
        vals.len() == 6 * h.nx * h.ny,
        old.len() == 6 * h.nx * h.ny,
        forall|l: int, c: int|
            0 <= l < h.nx * h.ny && 0 <= c < 6 && fluid[l] ==> finite_bits(
                #[trigger] vals[6 * l + c],
            ),
    ensures
        load_spec(solution_file(h, xs, ys, fluid, vals), h.nx as usize, h.ny as usize, fluid)
            == Ok::<u64, LoadError>(h.time_bits),
        loaded_values(solution_file(h, xs, ys, fluid, vals), h.nx as int, h.ny as int, fluid, old)
            == Seq::new(old.len(), |k: int| if fluid[k / 6] { vals[k] } else { old[k] }),
{
    let nx = h.nx as int;
    let ny = h.ny as int;
    let words = payload_words(xs, ys, fluid, vals, nx, ny);
    let b = solution_file(h, xs, ys, fluid, vals);
    lemma_file_reads_back(h, words);
    assert(words.len() == 8 * nx * ny);
    assert(b.len() == 40 + 64 * nx * ny) by (nonlinear_arith)
        requires
            b.len() == 40 + 8 * words.len(),
            words.len() == 8 * nx * ny,
    ;
    assert(restart_header_spec(b, h.nx as usize as u64, h.ny as usize as u64) == Ok::<
        Header,
        HeaderError,
    >(h));
    lemma_no_bad_record(b, nx, ny, fluid, words, xs, ys, vals, 0);
    let expect = Seq::new(old.len(), |k: int| if fluid[k / 6] { vals[k] } else { old[k] });
    let got = loaded_values(b, nx, ny, fluid, old);
    assert forall|k: int| 0 <= k < old.len() implies got[k] == expect[k] by {
        let l = k / 6;
        let c = k % 6;
        assert(0 <= l < nx * ny && k == 6 * l + c) by (nonlinear_arith)
            requires
                0 <= k < 6 * nx * ny,
                l == k / 6,
                c == k % 6,
        ;
        if fluid[l] {
            lemma_cell_record(nx, ny, l);
            let i = l / ny;
            let j = l % ny;
            let rr = j * nx + i;
            lemma_value_word(rr, c);
            assert(8 * rr + 2 + c < 8 * nx * ny) by (nonlinear_arith)
                requires
                    rr < nx * ny,
                    0 <= c < 6,
            ;
            assert(words[8 * rr + 2 + c] == payload_word(xs, ys, fluid, vals, nx, ny, 8 * rr + 2 + c));
            assert(got[k] == file_word(b, 8 * rr + 2 + c));
        }
    }
    assert(got =~= expect);
}

} // verus!
