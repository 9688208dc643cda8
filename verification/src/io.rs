use vstd::prelude::*;

use vstd::bytes::{
    spec_u32_from_le_bytes, spec_u32_to_le_bytes, spec_u64_from_le_bytes, spec_u64_to_le_bytes,
};

verus! {

// Binary solution file, little endian:
//
//   header:  [8]u8 magic "RH3TBIN1", u32 version, u32 nvar,
//            u64 nx, u64 ny, f64 time
//   payload: nx * ny records, j-major (x fastest), each of nvar f64:
//            x, y, rho, mom_x, mom_y, ee, ei, er
//
// The time is carried by its IEEE-754 bit pattern.

/// Format version written and accepted.
pub const VERSION: u32 = 1;

/// Number of doubles per payload record.
pub const NVAR: u32 = 8;

/// Length of the header in bytes.
pub const HEADER_LEN: usize = 40;

/// The eight magic bytes `RH3TBIN1`.
pub open spec fn magic() -> Seq<u8> {
    seq![0x52u8, 0x48u8, 0x33u8, 0x54u8, 0x42u8, 0x49u8, 0x4eu8, 0x31u8]
}

/// Contents of a solution-file header.
#[derive(Clone, Copy, Debug, PartialEq, Eq)]
pub struct Header {
    pub nx: u64,
    pub ny: u64,
    /// Bit pattern of the solution time.
    pub time_bits: u64,
}

/// Why a header was rejected.
#[derive(Clone, Copy, Debug, PartialEq, Eq)]
pub enum HeaderError {
    /// Fewer than `HEADER_LEN` bytes.
    TooShort,
    /// The first eight bytes are not `RH3TBIN1`.
    BadMagic,
    /// Unsupported format version.
    BadVersion(u32),
    /// Unexpected number of doubles per record.
    BadNvar(u32),
    /// The file's grid differs from the expected one.
    GridMismatch { nx: u64, ny: u64 },
}

/// The bytes of a header.
pub open spec fn header_bytes(h: Header) -> Seq<u8> {
    magic() + spec_u32_to_le_bytes(VERSION) + spec_u32_to_le_bytes(NVAR) + spec_u64_to_le_bytes(
        h.nx,
    ) + spec_u64_to_le_bytes(h.ny) + spec_u64_to_le_bytes(h.time_bits)
}

/// Result of reading a header from the start of `b`.
pub open spec fn decode_spec(b: Seq<u8>) -> Result<Header, HeaderError> {
    if b.len() < 40 {
        Err(HeaderError::TooShort)
    } else if b.subrange(0, 8) != magic() {
        Err(HeaderError::BadMagic)
    } else if spec_u32_from_le_bytes(b.subrange(8, 12)) != VERSION {
        Err(HeaderError::BadVersion(spec_u32_from_le_bytes(b.subrange(8, 12))))
    } else if spec_u32_from_le_bytes(b.subrange(12, 16)) != NVAR {
        Err(HeaderError::BadNvar(spec_u32_from_le_bytes(b.subrange(12, 16))))
    } else {
        Ok(
            Header {
                nx: spec_u64_from_le_bytes(b.subrange(16, 24)),
                ny: spec_u64_from_le_bytes(b.subrange(24, 32)),
                time_bits: spec_u64_from_le_bytes(b.subrange(32, 40)),
            },
        )
    }
}

fn magic_bytes() -> (r: Vec<u8>)
    ensures
        r@ == magic(),
{
    let r: Vec<u8> = vec![0x52u8, 0x48u8, 0x33u8, 0x54u8, 0x42u8, 0x49u8, 0x4eu8, 0x31u8];
    assert(r@ =~= magic());
    r
}

/// The header bytes of a solution file.
pub fn encode_header(h: &Header) -> (r: Vec<u8>)
    ensures
        r@ == header_bytes(*h),
        r@.len() == HEADER_LEN,
{
    proof {
        vstd::bytes::lemma_auto_spec_u32_to_from_le_bytes();
        vstd::bytes::lemma_auto_spec_u64_to_from_le_bytes();
    }
    let mut r = magic_bytes();
    let mut v = vstd::bytes::u32_to_le_bytes(VERSION);
    r.append(&mut v);
    let mut v = vstd::bytes::u32_to_le_bytes(NVAR);
    r.append(&mut v);
    let mut v = vstd::bytes::u64_to_le_bytes(h.nx);
    r.append(&mut v);
    let mut v = vstd::bytes::u64_to_le_bytes(h.ny);
    r.append(&mut v);
    let mut v = vstd::bytes::u64_to_le_bytes(h.time_bits);
    r.append(&mut v);
    r
}

/// Reads a header from the start of `bytes`: checks the length, the magic
/// bytes, the version and the record width, in that order.
pub fn decode_header(bytes: &[u8]) -> (r: Result<Header, HeaderError>)
    ensures
        r == decode_spec(bytes@),
{
    if bytes.len() < HEADER_LEN {
        return Err(HeaderError::TooShort);
    }
    let mut k: usize = 0;
    let expected = magic_bytes();
    while k < 8
        invariant
            bytes@.len() >= 40,
            expected@ == magic(),
            k <= 8,
            forall|q: int| 0 <= q < k ==> bytes@[q] == magic()[q],
        decreases 8 - k,
    {
        if bytes[k] != expected[k] {
            assert(bytes@.subrange(0, 8)[k as int] != magic()[k as int]);
            return Err(HeaderError::BadMagic);
        }
        k = k + 1;
    }
    assert(bytes@.subrange(0, 8) =~= magic());
    let version = vstd::bytes::u32_from_le_bytes(slice_range(bytes, 8, 12));
    if version != VERSION {
        return Err(HeaderError::BadVersion(version));
    }
    let nvar = vstd::bytes::u32_from_le_bytes(slice_range(bytes, 12, 16));
    if nvar != NVAR {
        return Err(HeaderError::BadNvar(nvar));
    }
    let nx = vstd::bytes::u64_from_le_bytes(slice_range(bytes, 16, 24));
    let ny = vstd::bytes::u64_from_le_bytes(slice_range(bytes, 24, 32));
    let time_bits = vstd::bytes::u64_from_le_bytes(slice_range(bytes, 32, 40));
    Ok(Header { nx, ny, time_bits })
}

/// The header of a restart file for an `nx` by `ny` grid, or why it is
/// rejected.
pub open spec fn restart_header_spec(b: Seq<u8>, nx: u64, ny: u64) -> Result<Header, HeaderError> {
    match decode_spec(b) {
        Ok(h) => if h.nx == nx && h.ny == ny {
            Ok(h)
        } else {
            Err(HeaderError::GridMismatch { nx: h.nx, ny: h.ny })
        },
        Err(e) => Err(e),
    }
}

/// A restart header is accepted only for the grid it was written for: an
/// accepted header is the decoded one and has the grid's `nx` and `ny`; a
/// well-formed header with another `nx` or another `ny` is rejected as a
/// grid mismatch naming the file's size; a malformed header is rejected
/// for the reason decoding gives.
pub proof fn lemma_restart_header_matches_grid(b: Seq<u8>, nx: u64, ny: u64)
    ensures
        restart_header_spec(b, nx, ny) matches Ok(h) ==> h.nx == nx && h.ny == ny && decode_spec(b)
            == Ok::<Header, HeaderError>(h),
        decode_spec(b) matches Ok(h) ==> ((h.nx != nx || h.ny != ny) ==> restart_header_spec(
            b,
            nx,
            ny,
        ) == Err::<Header, HeaderError>(HeaderError::GridMismatch { nx: h.nx, ny: h.ny })),
        decode_spec(b) matches Err(e) ==> restart_header_spec(b, nx, ny) == Err::<
            Header,
            HeaderError,
        >(e),
{
}

/// Two grids that differ in size never both accept the same header.
pub proof fn lemma_restart_header_grid_unique(b: Seq<u8>, nx1: u64, ny1: u64, nx2: u64, ny2: u64)
    requires
        restart_header_spec(b, nx1, ny1) is Ok,
        restart_header_spec(b, nx2, ny2) is Ok,
    ensures
        nx1 == nx2 && ny1 == ny2,
{
    lemma_restart_header_matches_grid(b, nx1, ny1);
    lemma_restart_header_matches_grid(b, nx2, ny2);
}

/// Reads the header of a restart file for an `nx` by `ny` grid, rejecting
/// any header that `decode_header` rejects or whose grid differs.
pub fn check_restart_header(bytes: &[u8], nx: u64, ny: u64) -> (r: Result<Header, HeaderError>)
    ensures
        r == restart_header_spec(bytes@, nx, ny),
        r matches Ok(h) ==> h.nx == nx && h.ny == ny && decode_spec(bytes@) == Ok::<
            Header,
            HeaderError,
        >(h),
{
    match decode_header(bytes) {
        Ok(h) => {
            if h.nx == nx && h.ny == ny {
                Ok(h)
            } else {
                Err(HeaderError::GridMismatch { nx: h.nx, ny: h.ny })
            }
        },
        Err(e) => Err(e),
    }
}

pub(crate) fn slice_range(bytes: &[u8], start: usize, end: usize) -> (r: &[u8])
    requires
        start <= end <= bytes@.len(),
    ensures
        r@ == bytes@.subrange(start as int, end as int),
{
    vstd::slice::slice_subrange(bytes, start, end)
}

/// A written header reads back as the header that was written.
pub proof fn lemma_header_round_trip(h: Header)
    ensures
        decode_spec(header_bytes(h)) == Ok::<Header, HeaderError>(h),
{
    vstd::bytes::lemma_auto_spec_u32_to_from_le_bytes();
    vstd::bytes::lemma_auto_spec_u64_to_from_le_bytes();
    let b = header_bytes(h);
    let v = spec_u32_to_le_bytes(VERSION);
    let n = spec_u32_to_le_bytes(NVAR);
    let x = spec_u64_to_le_bytes(h.nx);
    let y = spec_u64_to_le_bytes(h.ny);
    let t = spec_u64_to_le_bytes(h.time_bits);
    assert(b.len() == 40);
    assert(b.subrange(0, 8) =~= magic());
    assert(b.subrange(8, 12) =~= v);
    assert(b.subrange(12, 16) =~= n);
    assert(b.subrange(16, 24) =~= x);
    assert(b.subrange(24, 32) =~= y);
    assert(b.subrange(32, 40) =~= t);
}

/// Byte offset of the payload record of grid cell `(i, j)` in a file for a
/// grid with `nx` columns: records follow the header, j-major.
pub fn record_offset(i: u64, j: u64, nx: u64) -> (r: u64)
    requires
        i < nx,
        HEADER_LEN + 8 * NVAR * (j * nx + i) <= u64::MAX,
    ensures
        r == HEADER_LEN + 8 * NVAR * (j * nx + i),
{
    proof {
        assert(j * nx + i <= (HEADER_LEN + 8 * NVAR * (j * nx + i))) by (nonlinear_arith)
            requires
                j * nx + i >= 0,
        ;
        assert(64 * (j * nx + i) <= u64::MAX) by (nonlinear_arith)
            requires
                40 + 64 * (j * nx + i) <= u64::MAX,
        ;
        assert(j * nx <= j * nx + i);
    }
    40 + 64 * (j * nx + i)
}

/// How the per-step monitor file is opened: `(append, write_header)`.
///
/// A requested append is honoured only if the file does not exist, could
/// not be read, or starts with the current header (`first_line_matches`,
/// `None` when the first line could not be read); a stale header starts a
/// fresh file instead. The header is written to every fresh or new file.
pub fn monitor_open_mode(append: bool, exists: bool, first_line_matches: Option<bool>) -> (r: (
    bool,
    bool,
))
    ensures
        r.0 == (append && !(exists && first_line_matches == Some(false))),
        r.1 == (!r.0 || !exists),
{
    let mut append = append;
    if append && exists {
        if let Some(matches) = first_line_matches {
            if !matches {
                append = false;
            }
        }
    }
    (append, !append || !exists)
}


/// Columns of the per-step monitor file, comma separated: step and time
/// step data, admissibility extrema, global integrals, temporal and
/// spatial activity, then the three residual norms (R1, R2, Rinf) of each
/// conservative component, component by component.
pub open spec fn monitor_columns() -> Seq<char> {
    "step,time,dt,dt_cfl,dt_over_dt_cfl,n_fluid,rho_min,rho_max,p_min,p_max,pe_min,pi_min,pr_min,ee_int_min,ei_int_min,er_int_min,speed_max,mach_max,mass,mom_x,mom_y,total_energy,drho_dt_l2,dmom_x_dt_l2,dmom_y_dt_l2,dee_dt_l2,dei_dt_l2,der_dt_l2,tv_rho,tv_p,s2_rho,s2_p,rho_R1,rho_R2,rho_Rinf,mom_x_R1,mom_x_R2,mom_x_Rinf,mom_y_R1,mom_y_R2,mom_y_Rinf,e_e_R1,e_e_R2,e_e_Rinf,e_i_R1,e_i_R2,e_i_Rinf,e_r_R1,e_r_R2,e_r_Rinf"@
}

/// The header line of the per-step monitor file (see `monitor_columns`).
pub fn monitor_header() -> (r: &'static str)
    ensures
        r@ == monitor_columns(),
{
    "step,time,dt,dt_cfl,dt_over_dt_cfl,n_fluid,rho_min,rho_max,p_min,p_max,pe_min,pi_min,pr_min,ee_int_min,ei_int_min,er_int_min,speed_max,mach_max,mass,mom_x,mom_y,total_energy,drho_dt_l2,dmom_x_dt_l2,dmom_y_dt_l2,dee_dt_l2,dei_dt_l2,der_dt_l2,tv_rho,tv_p,s2_rho,s2_p,rho_R1,rho_R2,rho_Rinf,mom_x_R1,mom_x_R2,mom_x_Rinf,mom_y_R1,mom_y_R2,mom_y_Rinf,e_e_R1,e_e_R2,e_e_Rinf,e_i_R1,e_i_R2,e_i_Rinf,e_r_R1,e_r_R2,e_r_Rinf"
}

} // verus!
