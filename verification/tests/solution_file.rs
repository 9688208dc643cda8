use rh3t::io::{monitor_header, record_offset, Header, HeaderError};
use rh3t::payload::{encode_solution, load_solution, LoadError, NAN_BITS};

/// A 3 x 2 grid whose cell (1, 0) is solid.
fn sample() -> (Header, Vec<u64>, Vec<u64>, Vec<bool>, Vec<u64>) {
    let (nx, ny) = (3usize, 2usize);
    let h = Header { nx: nx as u64, ny: ny as u64, time_bits: 0.125f64.to_bits() };
    let xs = (0..nx).map(|i| (i as f64 * 0.5).to_bits()).collect();
    let ys = (0..ny).map(|j| (-1.0 + j as f64).to_bits()).collect();
    let fluid: Vec<bool> = (0..nx * ny).map(|l| l != ny).collect();
    let vals = (0..6 * nx * ny).map(|k| (1.0 + k as f64 / 7.0).to_bits()).collect();
    (h, xs, ys, fluid, vals)
}

fn word(bytes: &[u8], m: usize) -> u64 {
    u64::from_le_bytes(bytes[40 + 8 * m..48 + 8 * m].try_into().unwrap())
}

#[test]
fn records_are_j_major_with_nan_outside_the_fluid() {
    let (h, xs, ys, fluid, vals) = sample();
    let b = encode_solution(&h, &xs, &ys, &fluid, &vals);
    assert_eq!(b.len(), 40 + 64 * 6);
    // record of point (i, j) = (2, 1) is number 1 * 3 + 2 = 5; cell l = 2 * 2 + 1 = 5
    assert_eq!(record_offset(2, 1, 3), 40 + 64 * 5);
    assert_eq!(word(&b, 8 * 5), xs[2]);
    assert_eq!(word(&b, 8 * 5 + 1), ys[1]);
    for c in 0..6 {
        assert_eq!(word(&b, 8 * 5 + 2 + c), vals[6 * 5 + c]);
    }
    // point (1, 0): record 1, cell 2, solid
    for c in 0..6 {
        assert_eq!(word(&b, 8 + 2 + c), NAN_BITS);
    }
    assert!(f64::from_bits(NAN_BITS).is_nan());
}

#[test]
fn saved_solution_loads_back_bit_for_bit() {
    let (h, xs, ys, fluid, vals) = sample();
    let b = encode_solution(&h, &xs, &ys, &fluid, &vals);
    let old: Vec<u64> = (0..36).map(|k| 1000 + k).collect();
    let mut got = old.clone();
    assert_eq!(load_solution(&b, 3, 2, &fluid, &mut got), Ok(h.time_bits));
    for k in 0..36 {
        let expected = if fluid[k / 6] { vals[k] } else { old[k] };
        assert_eq!(got[k], expected);
    }
}

#[test]
fn rejected_files_change_nothing() {
    let (h, xs, ys, fluid, vals) = sample();
    let b = encode_solution(&h, &xs, &ys, &fluid, &vals);
    let old: Vec<u64> = vec![7; 36];

    let mut got = old.clone();
    assert_eq!(load_solution(&b[..b.len() - 1], 3, 2, &fluid, &mut got), Err(LoadError::Truncated));
    assert_eq!(got, old);

    assert_eq!(
        load_solution(&b, 2, 3, &fluid, &mut got),
        Err(LoadError::Header(HeaderError::GridMismatch { nx: 3, ny: 2 }))
    );
    assert_eq!(load_solution(&b[..20], 3, 2, &fluid, &mut got), Err(LoadError::Header(HeaderError::TooShort)));

    let mut bad = vals.clone();
    bad[6 * 3 + 4] = f64::INFINITY.to_bits(); // cell 3 = (1, 1), record 4
    bad[6 * 5] = f64::NAN.to_bits(); // cell 5 = (2, 1), record 5
    let b = encode_solution(&h, &xs, &ys, &fluid, &bad);
    assert_eq!(load_solution(&b, 3, 2, &fluid, &mut got), Err(LoadError::NonFinite { i: 1, j: 1 }));
    assert_eq!(got, old);

    // a non-finite value of a solid cell is never read
    let mut solid = vals.clone();
    solid[6 * 2] = f64::NAN.to_bits();
    let b = encode_solution(&h, &xs, &ys, &fluid, &solid);
    assert_eq!(load_solution(&b, 3, 2, &fluid, &mut got), Ok(h.time_bits));
}

#[test]
fn header_has_residual_columns_in_component_major_order() {
    let header = monitor_header();
    let tail: Vec<String> = ["rho", "mom_x", "mom_y", "e_e", "e_i", "e_r"]
        .iter()
        .flat_map(|c| ["R1", "R2", "Rinf"].iter().map(move |n| format!("{}_{}", c, n)))
        .collect();
    let tail_csv = format!(",{}", tail.join(","));
    assert!(header.ends_with(&tail_csv), "header must end with the residual columns, got ...{}", &header[header.len().saturating_sub(120)..]);
    assert!(header.starts_with("step,time,dt,dt_cfl,dt_over_dt_cfl,n_fluid,"));
}
