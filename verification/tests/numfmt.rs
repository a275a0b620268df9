use deal_survey::numfmt::{hue_of, mean_cell_text, pct_cell_text, percent};

#[test]
fn one_decimal_means_print_like_binary_floats() {
    for b in 1..=160u128 {
        for a in 0..=800u128 {
            let expect = format!("{:.1}", a as f64 / b as f64);
            assert_eq!(mean_cell_text(a, b), expect, "mean {a}/{b}");
        }
    }
}

#[test]
fn mean_without_count_is_a_dash() {
    assert_eq!(mean_cell_text(7, 0), "  -");
}

#[test]
fn halfway_means_follow_the_binary_value() {
    // 0.25 is exact: halves go to even; 0.05, 0.45 sit above the half in
    // binary, 0.15, 0.35 below.
    assert_eq!(mean_cell_text(1, 4), "0.2");
    assert_eq!(mean_cell_text(3, 4), "0.8");
    assert_eq!(mean_cell_text(1, 20), "0.1");
    assert_eq!(mean_cell_text(3, 20), "0.1");
    assert_eq!(mean_cell_text(7, 20), "0.3");
    assert_eq!(mean_cell_text(9, 20), "0.5");
}

#[test]
fn percentages_print_like_binary_floats() {
    for d in 1..=400u128 {
        for n in 0..=(2 * d) {
            let expect = format!("{:3.0}%", 100.0 * n as f64 / d as f64);
            assert_eq!(pct_cell_text(n, d), expect, "pct {n}/{d}");
        }
    }
}

#[test]
fn percentage_values() {
    assert_eq!(percent(1, 3), 33);
    assert_eq!(percent(2, 3), 67);
    assert_eq!(percent(1, 8), 12);
    assert_eq!(percent(3, 8), 38);
    assert_eq!(pct_cell_text(0, 0), "  -");
    assert_eq!(pct_cell_text(5, 5), "100%");
    assert_eq!(pct_cell_text(1, 40), "  2%");
}

#[test]
fn heat_hue_matches_float_computation_off_ties() {
    let mut ties = Vec::new();
    for b in 1..=60u64 {
        for a in 0..=(6 * b) {
            let v = a as f64 / b as f64;
            let t = (v / 5.0).clamp(0.0, 1.0);
            let expect = format!("{:.0}", 140.0 * (1.0 - t));
            let got = hue_of(a as u128, b as u128).to_string();
            if got != expect {
                // Only an exactly halfway hue may differ.
                assert!((56 * a) % b == 0 && ((56 * a) / b) % 2 == 1, "hue {a}/{b}: {got} vs {expect}");
                ties.push((a, b));
            }
        }
    }
    assert_eq!(hue_of(0, 1), 140);
    assert_eq!(hue_of(5, 1), 0);
    assert_eq!(hue_of(9, 1), 0);
    assert_eq!(hue_of(2, 1), 84);
}
