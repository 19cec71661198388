use irq_share::fixed::{format_fixed_point, FIXED_TEXT_CAPACITY};

fn text(raw: i16, frac_bits: u8, precision: Option<usize>) -> String {
    let t = format_fixed_point(raw, frac_bits, precision);
    assert_eq!(t.len(), t.as_bytes().len());
    String::from_utf8(t.as_bytes().to_vec()).unwrap()
}

#[test]
fn most_negative_keeps_sign() {
    assert_eq!(text(-32768, 8, Some(3)), "-128.0");
    assert_eq!(text(-32768, 0, None), "-32768.0");
    assert_eq!(text(-32768, 15, None), "-1.0");
    for f in 0u8..=15 {
        let expected = format!("-{}.0", 1u32 << (15 - f));
        assert_eq!(text(-32768, f, Some(6)), expected);
    }
}

#[test]
fn trailing_zero_digits_are_trimmed() {
    assert_eq!(text(256, 8, Some(3)), "1.0");
    assert_eq!(text(0, 5, None), "0.0");
    assert_eq!(text(100, 4, Some(2)), "6.25");
    assert_eq!(text(-5, 2, None), "-1.25");
}

#[test]
fn default_precision_is_three_digits() {
    assert_eq!(text(1, 8, None), "0.003");
}

#[test]
fn zero_precision_still_shows_one_digit() {
    assert_eq!(text(384, 8, Some(0)), "1.5");
}

#[test]
fn precision_is_capped_at_six_digits() {
    assert_eq!(text(1, 8, Some(10)), "0.003906");
    assert_eq!(text(1, 7, Some(7)), "0.007812");
}

#[test]
fn negative_below_one_keeps_sign() {
    assert_eq!(text(-128, 8, Some(3)), "-0.5");
    assert_eq!(text(-1, 15, Some(6)), "-0.000030");
}

#[test]
fn largest_values() {
    assert_eq!(text(32767, 0, None), "32767.0");
    assert_eq!(text(32767, 15, Some(6)), "0.999969");
    assert_eq!(text(12345, 11, Some(6)), "6.027832");
}

#[test]
fn more_than_eleven_fraction_bits_drop_low_bits_per_digit() {
    assert_eq!(text(4095, 12, Some(6)), "0.999755");
    assert_eq!(text(3, 13, Some(6)), "0.000366");
    // The dropped bits make the first digit low here: 410 / 4096 is 0.1001.
    assert_eq!(text(410, 12, Some(3)), "0.000");
}

#[test]
fn never_exceeds_capacity_or_precision() {
    for f in 0u8..=15 {
        for raw in (i16::MIN..=i16::MAX).step_by(7) {
            for p in 1usize..=6 {
                let s = text(raw, f, Some(p));
                assert!(s.len() <= FIXED_TEXT_CAPACITY);
                let frac = s.split('.').nth(1).unwrap();
                assert!(frac.len() >= 1 && frac.len() <= p);
                assert_eq!(s.starts_with('-'), raw < 0);
            }
        }
    }
}

#[test]
fn text_parses_back_within_precision() {
    for f in 0u8..=11 {
        for raw in i16::MIN..=i16::MAX {
            for p in [1usize, 3, 6] {
                let s = text(raw, f, Some(p));
                let shown: f64 = s.parse().unwrap();
                let exact = raw as f64 / (1u32 << f) as f64;
                let tolerance = 10f64.powi(-(p as i32));
                assert!((shown - exact).abs() < tolerance, "{} {} {} -> {}", raw, f, p, s);
            }
        }
    }
}
