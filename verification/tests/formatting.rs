use disk_cleanup_tool::decimal::{parse_u64, u64_to_decimal, NumberFault};
use disk_cleanup_tool::utils::format_size;

#[test]
fn test_format_size() {
    assert_eq!(format_size(0), "0 B");
    assert_eq!(format_size(500), "500 B");
    assert_eq!(format_size(1024), "1.00 KB");
    assert_eq!(format_size(1536), "1.50 KB");
    assert_eq!(format_size(1048576), "1.00 MB");
    assert_eq!(format_size(1073741824), "1.00 GB");
    assert_eq!(format_size(1099511627776), "1.00 TB");
    assert_eq!(format_size(5368709120), "5.00 GB");
}

#[test]
fn format_size_at_the_unit_boundaries() {
    assert_eq!(format_size(1023), "1023 B");
    assert_eq!(format_size(1048575), "1024.00 KB");
    assert_eq!(format_size(1073741823), "1024.00 MB");
    assert_eq!(format_size(1099511627775), "1024.00 GB");
}

#[test]
fn format_size_rounds_to_the_nearest_hundredth() {
    // 1029 / 1024 = 1.0048..., 1030 / 1024 = 1.0058...
    assert_eq!(format_size(1029), "1.00 KB");
    assert_eq!(format_size(1030), "1.01 KB");
    // 1152 / 1024 = 1.125 and 1172.48 is no integer: a tie goes to the even hundredth
    assert_eq!(format_size(1152), "1.12 KB");
    assert_eq!(format_size(1024 + 384), "1.38 KB");
    assert_eq!(format_size(10 * 1048576 + 52429), "10.05 MB");
}

#[test]
fn format_size_matches_floating_point_formatting() {
    let samples: [u64; 12] = [
        1025,
        1152,
        123456,
        1048576 + 5243,
        987654321,
        1073741824 + 1,
        123456789012,
        1099511627776 + 5497558139,
        9007199254740993,
        u64::MAX / 3,
        u64::MAX - 1,
        u64::MAX,
    ];
    for bytes in samples {
        let value = bytes as f64;
        let expected = if bytes >= 1099511627776 {
            format!("{:.2} TB", value / 1099511627776.0)
        } else if bytes >= 1073741824 {
            format!("{:.2} GB", value / 1073741824.0)
        } else if bytes >= 1048576 {
            format!("{:.2} MB", value / 1048576.0)
        } else {
            format!("{:.2} KB", value / 1024.0)
        };
        assert_eq!(format_size(bytes), expected);
    }
}

#[test]
fn format_size_of_the_largest_size() {
    assert_eq!(format_size(u64::MAX), "16777216.00 TB");
}

#[test]
fn decimal_text_of_numbers() {
    assert_eq!(u64_to_decimal(0), "0");
    assert_eq!(u64_to_decimal(7), "7");
    assert_eq!(u64_to_decimal(10), "10");
    assert_eq!(u64_to_decimal(524288000), "524288000");
    assert_eq!(u64_to_decimal(u64::MAX), "18446744073709551615");
}

#[test]
fn numbers_from_decimal_text() {
    assert_eq!(parse_u64("0"), Ok(0));
    assert_eq!(parse_u64("007"), Ok(7));
    assert_eq!(parse_u64("+12"), Ok(12));
    assert_eq!(parse_u64("18446744073709551615"), Ok(u64::MAX));
    assert_eq!(parse_u64(""), Err(NumberFault::Empty));
    assert_eq!(parse_u64("+"), Err(NumberFault::InvalidDigit));
    assert_eq!(parse_u64("-1"), Err(NumberFault::InvalidDigit));
    assert_eq!(parse_u64("abc"), Err(NumberFault::InvalidDigit));
    assert_eq!(parse_u64("12 "), Err(NumberFault::InvalidDigit));
    assert_eq!(parse_u64("1.5"), Err(NumberFault::InvalidDigit));
    assert_eq!(parse_u64("18446744073709551616"), Err(NumberFault::TooLarge));
    assert_eq!(parse_u64("99999999999999999999x"), Err(NumberFault::TooLarge));
}

#[test]
fn numbers_read_as_the_standard_library_reads_them() {
    for text in ["", "+", "-", "0", "+0", "42", "0042", "4 2", "١٢", "18446744073709551615", "18446744073709551616", "1e3"] {
        let expected = text.parse::<u64>().ok();
        assert_eq!(parse_u64(text).ok(), expected, "{:?}", text);
    }
}

#[test]
fn decimal_round_trip() {
    for n in [0u64, 1, 9, 10, 99, 100, 1024000, 525312000, u64::MAX] {
        assert_eq!(parse_u64(&u64_to_decimal(n)), Ok(n));
        assert_eq!(u64_to_decimal(n), n.to_string());
    }
}

fn expected_size(bytes: u64) -> String {
    let value = bytes as f64;
    if bytes >= 1099511627776 {
        format!("{:.2} TB", value / 1099511627776.0)
    } else if bytes >= 1073741824 {
        format!("{:.2} GB", value / 1073741824.0)
    } else if bytes >= 1048576 {
        format!("{:.2} MB", value / 1048576.0)
    } else if bytes >= 1024 {
        format!("{:.2} KB", value / 1024.0)
    } else {
        format!("{} B", bytes)
    }
}

#[test]
fn format_size_agrees_with_double_precision_on_many_sizes() {
    // a fixed pseudo-random walk over all magnitudes
    let mut state: u64 = 0x9E3779B97F4A7C15;
    for round in 0..40000u64 {
        state = state.wrapping_mul(6364136223846793005).wrapping_add(1442695040888963407);
        let shift = (round % 64) as u32;
        let bytes = state >> shift;
        assert_eq!(format_size(bytes), expected_size(bytes), "{}", bytes);
    }
}

#[test]
fn format_size_agrees_with_double_precision_at_ties_and_edges() {
    let units: [u64; 4] = [1024, 1048576, 1073741824, 1099511627776];
    for unit in units {
        for k in 0..3000u64 {
            // around every multiple of an eighth of a hundredth of the unit
            let base = unit + k * (unit / 800);
            for delta in [0u64, 1, 2] {
                let below = base.saturating_sub(delta);
                assert_eq!(format_size(below), expected_size(below), "{}", below);
                let above = base + delta;
                assert_eq!(format_size(above), expected_size(above), "{}", above);
            }
        }
    }
    for exp in 50..64u32 {
        let power = 1u64 << exp;
        for delta in 0..600u64 {
            assert_eq!(format_size(power + delta), expected_size(power + delta));
            assert_eq!(format_size(power - delta), expected_size(power - delta));
        }
    }
    for delta in 0..3000u64 {
        assert_eq!(format_size(u64::MAX - delta), expected_size(u64::MAX - delta));
    }
}
