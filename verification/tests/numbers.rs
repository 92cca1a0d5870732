use vela::numbers::{decimal_string, format_size, parse_u64};

#[test]
fn decimal_renders_numbers() {
    assert_eq!(decimal_string(0), "0");
    assert_eq!(decimal_string(7), "7");
    assert_eq!(decimal_string(1234567890), "1234567890");
    assert_eq!(decimal_string(u64::MAX), "18446744073709551615");
}

#[test]
fn parse_accepts_what_std_accepts() {
    let cases = [
        "", "+", "-", "0", "+5", "-5", "12a", " 1", "007", "18446744073709551615",
        "18446744073709551616", "99999999999999999999999", "42",
    ];
    for c in cases {
        assert_eq!(parse_u64(c), c.parse::<u64>().ok(), "input {:?}", c);
    }
    assert_eq!(parse_u64("+5"), Some(5));
    assert_eq!(parse_u64("18446744073709551616"), None);
}

#[test]
fn format_size_exact_values() {
    assert_eq!(format_size(0), "0B");
    assert_eq!(format_size(1023), "1023B");
    assert_eq!(format_size(1024), "1.00KiB");
    assert_eq!(format_size(1536), "1.50KiB");
    assert_eq!(format_size(1048575), "1024.00KiB");
    assert_eq!(format_size(1048576), "1.00MiB");
    assert_eq!(format_size(1073741824), "1.00GiB");
    assert_eq!(format_size(1099511627776), "1.00TiB");
    assert_eq!(format_size(u64::MAX), "16777216.00TiB");
}

fn float_format(bytes: u64) -> String {
    const KB: u64 = 1024;
    const MB: u64 = KB * 1024;
    const GB: u64 = MB * 1024;
    const TB: u64 = GB * 1024;
    if bytes >= TB {
        format!("{:.2}TiB", bytes as f64 / TB as f64)
    } else if bytes >= GB {
        format!("{:.2}GiB", bytes as f64 / GB as f64)
    } else if bytes >= MB {
        format!("{:.2}MiB", bytes as f64 / MB as f64)
    } else if bytes >= KB {
        format!("{:.2}KiB", bytes as f64 / KB as f64)
    } else {
        format!("{}B", bytes)
    }
}

#[test]
fn format_size_agrees_with_float_formatting() {
    for b in 0..300_000u64 {
        assert_eq!(format_size(b), float_format(b), "bytes {}", b);
    }
    let mut x: u64 = 1;
    while x < u64::MAX / 3 {
        for d in [0u64, 1, 127, 128, 129, 511, 512, 513, 1023, 1024, 1025, 4095, 4096, 4097] {
            for b in [x.wrapping_add(d), x.wrapping_sub(d), x.wrapping_mul(3).wrapping_add(d)] {
                assert_eq!(format_size(b), float_format(b), "bytes {}", b);
            }
        }
        x = x * 2 + 1;
    }
    for b in [u64::MAX, u64::MAX - 1, u64::MAX - 1024, (1u64 << 53) + 1, (1u64 << 53) - 1, 9007199254740993] {
        assert_eq!(format_size(b), float_format(b), "bytes {}", b);
    }
}

#[test]
fn format_size_ties_go_to_even() {
    // 1152 / 1024 = 1.125 exactly, 1664 / 1024 = 1.625 exactly
    assert_eq!(format_size(1152), float_format(1152));
    assert_eq!(format_size(1664), float_format(1664));
}
