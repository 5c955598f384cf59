use rushdrop::size::format_size;

fn as_a_double(bytes: u64) -> String {
    if bytes >= 1 << 30 {
        format!("{:.1} GB", bytes as f64 / (1u64 << 30) as f64)
    } else if bytes >= 1 << 20 {
        format!("{:.1} MB", bytes as f64 / (1u64 << 20) as f64)
    } else if bytes >= 1 << 10 {
        format!("{:.1} KB", bytes as f64 / (1u64 << 10) as f64)
    } else {
        format!("{} B", bytes)
    }
}

#[test]
fn sizes_in_their_units() {
    assert_eq!(format_size(0), "0 B");
    assert_eq!(format_size(1023), "1023 B");
    assert_eq!(format_size(1024), "1.0 KB");
    assert_eq!(format_size(1536), "1.5 KB");
    assert_eq!(format_size(1048575), "1024.0 KB");
    assert_eq!(format_size(1048576), "1.0 MB");
    assert_eq!(format_size(1073741823), "1024.0 MB");
    assert_eq!(format_size(1073741824), "1.0 GB");
    assert_eq!(format_size(5368709120), "5.0 GB");
}

#[test]
fn a_half_goes_to_the_even_tenth() {
    assert_eq!(format_size(1280), "1.2 KB");
    assert_eq!(format_size(1792), "1.8 KB");
    assert_eq!(format_size(1310720), "1.2 MB");
}

#[test]
fn the_largest_sizes() {
    assert_eq!(format_size(u64::MAX), "17179869184.0 GB");
    assert_eq!(format_size(u64::MAX), as_a_double(u64::MAX));
    assert_eq!(format_size((1 << 53) + 1), as_a_double((1 << 53) + 1));
}

#[test]
fn sizes_agree_with_doubles() {
    let mut n: u64 = 1;
    while n < u64::MAX / 3 {
        for m in [n - 1, n, n + 1, n + n / 3] {
            assert_eq!(format_size(m), as_a_double(m));
        }
        n = n + n / 7 + 1;
    }
    let mut shift: u32 = 53;
    while shift < 64 {
        let power: u64 = 1 << shift;
        for m in [power - 1, power, power + 1, power + 1023, power + 1024, power + 1025] {
            assert_eq!(format_size(m), as_a_double(m));
        }
        shift = shift + 1;
    }
}

#[test]
fn a_larger_file_is_not_shown_smaller() {
    let value = |bytes: u64| {
        let text = format_size(bytes);
        text.split(' ').next().unwrap().parse::<f64>().unwrap()
    };
    let bytes_shown = |bytes: u64| {
        let text = format_size(bytes);
        let unit = match text.split(' ').nth(1).unwrap() {
            "GB" => 1073741824.0,
            "MB" => 1048576.0,
            "KB" => 1024.0,
            _ => 1.0,
        };
        value(bytes) * unit
    };
    let mut n: u64 = 1;
    while n < u64::MAX / 2 {
        assert!(bytes_shown(n) <= bytes_shown(n + n / 9 + 1));
        assert!(bytes_shown(n) <= bytes_shown(n + 1));
        n = n + n / 9 + 1;
    }
    let mut last = value(1024);
    let mut n: u64 = 1024;
    while n < 1048576 {
        let next = value(n);
        assert!(next >= last);
        assert!((next - n as f64 / 1024.0).abs() <= 0.05 + 1e-9);
        last = next;
        n = n + 37;
    }
}
