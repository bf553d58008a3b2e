use sysprobe::utils::format_bytes;

#[test]
fn test_format_bytes() {
    assert_eq!(format_bytes(10000), "9.77 KB");
    assert_eq!(format_bytes(100006688), "95.37 MB");
}

#[test]
fn test_format_bytes_zero() {
    assert_eq!(format_bytes(0), "0.00 bytes");
}

#[test]
fn test_format_bytes_unit_boundaries() {
    assert_eq!(format_bytes(1023), "1023.00 bytes");
    assert_eq!(format_bytes(1024), "1.00 KB");
    assert_eq!(format_bytes(1048575), "1024.00 KB");
    assert_eq!(format_bytes(1048576), "1.00 MB");
    assert_eq!(format_bytes(1073741824), "1.00 GB");
    assert_eq!(format_bytes(1099511627776), "1.00 TB");
    assert_eq!(format_bytes(1125899906842624), "1.00 PB");
}

#[test]
fn test_format_bytes_rounding() {
    // 1536 / 1024 = 1.5 exactly.
    assert_eq!(format_bytes(1536), "1.50 KB");
    // 10085 / 1024 = 9.8486...: rounds up to 9.85.
    assert_eq!(format_bytes(10085), "9.85 KB");
    // 10080 / 1024 = 9.84375: rounds down to 9.84.
    assert_eq!(format_bytes(10080), "9.84 KB");
    // 1152 / 1024 = 1.125: the tie in the hundredths goes to even, downward.
    assert_eq!(format_bytes(1152), "1.12 KB");
    // 1408 / 1024 = 1.375: the tie goes to even, upward.
    assert_eq!(format_bytes(1408), "1.38 KB");
}

#[test]
fn test_format_bytes_stops_at_largest_unit() {
    // Far past a petabyte the index stops advancing and the magnitude grows.
    assert_eq!(format_bytes(u64::MAX), "16384.00 PB");
}
