use bucket_size::size_format::{bytes_to_human_readable_string, FormatError};

fn show(b: i64) -> String {
    bytes_to_human_readable_string(b).unwrap()
}

#[test]
fn zero_is_plain_bytes() {
    assert_eq!(show(0), "0 B");
}

#[test]
fn unit_boundaries() {
    assert_eq!(show(1), "1.00 B");
    assert_eq!(show(1023), "1023.00 B");
    assert_eq!(show(1024), "1.00 KB");
    assert_eq!(show(1536), "1.50 KB");
    assert_eq!(show(1073741824), "1.00 GB");
}

#[test]
fn each_unit_is_reached() {
    assert_eq!(show(1048576), "1.00 MB");
    assert_eq!(show(1099511627776), "1.00 TB");
    assert_eq!(show(1125899906842624), "1.00 PB");
    assert_eq!(show(1125899906842624 * 2048), "2048.00 PB");
}

#[test]
fn largest_count_stays_in_petabytes() {
    assert_eq!(show(i64::MAX), "8192.00 PB");
}

#[test]
fn two_decimals_rounded() {
    assert_eq!(show(600), "600.00 B");
    assert_eq!(show(1025), "1.00 KB");
    assert_eq!(show(1034), "1.01 KB");
    assert_eq!(show(614), "614.00 B");
    assert_eq!(show(604), "604.00 B");
    assert_eq!(show(1048575), "1024.00 KB");
}

#[test]
fn ties_round_to_even() {
    // 1029 / 1024 = 1.0048828125, 1.00 below and 1.01 above: nearest is 1.00.
    assert_eq!(show(1029), "1.00 KB");
    // 1152 / 1024 = 1.125 exactly: a tie, kept at the even 1.12.
    assert_eq!(show(1152), "1.12 KB");
    // 1165 / 1024 = 1.1376953125: rounds up to 1.14.
    assert_eq!(show(1165), "1.14 KB");
}

#[test]
fn ratio_within_unit() {
    for b in [1i64, 5000, 3_000_000, 7_000_000_000, 9_000_000_000_000, 5_000_000_000_000_000] {
        let s = show(b);
        let (value, unit) = s.split_once(' ').unwrap();
        let k = ["B", "KB", "MB", "GB", "TB", "PB"].iter().position(|u| *u == unit).unwrap();
        let exact = b as f64 / 1024f64.powi(k as i32);
        assert!(exact >= 1.0);
        assert!(exact < 1024.0 || k == 5);
        let parsed: f64 = value.parse().unwrap();
        assert!((parsed - exact).abs() <= 0.005 + 1e-9);
        assert_eq!(value.split_once('.').unwrap().1.len(), 2);
    }
}

#[test]
fn negative_is_refused() {
    assert_eq!(bytes_to_human_readable_string(-1), Err(FormatError::NegativeByteCount));
    assert_eq!(bytes_to_human_readable_string(i64::MIN), Err(FormatError::NegativeByteCount));
}
