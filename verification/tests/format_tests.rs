use process_tracker::format::pretty_bytes;

#[test]
fn pretty_bytes_under_one_kilobyte() {
    assert_eq!(pretty_bytes(0), "0 B");
    assert_eq!(pretty_bytes(512), "512 B");
    assert_eq!(pretty_bytes(1023), "1023 B");
}

#[test]
fn pretty_bytes_kilobytes() {
    assert_eq!(pretty_bytes(1024), "1.00 KB");
    assert_eq!(pretty_bytes(1536), "1.50 KB");
    assert_eq!(pretty_bytes(10 * 1024 + 256), "10.25 KB");
}

#[test]
fn pretty_bytes_megabytes_and_gigabytes() {
    assert_eq!(pretty_bytes(1024 * 1024), "1.00 MB");
    assert_eq!(pretty_bytes(5 * 1024 * 1024 + 512 * 1024), "5.50 MB");
    assert_eq!(pretty_bytes(3 * 1024 * 1024 * 1024), "3.00 GB");
}

#[test]
fn pretty_bytes_rounds_half_up() {
    assert_eq!(pretty_bytes(1024 + 5), "1.00 KB");
    assert_eq!(pretty_bytes(1024 + 6), "1.01 KB");
    assert_eq!(pretty_bytes(2047), "2.00 KB");
}
