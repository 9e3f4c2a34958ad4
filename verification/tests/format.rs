//! Tests for human-readable byte formatting.

use encrypted_backup::format::format_bytes;
use encrypted_backup::format::format_size;
use encrypted_backup::format::u64_string;

#[test]
fn test_format_bytes() {
    assert_eq!(format_bytes(0), "0 bytes");
    assert_eq!(format_bytes(1), "1 byte");
    assert_eq!(format_bytes(2), "2 bytes");
    assert_eq!(format_bytes(1_023), "1023 bytes");
    assert_eq!(format_bytes(1_024), "1.00 KiB");
    assert_eq!(format_bytes(1_260), "1.23 KiB");
    assert_eq!(format_bytes(24_013), "23.45 KiB");
    assert_eq!(format_bytes(353_967), "345.67 KiB");
    assert_eq!(format_bytes(1_048_575), "1023.99 KiB");
    assert_eq!(format_bytes(1_048_576), "1.00 MiB");
    assert_eq!(format_bytes(1_289_749), "1.23 MiB");
    assert_eq!(format_bytes(24_589_108), "23.45 MiB");
    assert_eq!(format_bytes(362_461_266), "345.67 MiB");
    assert_eq!(format_bytes(1_073_741_823), "1023.99 MiB");
    assert_eq!(format_bytes(1_073_741_824), "1.00 GiB");
    assert_eq!(format_bytes(1_320_702_444), "1.23 GiB");
    assert_eq!(format_bytes(25_179_245_773), "23.45 GiB");
    assert_eq!(format_bytes(371_160_336_303), "345.67 GiB");
}

#[test]
fn decimal_strings_match_display() {
    for n in [0u64, 1, 9, 10, 99, 100, 12345, u64::MAX] {
        assert_eq!(u64_string(n), format!("{n}"));
    }
}

#[test]
fn coarse_format_size() {
    assert_eq!(format_size(0), "0 bytes");
    assert_eq!(format_size(512), "512 bytes");
    assert_eq!(format_size(1023), "1023 bytes");
    assert_eq!(format_size(1024), "1 KB");
    assert_eq!(format_size(2048), "2 KB");
    assert_eq!(format_size(1048575), "1023 KB");
    assert_eq!(format_size(1048576), "1 MB");
    assert_eq!(format_size(5 << 20), "5 MB");
    assert_eq!(format_size(1 << 30), "1 GB");
    assert_eq!(format_size(700 << 30), "700 GB");
}
