use turbofind::size::format_size;

#[test]
fn test_format_size() {
    assert_eq!(format_size(500), "500B");
    assert_eq!(format_size(1024), "1K");
    assert_eq!(format_size(2048), "2K");
    assert_eq!(format_size(1048576), "1.0M");
    assert_eq!(format_size(1073741824), "1.0G");
}

fn by_float(bytes: u64) -> String {
    const KB: u64 = 1024;
    const MB: u64 = KB * 1024;
    const GB: u64 = MB * 1024;
    if bytes >= GB {
        format!("{:.1}G", bytes as f64 / GB as f64)
    } else if bytes >= MB {
        format!("{:.1}M", bytes as f64 / MB as f64)
    } else if bytes >= KB {
        format!("{}K", bytes / KB)
    } else {
        format!("{}B", bytes)
    }
}

#[test]
fn sizes_agree_with_floating_point() {
    let mut n: u64 = 1;
    for i in 0..200000u64 {
        n = n.wrapping_mul(6364136223846793005).wrapping_add(1442695040888963407);
        let bytes = n >> (i % 64);
        assert_eq!(format_size(bytes), by_float(bytes), "{}", bytes);
    }
}

#[test]
fn sizes_round_ties_to_even() {
    for unit in [1048576u64, 1073741824] {
        for whole in 1..200u64 {
            for quarter in 0..40u64 {
                let bytes = whole * unit + quarter * (unit / 4) / 10 * 10 + (unit / 4) * (quarter % 4);
                assert_eq!(format_size(bytes), by_float(bytes), "{}", bytes);
            }
        }
    }
    assert_eq!(format_size(1048576 + 262144), "1.2M");
    assert_eq!(format_size(1048576 + 786432), "1.8M");
    assert_eq!(format_size(1073741823), "1024.0M");
}

#[test]
fn the_largest_sizes_agree_too() {
    for k in 0..2000u64 {
        for base in [u64::MAX, 1 << 63, 1 << 53, (1 << 53) + 1, (1 << 60) + 12345] {
            let bytes = base.saturating_sub(k * k * 977);
            assert_eq!(format_size(bytes), by_float(bytes), "{}", bytes);
        }
    }
    assert_eq!(format_size(u64::MAX), "17179869184.0G");
    assert_eq!(format_size(0), "0B");
    assert_eq!(format_size(1023), "1023B");
}
