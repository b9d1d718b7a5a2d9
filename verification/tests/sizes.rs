use lib::entry::human_readable_size;

/// The size formatting done in floating point, as a reference.
fn float_size(size: u64) -> String {
    let units = ["B", "KB", "MB", "GB", "TB"];
    let mut value = size as f64;
    let mut unit_index = 0;
    while value >= 1024.0 && unit_index < units.len() - 1 {
        value /= 1024.0;
        unit_index += 1;
    }
    if unit_index == 0 {
        format!("{size}{}", units[unit_index])
    } else {
        format!("{value:.1}{}", units[unit_index])
    }
}

#[test]
fn sizes_agree_with_float_formatting_small() {
    for size in 0..300_000u64 {
        assert_eq!(human_readable_size(size), float_size(size), "size {size}");
    }
}

#[test]
fn sizes_agree_with_float_formatting_ties() {
    // Values exactly halfway between two tenths.
    for k in 1..5u32 {
        let unit = 1024u64.pow(k);
        for m in 0..2000u64 {
            let size = unit / 20 * (2 * m + 1);
            assert_eq!(human_readable_size(size), float_size(size), "size {size}");
            let size = (unit / 20) * (2 * m + 1) + 1;
            assert_eq!(human_readable_size(size), float_size(size), "size {size}");
        }
    }
}

#[test]
fn sizes_agree_with_float_formatting_large() {
    let mut x: u64 = 0x9E37_79B9_7F4A_7C15;
    for _ in 0..200_000 {
        x ^= x << 13;
        x ^= x >> 7;
        x ^= x << 17;
        let shift = (x % 64) as u32;
        let size = x >> shift;
        assert_eq!(human_readable_size(size), float_size(size), "size {size}");
    }
    for e in 50..64u32 {
        let base = 1u64 << e;
        for d in 0..4096u64 {
            for size in [base + d, base - d, base.wrapping_add(d * 977)] {
                assert_eq!(human_readable_size(size), float_size(size), "size {size}");
            }
        }
    }
    assert_eq!(human_readable_size(u64::MAX), float_size(u64::MAX));
}

#[test]
fn sizes_tie_rounds_to_even_tenth() {
    // 1280 bytes is exactly 1.25 KB.
    assert_eq!(human_readable_size(1280), "1.2KB");
    // 1.75 KB.
    assert_eq!(human_readable_size(1792), "1.8KB");
}

#[test]
fn sizes_in_terabytes() {
    assert_eq!(human_readable_size(1024u64.pow(4)), "1.0TB");
    assert_eq!(human_readable_size(1024u64.pow(5)), "1024.0TB");
}
