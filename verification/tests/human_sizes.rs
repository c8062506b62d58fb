use block_benchie::human::human_bytes;

/// The same size by way of floating point.
fn by_floats(bytes: u64) -> String {
    let units = ["B", "KiB", "MiB", "GiB", "TiB", "PiB"];
    let mut value = bytes as f64;
    let mut unit = units[0];
    for next_unit in units.iter().skip(1) {
        if value < 1024.0 {
            break;
        }
        value /= 1024.0;
        unit = next_unit;
    }
    if unit == "B" {
        format!("{bytes} {unit}")
    } else {
        format!("{value:.2} {unit}")
    }
}

#[test]
fn bytes_below_one_kib_are_whole() {
    assert_eq!(human_bytes(0), "0 B");
    assert_eq!(human_bytes(7), "7 B");
    assert_eq!(human_bytes(1023), "1023 B");
}

#[test]
fn each_unit_begins_at_its_power_of_1024() {
    assert_eq!(human_bytes(1024), "1.00 KiB");
    assert_eq!(human_bytes(1024 * 1024 - 1), "1024.00 KiB");
    assert_eq!(human_bytes(1024 * 1024), "1.00 MiB");
    assert_eq!(human_bytes(1 << 30), "1.00 GiB");
    assert_eq!(human_bytes(1 << 40), "1.00 TiB");
    assert_eq!(human_bytes(1 << 50), "1.00 PiB");
    assert_eq!(human_bytes(u64::MAX), "16384.00 PiB");
}

#[test]
fn ties_go_to_the_even_hundredth() {
    assert_eq!(human_bytes(1152), "1.12 KiB");
    assert_eq!(human_bytes(1408), "1.38 KiB");
    assert_eq!(human_bytes(1153), "1.13 KiB");
}

#[test]
fn leading_zeros_of_the_fraction_are_kept() {
    assert_eq!(human_bytes(1024 + 51), "1.05 KiB");
    assert_eq!(human_bytes(976_562_500), "931.32 MiB");
    assert_eq!(human_bytes(200 * 1024 * 1024), "200.00 MiB");
}

#[test]
fn agrees_with_double_precision() {
    let mut n: u64 = 1;
    for step in 0..4000_u64 {
        n = n.wrapping_mul(6364136223846793005).wrapping_add(1442695040888963407 + step);
        let bytes = n >> (step % 64);
        assert_eq!(human_bytes(bytes), by_floats(bytes), "{bytes}");
    }
    for power in 0..64_u32 {
        let base = 1_u64 << power;
        for bytes in [base - 1, base, base + 1, base + base / 8, base + base / 8 + 1] {
            assert_eq!(human_bytes(bytes), by_floats(bytes), "{bytes}");
        }
    }
}

#[test]
fn agrees_where_large_sizes_have_no_exact_double() {
    for odd in 64..128_u64 {
        let tie = (2 * odd + 1) << 47;
        for away in [0, 1, 2, 3, 1023, 1024, 1025] {
            for bytes in [tie - away, tie + away] {
                assert_eq!(human_bytes(bytes), by_floats(bytes), "{bytes}");
            }
        }
    }
}
