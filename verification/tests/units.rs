use deskctrl::binary64::Binary64;
use deskctrl::data::{
    scale_rate, Amount, DiskInfo, DiskUsage, MemoryUsage, NetworkInfo, NetworkSample, NetworkUnit,
    NetworkUsage, StorageUnit,
};

fn bits(value: f64) -> Binary64 {
    Binary64 {
        bits: value.to_bits(),
    }
}

fn scaled(rate: f64) -> (f64, NetworkUnit) {
    let (value, unit) = scale_rate(bits(rate));
    (f64::from_bits(value.bits), unit)
}

/// The rate and its unit by division of doubles.
fn divided(rate: f64) -> (f64, NetworkUnit) {
    let mut value = rate;
    let mut unit = NetworkUnit::Byte;
    for next in [
        NetworkUnit::Kilobit,
        NetworkUnit::Megabit,
        NetworkUnit::Gigabit,
        NetworkUnit::Terabit,
    ] {
        let factor = f64::from_bits(unit.scale_factor().bits);
        if value > factor {
            value /= factor;
            unit = next;
        } else {
            break;
        }
    }
    (value, unit)
}

#[test]
fn scale_factors_of_network_units() {
    assert_eq!(f64::from_bits(NetworkUnit::Byte.scale_factor().bits), 128.0);
    for unit in [
        NetworkUnit::Kilobit,
        NetworkUnit::Megabit,
        NetworkUnit::Gigabit,
        NetworkUnit::Terabit,
    ] {
        assert_eq!(f64::from_bits(unit.scale_factor().bits), 1024.0);
    }
}

#[test]
fn rates_get_the_unit_that_suits_them() {
    assert_eq!(scaled(0.0), (0.0, NetworkUnit::Byte));
    assert_eq!(scaled(128.0), (128.0, NetworkUnit::Byte));
    assert_eq!(scaled(192.0), (1.5, NetworkUnit::Kilobit));
    assert_eq!(scaled(131072.0), (1024.0, NetworkUnit::Kilobit));
    assert_eq!(scaled(131200.0), (1.0009765625, NetworkUnit::Megabit));
    assert_eq!(scaled(1e9), (1e9 / 134217728.0, NetworkUnit::Gigabit));
    assert_eq!(scaled(1e12), (1e12 / 137438953472.0, NetworkUnit::Terabit));
    assert_eq!(scaled(1e300), (1e300 / 137438953472.0, NetworkUnit::Terabit));
}

#[test]
fn rates_that_are_no_numbers_are_left_alone() {
    let (value, unit) = scaled(f64::NAN);
    assert!(value.is_nan());
    assert_eq!(unit, NetworkUnit::Byte);
    assert_eq!(scaled(f64::INFINITY), (f64::INFINITY, NetworkUnit::Terabit));
    assert_eq!(scaled(-1e9), (-1e9, NetworkUnit::Byte));
    assert_eq!(scaled(f64::NEG_INFINITY), (f64::NEG_INFINITY, NetworkUnit::Byte));
}

#[test]
fn rates_scale_as_doubles_divide() {
    let mut rate = 0.1;
    while rate < 1e16 {
        assert_eq!(scaled(rate), divided(rate));
        rate *= 1.37;
    }
    for power in 0..60 {
        let rate = f64::from(power).exp2();
        assert_eq!(scaled(rate), divided(rate));
        assert_eq!(scaled(rate * 1.0000001), divided(rate * 1.0000001));
    }
}

#[test]
fn a_faster_rate_has_no_smaller_unit() {
    let mut last = NetworkUnit::Byte;
    let mut rate = 1.0;
    while rate < 1e15 {
        let unit = scaled(rate).1;
        assert!(unit >= last);
        last = unit;
        rate *= 3.0;
    }
    assert_eq!(last, NetworkUnit::Terabit);
}

#[test]
fn usage_at_rates() {
    let usage = NetworkUsage::at_rates(bits(192.0), bits(64.0));
    assert_eq!(usage.tx_raw, bits(192.0));
    assert_eq!(usage.rx_raw, bits(64.0));
    assert_eq!(usage.tx, (bits(1.5), NetworkUnit::Kilobit));
    assert_eq!(usage.rx, (bits(64.0), NetworkUnit::Byte));
}

#[test]
fn amounts_get_the_unit_that_suits_them() {
    let unit = |bytes| Amount::of(bytes, StorageUnit::Petabyte);
    assert_eq!(unit(0).unit, StorageUnit::Byte);
    assert_eq!(unit(1024).unit, StorageUnit::Byte);
    assert_eq!(unit(1025).unit, StorageUnit::Kilobyte);
    assert_eq!(unit(1025).unit_size, 1024);
    assert_eq!(unit(1 << 20).unit, StorageUnit::Kilobyte);
    assert_eq!(unit((1 << 20) + 1).unit, StorageUnit::Megabyte);
    assert_eq!(unit(500_000_000_000).unit, StorageUnit::Gigabyte);
    assert_eq!(unit(2_000_000_000_000).unit, StorageUnit::Terabyte);
    assert_eq!(unit(u64::MAX).unit, StorageUnit::Petabyte);
    assert_eq!(unit(u64::MAX).unit_size, 1 << 50);
    assert_eq!(unit(u64::MAX).bytes, u64::MAX);
}

#[test]
fn amounts_stop_at_the_largest_unit() {
    let amount = Amount::of(u64::MAX, StorageUnit::Megabyte);
    assert_eq!(amount.unit, StorageUnit::Megabyte);
    assert_eq!(amount.unit_size, 1 << 20);
    assert_eq!(Amount::of(5000, StorageUnit::Byte).unit, StorageUnit::Byte);
}

#[test]
fn amounts_suit_as_doubles_divide() {
    let units = [
        StorageUnit::Kilobyte,
        StorageUnit::Megabyte,
        StorageUnit::Gigabyte,
        StorageUnit::Terabyte,
        StorageUnit::Petabyte,
    ];
    for shift in 0..64 {
        for bytes in [(1u64 << shift) - 1, 1 << shift, (1 << shift) | 1] {
            let mut value = bytes as f64;
            let mut unit = StorageUnit::Byte;
            for next in units {
                if value > 1024.0 {
                    value /= 1024.0;
                    unit = next;
                } else {
                    break;
                }
            }
            let amount = Amount::of(bytes, StorageUnit::Petabyte);
            assert_eq!(amount.unit, unit);
            assert_eq!(amount.bytes as f64 / amount.unit_size as f64, value);
        }
    }
}

#[test]
fn units_and_memory_have_defaults() {
    assert_eq!(NetworkUnit::default(), NetworkUnit::Byte);
    assert_eq!(StorageUnit::default(), StorageUnit::Byte);
    assert_eq!(
        MemoryUsage::default(),
        MemoryUsage {
            used: (bits(0.0), StorageUnit::Byte),
            total: (bits(0.0), StorageUnit::Byte),
            percent: bits(0.0),
        }
    );
}

#[test]
fn usages_have_defaults() {
    assert_eq!(NetworkUsage::default(), NetworkUsage::at_rates(bits(0.0), bits(0.0)));
    let info = NetworkInfo::default();
    assert_eq!(info.interface, "");
    assert_eq!(info.usage, NetworkUsage::default());
    let disk = DiskInfo::default();
    assert_eq!((disk.name.as_str(), disk.mount_point.as_str()), ("", ""));
    assert!(!disk.removable);
    assert_eq!(disk.usage, DiskUsage::default());
    assert_eq!(disk.usage.used, (bits(0.0), StorageUnit::Byte));
    let sample = NetworkSample::default();
    assert_eq!((sample.rx, sample.tx, sample.time.as_nanos()), (0, 0, 0));
}

#[test]
fn doubles_compare_as_numbers() {
    let values = [
        0.0,
        -0.0,
        1.0,
        -1.0,
        5e-324,
        -5e-324,
        1e300,
        -1e300,
        f64::INFINITY,
        f64::NEG_INFINITY,
        f64::NAN,
        -f64::NAN,
    ];
    for a in values {
        for b in values {
            assert_eq!(bits(a) == bits(b), a == b, "{a} {b}");
            assert_eq!(bits(a).partial_cmp(&bits(b)), a.partial_cmp(&b), "{a} {b}");
        }
    }
}

#[test]
fn usages_compare_as_their_numbers() {
    let nan = NetworkUsage::at_rates(bits(f64::NAN), bits(1.0));
    assert!(nan != nan);
    let zero = MemoryUsage::default();
    let minus = MemoryUsage {
        percent: bits(-0.0),
        ..zero
    };
    assert_eq!(zero, minus);
}
