//! What is measured, and the units in which it is shown.
use crate::binary64::Binary64;
use std::time::Duration;
use vstd::prelude::*;

verus! {

/// What one interface received and sent while one sample was taken.
#[derive(Copy, Clone, PartialEq, Eq, PartialOrd, Ord, Hash, Debug, Default)]
pub struct NetworkSample {
    pub rx: u64,
    pub tx: u64,
    pub time: Duration,
}

/// The usage of one interface, with its name.
#[derive(Clone, PartialEq, PartialOrd, Debug)]
pub struct NetworkInfo {
    pub interface: String,
    pub usage: NetworkUsage,
}

/// How fast an interface sends and receives: each rate in bytes for each second, and once more in
/// the unit that suits it.
#[derive(Copy, Clone, PartialEq, PartialOrd, Debug)]
pub struct NetworkUsage {
    pub tx: (Binary64, NetworkUnit),
    pub tx_raw: Binary64,
    pub rx: (Binary64, NetworkUnit),
    pub rx_raw: Binary64,
}

/// A mounted disk.
#[derive(PartialEq, PartialOrd, Debug)]
pub struct DiskInfo {
    pub name: String,
    pub mount_point: String,
    pub removable: bool,
    pub usage: DiskUsage,
}

/// How full a disk is.
#[derive(Copy, Clone, PartialEq, PartialOrd, Debug)]
pub struct DiskUsage {
    pub used: (Binary64, StorageUnit),
    pub total: (Binary64, StorageUnit),
    pub percent: Binary64,
}

/// How full the memory is.
#[derive(Copy, Clone, PartialEq, PartialOrd, Debug)]
pub struct MemoryUsage {
    pub used: (Binary64, StorageUnit),
    pub total: (Binary64, StorageUnit),
    pub percent: Binary64,
}

/// The units of a transfer rate.
#[derive(Copy, Clone, PartialEq, Eq, Structural, PartialOrd, Ord, Hash, Debug)]
pub enum NetworkUnit {
    Byte,
    Kilobit,
    Megabit,
    Gigabit,
    Terabit,
}

/// The units of an amount of storage.
#[derive(Copy, Clone, PartialEq, Eq, Structural, PartialOrd, Ord, Hash, Debug)]
pub enum StorageUnit {
    Byte,
    Kilobyte,
    Megabyte,
    Gigabyte,
    Terabyte,
    Petabyte,
}

impl Default for NetworkUnit {
    fn default() -> (unit: Self)
        ensures
            unit == NetworkUnit::Byte,
    {
        NetworkUnit::Byte
    }
}

impl Default for StorageUnit {
    fn default() -> (unit: Self)
        ensures
            unit == StorageUnit::Byte,
    {
        StorageUnit::Byte
    }
}

impl Default for NetworkUsage {
    fn default() -> (usage: Self)
        ensures
            usage == (NetworkUsage {
                tx: (Binary64 { bits: 0 }, NetworkUnit::Byte),
                tx_raw: Binary64 { bits: 0 },
                rx: (Binary64 { bits: 0 }, NetworkUnit::Byte),
                rx_raw: Binary64 { bits: 0 },
            }),
    {
        NetworkUsage {
            tx: (Binary64 { bits: 0 }, NetworkUnit::Byte),
            tx_raw: Binary64 { bits: 0 },
            rx: (Binary64 { bits: 0 }, NetworkUnit::Byte),
            rx_raw: Binary64 { bits: 0 },
        }
    }
}

impl Default for NetworkInfo {
    fn default() -> (info: Self)
        ensures
            info.interface@ == Seq::<char>::empty(),
            info.usage == (NetworkUsage {
                tx: (Binary64 { bits: 0 }, NetworkUnit::Byte),
                tx_raw: Binary64 { bits: 0 },
                rx: (Binary64 { bits: 0 }, NetworkUnit::Byte),
                rx_raw: Binary64 { bits: 0 },
            }),
    {
        NetworkInfo { interface: String::new(), usage: NetworkUsage::default() }
    }
}

impl Default for DiskUsage {
    fn default() -> (usage: Self)
        ensures
            usage == (DiskUsage {
                used: (Binary64 { bits: 0 }, StorageUnit::Byte),
                total: (Binary64 { bits: 0 }, StorageUnit::Byte),
                percent: Binary64 { bits: 0 },
            }),
    {
        DiskUsage {
            used: (Binary64 { bits: 0 }, StorageUnit::Byte),
            total: (Binary64 { bits: 0 }, StorageUnit::Byte),
            percent: Binary64 { bits: 0 },
        }
    }
}

impl Default for DiskInfo {
    fn default() -> (info: Self)
        ensures
            info.name@ == Seq::<char>::empty(),
            info.mount_point@ == Seq::<char>::empty(),
            !info.removable,
            info.usage == (DiskUsage {
                used: (Binary64 { bits: 0 }, StorageUnit::Byte),
                total: (Binary64 { bits: 0 }, StorageUnit::Byte),
                percent: Binary64 { bits: 0 },
            }),
    {
        DiskInfo {
            name: String::new(),
            mount_point: String::new(),
            removable: false,
            usage: DiskUsage::default(),
        }
    }
}

impl Default for MemoryUsage {
    fn default() -> (usage: Self)
        ensures
            usage == (MemoryUsage {
                used: (Binary64 { bits: 0 }, StorageUnit::Byte),
                total: (Binary64 { bits: 0 }, StorageUnit::Byte),
                percent: Binary64 { bits: 0 },
            }),
    {
        MemoryUsage {
            used: (Binary64 { bits: 0 }, StorageUnit::Byte),
            total: (Binary64 { bits: 0 }, StorageUnit::Byte),
            percent: Binary64 { bits: 0 },
        }
    }
}

impl Clone for DiskInfo {
    fn clone(&self) -> (copy: Self)
        ensures
            copy == *self,
    {
        DiskInfo {
            name: self.name.clone(),
            mount_point: self.mount_point.clone(),
            removable: self.removable,
            usage: self.usage,
        }
    }
}

impl NetworkUnit {
    /// The number of bits by which a rate in this unit is smaller than the same rate in bytes.
    pub open spec fn shift(self) -> nat {
        match self {
            NetworkUnit::Byte => 0,
            NetworkUnit::Kilobit => 7,
            NetworkUnit::Megabit => 17,
            NetworkUnit::Gigabit => 27,
            NetworkUnit::Terabit => 37,
        }
    }

    /// The unit for a rate in bytes: the largest one of which it is more than one. What is not a
    /// number is left in bytes.
    pub open spec fn suiting(rate: Binary64) -> NetworkUnit {
        if rate.above(NetworkUnit::Terabit.shift()) {
            NetworkUnit::Terabit
        } else if rate.above(NetworkUnit::Gigabit.shift()) {
            NetworkUnit::Gigabit
        } else if rate.above(NetworkUnit::Megabit.shift()) {
            NetworkUnit::Megabit
        } else if rate.above(NetworkUnit::Kilobit.shift()) {
            NetworkUnit::Kilobit
        } else {
            NetworkUnit::Byte
        }
    }

    fn factor_power(self) -> (power: u64)
        ensures
            power == if self == NetworkUnit::Byte {
                7u64
            } else {
                10u64
            },
    {
        match self {
            NetworkUnit::Byte => 7,
            _ => 10,
        }
    }

    /// How many of this unit make one of the next: 128 bytes are a kilobit, and of the others it
    /// takes 1024.
    pub fn scale_factor(&self) -> (factor: Binary64)
        ensures
            factor.bits == if *self == NetworkUnit::Byte {
                0x4060_0000_0000_0000u64
            } else {
                0x4090_0000_0000_0000u64
            },
            factor.finite(),
            factor.quanta() == vstd::arithmetic::power2::pow2(1074) * if *self
                == NetworkUnit::Byte {
                128nat
            } else {
                1024nat
            },
    {
        let factor = match self {
            NetworkUnit::Byte => Binary64 { bits: 0x4060_0000_0000_0000 },
            _ => Binary64 { bits: 0x4090_0000_0000_0000 },
        };
        proof {
            vstd::arithmetic::power2::lemma2_to64();
            vstd::arithmetic::power2::lemma2_to64_rest();
            let e = (factor.exponent() - 1) as nat;
            vstd::arithmetic::power2::lemma_pow2_adds(52, e);
            vstd::arithmetic::power2::lemma_pow2_adds(1074, 7);
            vstd::arithmetic::power2::lemma_pow2_adds(1074, 10);
        }
        factor
    }

    /// The next larger unit.
    fn next(self) -> (larger: Option<NetworkUnit>)
        ensures
            self == NetworkUnit::Terabit <==> larger is None,
            larger matches Some(unit) ==> {
                &&& unit.shift() == self.shift() + if self == NetworkUnit::Byte {
                    7nat
                } else {
                    10nat
                }
                &&& unit != NetworkUnit::Byte
            },
    {
        match self {
            NetworkUnit::Byte => Some(NetworkUnit::Kilobit),
            NetworkUnit::Kilobit => Some(NetworkUnit::Megabit),
            NetworkUnit::Megabit => Some(NetworkUnit::Gigabit),
            NetworkUnit::Gigabit => Some(NetworkUnit::Terabit),
            NetworkUnit::Terabit => None,
        }
    }
}

/// What a quotient exceeds, the dividend exceeds so much the more.
proof fn lemma_above_quotient(rate: Binary64, quotient: Binary64, shift: nat, power: nat)
    requires
        rate.divides_into(quotient, shift),
    ensures
        quotient.above(power) == rate.above(shift + power),
{
    if rate.finite() {
        let factor = vstd::arithmetic::power2::pow2(shift);
        let bound = vstd::arithmetic::power2::pow2(1074 + power);
        vstd::arithmetic::power2::lemma_pow2_pos(shift);
        vstd::arithmetic::power2::lemma_pow2_adds(1074 + power, shift);
        assert(1074 + power + shift == 1074 + (shift + power));
        let q = quotient.quanta();
        assert((q > bound) == (q * factor > bound * factor)) by (nonlinear_arith)
            requires
                factor > 0,
        ;
    }
}

proof fn lemma_quotient_of_quotient(
    rate: Binary64,
    quotient: Binary64,
    smaller: Binary64,
    shift: nat,
    power: nat,
)
    requires
        rate.divides_into(quotient, shift),
        quotient.divides_into(smaller, power),
    ensures
        rate.divides_into(smaller, shift + power),
{
    if rate.finite() {
        let q = smaller.quanta();
        let a = vstd::arithmetic::power2::pow2(power);
        let b = vstd::arithmetic::power2::pow2(shift);
        vstd::arithmetic::power2::lemma_pow2_adds(shift, power);
        assert(q * a * b == q * (b * a)) by (nonlinear_arith);
    }
}

proof fn lemma_above_less(rate: Binary64, low: nat, high: nat)
    requires
        rate.above(high),
        low <= high,
    ensures
        rate.above(low),
{
    if low < high {
        vstd::arithmetic::power2::lemma_pow2_strictly_increases(1074 + low, 1074 + high);
    }
}

/// Puts a rate in bytes into the unit that suits it.
pub fn scale_rate(rate: Binary64) -> (scaled: (Binary64, NetworkUnit))
    ensures
        scaled.1 == NetworkUnit::suiting(rate),
        rate.divides_into(scaled.0, scaled.1.shift()),
{
    let mut value = rate;
    let mut unit = NetworkUnit::Byte;
    proof {
        vstd::arithmetic::power2::lemma2_to64();
    }
    loop
        invariant_except_break
            rate.divides_into(value, unit.shift()),
            unit != NetworkUnit::Byte ==> rate.above(unit.shift()),
        ensures
            rate.divides_into(value, unit.shift()),
            unit == NetworkUnit::suiting(rate),
        decreases 37 - unit.shift(),
    {
        let power = unit.factor_power();
        proof {
            lemma_above_quotient(rate, value, unit.shift(), power as nat);
            if unit != NetworkUnit::Byte {
                if unit.shift() >= 17 {
                    lemma_above_less(rate, 7, unit.shift());
                }
            }
            if rate.above(37) {
                lemma_above_less(rate, 27, 37);
            }
            if rate.above(27) {
                lemma_above_less(rate, 17, 27);
            }
            if rate.above(17) {
                lemma_above_less(rate, 7, 17);
            }
        }
        match unit.next() {
            Some(larger) => {
                if !value.exceeds(power) {
                    break;
                }
                let smaller = value.scaled_down(power);
                proof {
                    lemma_quotient_of_quotient(rate, value, smaller, unit.shift(), power as nat);
                }
                value = smaller;
                unit = larger;
            },
            None => {
                break;
            },
        }
    }
    (value, unit)
}

impl NetworkUsage {
    /// The usage at two rates in bytes for each second.
    pub fn at_rates(tx_raw: Binary64, rx_raw: Binary64) -> (usage: Self)
        ensures
            usage.tx_raw == tx_raw,
            usage.rx_raw == rx_raw,
            usage.tx.1 == NetworkUnit::suiting(tx_raw),
            usage.rx.1 == NetworkUnit::suiting(rx_raw),
            tx_raw.divides_into(usage.tx.0, usage.tx.1.shift()),
            rx_raw.divides_into(usage.rx.0, usage.rx.1.shift()),
    {
        NetworkUsage { tx: scale_rate(tx_raw), tx_raw, rx: scale_rate(rx_raw), rx_raw }
    }
}

/// The number of bytes that make one of a unit.
pub open spec fn unit_size(unit: StorageUnit) -> nat {
    match unit {
        StorageUnit::Byte => 1,
        StorageUnit::Kilobyte => 1024,
        StorageUnit::Megabyte => 1024 * 1024,
        StorageUnit::Gigabyte => 1024 * 1024 * 1024,
        StorageUnit::Terabyte => 1024 * 1024 * 1024 * 1024,
        StorageUnit::Petabyte => 1024 * 1024 * 1024 * 1024 * 1024,
    }
}

/// An amount of storage and the unit in which it is shown: it is `bytes / unit_size` of them.
#[derive(Copy, Clone, PartialEq, Eq, Structural, Debug)]
pub struct Amount {
    pub bytes: u64,
    pub unit: StorageUnit,
    pub unit_size: u64,
}

impl Amount {
    /// The unit is the largest one, up to `largest`, of which there is more than one; with a single
    /// byte or none it is the byte.
    pub open spec fn suits(self, bytes: u64, largest: StorageUnit) -> bool {
        &&& self.bytes == bytes
        &&& self.unit_size == unit_size(self.unit)
        &&& unit_size(self.unit) <= unit_size(largest)
        &&& self.unit != StorageUnit::Byte ==> bytes > unit_size(self.unit)
        &&& forall|other: StorageUnit|
            unit_size(self.unit) < #[trigger] unit_size(other) <= unit_size(largest) ==> bytes
                <= unit_size(other)
    }

    /// Chooses the unit for an amount. All the sizes are whole numbers that a double holds exactly,
    /// so it is the one that repeated division of a double by 1024 leads to.
    pub fn of(bytes: u64, largest: StorageUnit) -> (amount: Self)
        ensures
            amount.suits(bytes, largest),
    {
        let mut unit = StorageUnit::Byte;
        let mut size: u64 = 1;
        loop
            invariant_except_break
                size == unit_size(unit),
                unit_size(unit) <= unit_size(largest),
                unit != StorageUnit::Byte ==> bytes > size,
            ensures
                (Amount { bytes, unit, unit_size: size }).suits(bytes, largest),
            decreases unit_size(StorageUnit::Petabyte) - size,
        {
            if unit == largest {
                break;
            }
            let next = match unit {
                StorageUnit::Byte => StorageUnit::Kilobyte,
                StorageUnit::Kilobyte => StorageUnit::Megabyte,
                StorageUnit::Megabyte => StorageUnit::Gigabyte,
                StorageUnit::Gigabyte => StorageUnit::Terabyte,
                _ => StorageUnit::Petabyte,
            };
            if bytes <= size * 1024 {
                break;
            }
            size = size * 1024;
            unit = next;
        }
        Amount { bytes, unit, unit_size: size }
    }
}

/// An amount suits one unit only.
pub proof fn law_one_unit_suits(a: Amount, b: Amount, bytes: u64, largest: StorageUnit)
    requires
        a.suits(bytes, largest),
        b.suits(bytes, largest),
    ensures
        a == b,
{
}

/// A faster rate is shown in no smaller unit.
pub proof fn law_larger_rate_has_no_smaller_unit(low: Binary64, high: Binary64)
    requires
        low.finite(),
        high.finite(),
        low.quanta() <= high.quanta(),
    ensures
        NetworkUnit::suiting(low).shift() <= NetworkUnit::suiting(high).shift(),
{
    if high.above(37) {
        lemma_above_less(high, 27, 37);
    }
    if high.above(27) {
        lemma_above_less(high, 17, 27);
    }
    if high.above(17) {
        lemma_above_less(high, 7, 17);
    }
}

/// A rate of up to 128 bytes is shown in bytes, one of up to 1024 kilobits in kilobits, and so on,
/// with terabits for all that is more. Rates are counted in two to the power of -1074. What is not
/// a number from zero on is left in bytes, but infinity, which is in terabits.
pub proof fn law_rate_units_in_detail(rate: Binary64)
    ensures
        ({
            let unit = NetworkUnit::suiting(rate);
            let kilobit = vstd::arithmetic::power2::pow2(1081);
            let megabit = vstd::arithmetic::power2::pow2(1091);
            let gigabit = vstd::arithmetic::power2::pow2(1101);
            let terabit = vstd::arithmetic::power2::pow2(1111);
            &&& rate.bits < 0x7ff0_0000_0000_0000 ==> {
                &&& unit is Byte <==> rate.quanta() <= kilobit
                &&& unit is Kilobit <==> kilobit < rate.quanta() <= megabit
                &&& unit is Megabit <==> megabit < rate.quanta() <= gigabit
                &&& unit is Gigabit <==> gigabit < rate.quanta() <= terabit
                &&& unit is Terabit <==> terabit < rate.quanta()
            }
            &&& rate.bits == 0x7ff0_0000_0000_0000 ==> unit is Terabit
            &&& rate.bits > 0x7ff0_0000_0000_0000 ==> unit is Byte
        }),
{
    vstd::arithmetic::power2::lemma_pow2_strictly_increases(1081, 1091);
    vstd::arithmetic::power2::lemma_pow2_strictly_increases(1091, 1101);
    vstd::arithmetic::power2::lemma_pow2_strictly_increases(1101, 1111);
}

/// A rate is its value in the unit times the bytes of the unit: 128 for a kilobit, and 1024 times
/// as many for each larger unit.
pub proof fn law_rate_values_in_detail(rate: Binary64, value: Binary64)
    requires
        rate.divides_into(value, NetworkUnit::suiting(rate).shift()),
    ensures
        rate.bits >= 0x7ff0_0000_0000_0000 ==> value == rate,
        rate.bits < 0x7ff0_0000_0000_0000 ==> value.bits < 0x7ff0_0000_0000_0000 && rate.quanta()
            == value.quanta() * match NetworkUnit::suiting(rate) {
            NetworkUnit::Byte => 1nat,
            NetworkUnit::Kilobit => 128nat,
            NetworkUnit::Megabit => 131_072nat,
            NetworkUnit::Gigabit => 134_217_728nat,
            NetworkUnit::Terabit => 137_438_953_472nat,
        },
{
    vstd::arithmetic::power2::lemma2_to64();
    vstd::arithmetic::power2::lemma_pow2_adds(32, 5);
}

/// An amount is shown in the largest unit of which there is more than one, but in none larger than
/// the largest that is allowed: a kilobyte is 1024 bytes, and each larger unit 1024 of the one
/// before.
pub proof fn law_amount_units_in_detail(amount: Amount, bytes: u64, largest: StorageUnit)
    requires
        amount.suits(bytes, largest),
    ensures
        amount.bytes == bytes,
        amount.unit_size == match amount.unit {
            StorageUnit::Byte => 1u64,
            StorageUnit::Kilobyte => 0x400u64,
            StorageUnit::Megabyte => 0x10_0000u64,
            StorageUnit::Gigabyte => 0x4000_0000u64,
            StorageUnit::Terabyte => 0x100_0000_0000u64,
            StorageUnit::Petabyte => 0x4_0000_0000_0000u64,
        },
        match largest {
            StorageUnit::Byte => amount.unit_size <= 1,
            StorageUnit::Kilobyte => amount.unit_size <= 0x400,
            StorageUnit::Megabyte => amount.unit_size <= 0x10_0000,
            StorageUnit::Gigabyte => amount.unit_size <= 0x4000_0000,
            StorageUnit::Terabyte => amount.unit_size <= 0x100_0000_0000,
            StorageUnit::Petabyte => amount.unit_size <= 0x4_0000_0000_0000,
        },
        amount.unit_size > 1 ==> bytes > amount.unit_size,
        amount.unit != largest ==> bytes <= 1024 * amount.unit_size,
{
    assert(unit_size(StorageUnit::Kilobyte) == 0x400);
    assert(unit_size(StorageUnit::Megabyte) == 0x10_0000);
    assert(unit_size(StorageUnit::Gigabyte) == 0x4000_0000);
    assert(unit_size(StorageUnit::Terabyte) == 0x100_0000_0000);
    assert(unit_size(StorageUnit::Petabyte) == 0x4_0000_0000_0000);
}

} // verus!
