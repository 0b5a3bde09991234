//! The values that a log line is made of.

use crate::decimal::{Decimal, SCALE};
use crate::text::{lowercase, lowercased, same_text};
use vstd::prelude::*;

verus! {

/// The share, in millionths, by which an approximate value may lie off its magnitude.
pub const APPROX_MODIFIER: u64 = 100_000;

/// A magnitude, and whether it is only roughly known.
#[derive(Clone, Copy, Debug, PartialEq, Eq, Structural)]
pub struct ApproxF32 {
    pub num: Decimal,
    pub is_approximate: bool,
}

impl ApproxF32 {
    /// The least that the value may be: the magnitude itself, or for an approximate
    /// value the magnitude less its [`APPROX_MODIFIER`] share.
    pub open spec fn lower_bound(self) -> Decimal {
        if self.is_approximate {
            self.num.product(Decimal { micros: (SCALE - APPROX_MODIFIER) as u64 })
        } else {
            self.num
        }
    }

    /// The most that the value may be: the magnitude itself, or for an approximate
    /// value the magnitude and its [`APPROX_MODIFIER`] share.
    pub open spec fn upper_bound(self) -> Decimal {
        if self.is_approximate {
            self.num.product(Decimal { micros: (SCALE + APPROX_MODIFIER) as u64 })
        } else {
            self.num
        }
    }

    pub fn new(num: Decimal, is_approximate: bool) -> (value: ApproxF32)
        ensures
            value == (ApproxF32 { num, is_approximate }),
    {
        ApproxF32 { num, is_approximate }
    }

    pub fn min(&self) -> (bound: Decimal)
        ensures
            bound == self.lower_bound(),
    {
        if self.is_approximate {
            self.num.times(Decimal::from_micros(SCALE - APPROX_MODIFIER))
        } else {
            self.num
        }
    }

    pub fn max(&self) -> (bound: Decimal)
        ensures
            bound == self.upper_bound(),
    {
        if self.is_approximate {
            self.num.times(Decimal::from_micros(SCALE + APPROX_MODIFIER))
        } else {
            self.num
        }
    }

    /// Increment this value by one.
    pub fn increment(&mut self)
        ensures
            final(self).num == old(self).num.sum(Decimal::one()),
            final(self).is_approximate == old(self).is_approximate,
    {
        self.num = self.num.plus(Decimal::from_micros(SCALE));
    }
}

/// The magnitude of a value lies between its bounds.
pub proof fn lemma_bounds_bracket(value: ApproxF32)
    ensures
        value.lower_bound().micros <= value.num.micros <= value.upper_bound().micros,
        !value.is_approximate ==> value.lower_bound() == value.num && value.upper_bound()
            == value.num,
{
    let n = value.num.micros;
    assert(n * 900_000 / 1_000_000 <= n);
    assert(n * 1_100_000 / 1_000_000 >= n);
}

/// A time of day.
#[derive(Clone, Copy, Debug, PartialEq, Eq, Structural)]
pub enum TimePeriod {
    Morning,
    Afternoon,
    Evening,
    Night,
}

impl TimePeriod {
    /// The word for a time of day.
    pub open spec fn name(self) -> Seq<char> {
        match self {
            TimePeriod::Morning => "morning"@,
            TimePeriod::Afternoon => "afternoon"@,
            TimePeriod::Evening => "evening"@,
            TimePeriod::Night => "night"@,
        }
    }

    /// The time of day that a word in lower case names.
    pub open spec fn named(time: Seq<char>) -> Option<TimePeriod> {
        if time == "morning"@ {
            Some(TimePeriod::Morning)
        } else if time == "afternoon"@ {
            Some(TimePeriod::Afternoon)
        } else if time == "evening"@ {
            Some(TimePeriod::Evening)
        } else if time == "night"@ {
            Some(TimePeriod::Night)
        } else {
            None
        }
    }

    /// Returns whether the given `time` string is a recognized time period, whatever
    /// its case.
    pub fn is_time_string(time: &str) -> (known: bool)
        ensures
            known == Self::named(lowercased(time@)).is_some(),
    {
        Self::from_str(time).is_some()
    }

    /// The time of day that a word names, whatever its case.
    pub fn from_str(time: &str) -> (period: Option<TimePeriod>)
        ensures
            period == Self::named(lowercased(time@)),
    {
        let lower = lowercase(time);
        Self::from_lowercase(lower.as_str())
    }

    /// The time of day that a word in lower case names.
    pub fn from_lowercase(time: &str) -> (period: Option<TimePeriod>)
        ensures
            period == Self::named(time@),
    {
        if same_text(time, "morning") {
            Some(TimePeriod::Morning)
        } else if same_text(time, "afternoon") {
            Some(TimePeriod::Afternoon)
        } else if same_text(time, "evening") {
            Some(TimePeriod::Evening)
        } else if same_text(time, "night") {
            Some(TimePeriod::Night)
        } else {
            None
        }
    }

    pub fn to_str(&self) -> (name: &'static str)
        ensures
            name@ == self.name(),
    {
        match self {
            TimePeriod::Morning => "morning",
            TimePeriod::Afternoon => "afternoon",
            TimePeriod::Evening => "evening",
            TimePeriod::Night => "night",
        }
    }
}

/// Every time of day is found again by its word.
pub proof fn lemma_time_period_round_trip(period: TimePeriod)
    ensures
        TimePeriod::named(period.name()) == Some(period),
{
    reveal_strlit("morning");
    reveal_strlit("afternoon");
    reveal_strlit("evening");
    reveal_strlit("night");
    assert("morning"@.len() == 7);
    assert("afternoon"@.len() == 9);
    assert("evening"@[0] == 'e');
    assert("night"@[0] == 'n');
    assert("morning"@[0] == 'm');
}

/// A unit of volume.
#[derive(Clone, Copy, Debug, PartialEq, Eq, Structural)]
#[allow(non_camel_case_types)]
pub enum VolumeUnit {
    FlOz,
    mL,
    cL,
    L,
}

impl VolumeUnit {
    /// The abbreviation of a unit.
    pub open spec fn name(self) -> Seq<char> {
        match self {
            VolumeUnit::FlOz => "fl oz"@,
            VolumeUnit::mL => "mL"@,
            VolumeUnit::cL => "cL"@,
            VolumeUnit::L => "L"@,
        }
    }

    /// The unit that an abbreviation in lower case names.
    pub open spec fn named(unit: Seq<char>) -> Option<VolumeUnit> {
        if unit == "fl oz"@ || unit == "oz"@ {
            Some(VolumeUnit::FlOz)
        } else if unit == "ml"@ {
            Some(VolumeUnit::mL)
        } else if unit == "cl"@ {
            Some(VolumeUnit::cL)
        } else if unit == "l"@ {
            Some(VolumeUnit::L)
        } else {
            None
        }
    }

    /// The unit that has exactly this abbreviation.
    pub open spec fn abbreviated(name: Seq<char>) -> Option<VolumeUnit> {
        if name == "fl oz"@ {
            Some(VolumeUnit::FlOz)
        } else if name == "mL"@ {
            Some(VolumeUnit::mL)
        } else if name == "cL"@ {
            Some(VolumeUnit::cL)
        } else if name == "L"@ {
            Some(VolumeUnit::L)
        } else {
            None
        }
    }

    /// How many milliliters one of the unit holds.
    pub open spec fn milliliters(self) -> Decimal {
        match self {
            VolumeUnit::FlOz => Decimal { micros: 29_573_500 },
            VolumeUnit::mL => Decimal { micros: 1_000_000 },
            VolumeUnit::cL => Decimal { micros: 10_000_000 },
            VolumeUnit::L => Decimal { micros: 1_000_000_000 },
        }
    }

    /// The unit that an abbreviation names, whatever its case.
    pub fn from_str(unit: &str) -> (found: Option<VolumeUnit>)
        ensures
            found == Self::named(lowercased(unit@)),
    {
        let lower = lowercase(unit);
        Self::from_lowercase(lower.as_str())
    }

    /// The unit that an abbreviation in lower case names.
    pub fn from_lowercase(unit: &str) -> (found: Option<VolumeUnit>)
        ensures
            found == Self::named(unit@),
    {
        if same_text(unit, "fl oz") || same_text(unit, "oz") {
            Some(VolumeUnit::FlOz)
        } else if same_text(unit, "ml") {
            Some(VolumeUnit::mL)
        } else if same_text(unit, "cl") {
            Some(VolumeUnit::cL)
        } else if same_text(unit, "l") {
            Some(VolumeUnit::L)
        } else {
            None
        }
    }

    /// The unit that has exactly this abbreviation, as it is stored.
    pub fn from_name(name: &str) -> (found: Option<VolumeUnit>)
        ensures
            found == Self::abbreviated(name@),
    {
        if same_text(name, "fl oz") {
            Some(VolumeUnit::FlOz)
        } else if same_text(name, "mL") {
            Some(VolumeUnit::mL)
        } else if same_text(name, "cL") {
            Some(VolumeUnit::cL)
        } else if same_text(name, "L") {
            Some(VolumeUnit::L)
        } else {
            None
        }
    }

    pub fn to_str(&self) -> (name: &'static str)
        ensures
            name@ == self.name(),
    {
        match self {
            VolumeUnit::FlOz => "fl oz",
            VolumeUnit::mL => "mL",
            VolumeUnit::cL => "cL",
            VolumeUnit::L => "L",
        }
    }

    /// How many milliliters one of the unit holds.
    pub fn milliliters_per_unit(&self) -> (factor: Decimal)
        ensures
            factor == self.milliliters(),
    {
        match self {
            VolumeUnit::FlOz => Decimal::from_micros(29_573_500),
            VolumeUnit::mL => Decimal::from_micros(1_000_000),
            VolumeUnit::cL => Decimal::from_micros(10_000_000),
            VolumeUnit::L => Decimal::from_micros(1_000_000_000),
        }
    }
}

/// Every unit is found again by its abbreviation.
pub proof fn lemma_volume_unit_round_trip(unit: VolumeUnit)
    ensures
        VolumeUnit::abbreviated(unit.name()) == Some(unit),
{
    reveal_strlit("fl oz");
    reveal_strlit("mL");
    reveal_strlit("cL");
    reveal_strlit("L");
    assert("fl oz"@.len() == 5);
    assert("mL"@.len() == 2);
    assert("cL"@.len() == 2);
    assert("L"@.len() == 1);
    assert("mL"@[0] == 'm');
    assert("cL"@[0] == 'c');
}

/// An amount of liquid in some unit.
#[derive(Clone, Copy, Debug, PartialEq, Eq, Structural)]
pub struct LiquidVolume {
    pub amount: ApproxF32,
    pub unit: VolumeUnit,
}

impl LiquidVolume {
    /// The same volume in milliliters.
    pub open spec fn in_milliliters(self) -> LiquidVolume {
        LiquidVolume {
            amount: ApproxF32 {
                num: self.amount.num.product(self.unit.milliliters()),
                is_approximate: self.amount.is_approximate,
            },
            unit: VolumeUnit::mL,
        }
    }

    pub fn to_ml(&self) -> (ml: LiquidVolume)
        ensures
            ml == self.in_milliliters(),
    {
        LiquidVolume {
            amount: ApproxF32 {
                num: self.amount.num.times(self.unit.milliliters_per_unit()),
                is_approximate: self.amount.is_approximate,
            },
            unit: VolumeUnit::mL,
        }
    }
}

/// A volume in milliliters stays what it is when it is brought to milliliters.
pub proof fn lemma_milliliters_stay(volume: LiquidVolume)
    requires
        volume.unit == VolumeUnit::mL,
    ensures
        volume.in_milliliters() == volume,
{
    let n = volume.amount.num.micros;
    assert(n * 1_000_000 / 1_000_000 == n);
}

} // verus!
