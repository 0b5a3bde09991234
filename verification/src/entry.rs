//! A drink that was had, with all that is known of it.

use crate::calendar::CalendarDate;
use crate::decimal::Decimal;
use crate::models::{ApproxF32, LiquidVolume, TimePeriod};
use vstd::prelude::*;

verus! {

/// One entry of the log, resolved: when it was had, which drink, how many and how
/// much.
#[derive(Clone, Debug)]
pub struct Entry {
    pub id: i32,
    pub drank_on: CalendarDate,
    pub time: TimePeriod,
    pub context: Vec<String>,
    pub drink_id: i32,
    pub name: String,
    pub min_abv: Option<ApproxF32>,
    pub max_abv: Option<ApproxF32>,
    pub multiplier: Decimal,
    pub min_quantity: ApproxF32,
    pub max_quantity: ApproxF32,
    pub volume: Option<LiquidVolume>,
    pub volume_ml: Option<LiquidVolume>,
}

impl Entry {
    /// Whether the two ends of the ABV are there together or not at all, and the
    /// volume comes with its milliliters.
    pub open spec fn is_consistent(&self) -> bool {
        &&& self.min_abv is Some <==> self.max_abv is Some
        &&& self.volume is Some ==> self.volume_ml is Some
    }

    /// The least ABV that the entry may have had.
    pub open spec fn least_abv(&self) -> Option<Decimal> {
        match self.min_abv {
            Some(abv) => Some(abv.lower_bound()),
            None => None,
        }
    }

    /// The most ABV that the entry may have had.
    pub open spec fn most_abv(&self) -> Option<Decimal> {
        match self.max_abv {
            Some(abv) => Some(abv.upper_bound()),
            None => None,
        }
    }

    /// The least quantity that the entry may stand for.
    #[inline]
    pub fn min_quantity(&self) -> (least: Decimal)
        ensures
            least == self.min_quantity.lower_bound(),
    {
        self.min_quantity.min()
    }

    /// The most quantity that the entry may stand for.
    #[inline]
    pub fn max_quantity(&self) -> (most: Decimal)
        ensures
            most == self.max_quantity.upper_bound(),
    {
        self.max_quantity.max()
    }

    /// Get the min ABV range as a magnitude
    pub fn min_abv(&self) -> (least: Option<Decimal>)
        ensures
            least == self.least_abv(),
    {
        match &self.min_abv {
            Some(abv) => Some(abv.min()),
            None => None,
        }
    }

    /// Get the max ABV range as a magnitude
    pub fn max_abv(&self) -> (most: Option<Decimal>)
        ensures
            most == self.most_abv(),
    {
        match &self.max_abv {
            Some(abv) => Some(abv.max()),
            None => None,
        }
    }

    /// Check if this entry has any ABV information.
    pub fn has_abv(&self) -> (known: bool)
        requires
            self.min_abv is Some <==> self.max_abv is Some,
        ensures
            known == self.min_abv is Some,
            known == self.max_abv is Some,
    {
        self.min_abv.is_some()
    }

    /// Check if this entry has any volume information.
    pub fn has_volume(&self) -> (known: bool)
        ensures
            known == self.volume is Some,
    {
        self.volume.is_some()
    }

    /// Increment the min/max quantity values by one.
    pub fn increment(&mut self)
        ensures
            final(self).min_quantity.num == old(self).min_quantity.num.sum(Decimal::one()),
            final(self).max_quantity.num == old(self).max_quantity.num.sum(Decimal::one()),
            *final(self) == (Entry {
                min_quantity: final(self).min_quantity,
                max_quantity: final(self).max_quantity,
                ..*old(self)
            }),
            final(self).min_quantity.is_approximate == old(self).min_quantity.is_approximate,
            final(self).max_quantity.is_approximate == old(self).max_quantity.is_approximate,
    {
        self.min_quantity.increment();
        self.max_quantity.increment();
    }
}

} // verus!
