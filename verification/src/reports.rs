//! How many standard drinks an entry stands for, at the least and at the most.

use crate::decimal::{lemma_product_is_monotone, lemma_quotient_is_monotone, Decimal};
use crate::entry::Entry;
use crate::models::{lemma_bounds_bracket, ApproxF32, LiquidVolume};
use vstd::prelude::*;

verus! {

/// How many milliliters of alcohol make one standard drink, in millionths.
pub const ML_PER_DRINK: u64 = 18_000_000;

/// The number by which a percentage is divided, in millionths.
pub const PERCENT: u64 = 100_000_000;

/// The least and the most that an entry may stand for, in standard drinks and in
/// volume drunk.
#[derive(Clone, Copy, Debug, PartialEq, Eq, Structural)]
pub struct DrinkAggregate {
    pub min_drinks: Decimal,
    pub max_drinks: Decimal,
    pub min_volume: Option<LiquidVolume>,
    pub max_volume: Option<LiquidVolume>,
}

/// A volume with another amount, in the same unit and as approximate as it was.
pub open spec fn with_amount(volume: LiquidVolume, num: Decimal) -> LiquidVolume {
    LiquidVolume {
        amount: ApproxF32 { num, is_approximate: volume.amount.is_approximate },
        unit: volume.unit,
    }
}

/// The volume drunk where each drink holds `each`: that amount times the quantity
/// and the multiplier, in the unit of the volume as it was written.
pub open spec fn scaled_volume(
    volume: Option<LiquidVolume>,
    each: Decimal,
    quantity: Decimal,
    multiplier: Decimal,
) -> Option<LiquidVolume> {
    match volume {
        Some(v) => Some(with_amount(v, each.product(quantity).product(multiplier))),
        None => None,
    }
}

/// The standard drinks in `quantity` drinks of `abv` percent and `milliliters` each:
/// the alcohol in them, divided by the alcohol of one standard drink.
pub open spec fn standard_drinks(quantity: Decimal, abv: Decimal, milliliters: Decimal) -> Decimal {
    quantity.product(abv.quotient(Decimal { micros: PERCENT })).product(milliliters).quotient(
        Decimal { micros: ML_PER_DRINK },
    )
}

fn scale_volume(
    volume: &Option<LiquidVolume>,
    each: Decimal,
    quantity: Decimal,
    multiplier: Decimal,
) -> (scaled: Option<LiquidVolume>)
    requires
        volume is Some,
    ensures
        scaled == scaled_volume(*volume, each, quantity, multiplier),
{
    match volume {
        Some(v) => Some(
            LiquidVolume {
                amount: ApproxF32 {
                    num: each.times(quantity).times(multiplier),
                    is_approximate: v.amount.is_approximate,
                },
                unit: v.unit,
            },
        ),
        None => None,
    }
}

pub trait DrinkAggregator {
    /// Whether the value holds what an estimate takes.
    spec fn can_aggregate(&self) -> bool;

    /// The estimate that the value stands for.
    spec fn aggregated(&self) -> DrinkAggregate;

    fn aggregate(&self) -> (total: DrinkAggregate)
        requires
            self.can_aggregate(),
        ensures
            total == self.aggregated(),
    ;
}

impl DrinkAggregator for Entry {
    open spec fn can_aggregate(&self) -> bool {
        self.is_consistent()
    }

    /// Where the ABV or the volume is not known, every drink counts as one standard
    /// drink, times the multiplier. Where both are known, the alcohol is reckoned
    /// from them, the least of each going with the least of the others and the most
    /// with the most.
    open spec fn aggregated(&self) -> DrinkAggregate {
        let least = self.min_quantity.lower_bound();
        let most = self.max_quantity.upper_bound();
        if self.min_abv is None || self.volume is None {
            DrinkAggregate {
                min_drinks: least.product(self.multiplier),
                max_drinks: most.product(self.multiplier),
                min_volume: match self.volume {
                    Some(v) => scaled_volume(self.volume, v.amount.num, least, self.multiplier),
                    None => None,
                },
                max_volume: match self.volume {
                    Some(v) => scaled_volume(self.volume, v.amount.num, most, self.multiplier),
                    None => None,
                },
            }
        } else {
            DrinkAggregate {
                min_drinks: standard_drinks(
                    least,
                    self.min_abv->0.lower_bound(),
                    self.volume_ml->0.amount.lower_bound(),
                ),
                max_drinks: standard_drinks(
                    most,
                    self.max_abv->0.upper_bound(),
                    self.volume_ml->0.amount.upper_bound(),
                ),
                min_volume: scaled_volume(
                    self.volume,
                    self.volume->0.amount.lower_bound(),
                    least,
                    self.multiplier,
                ),
                max_volume: scaled_volume(
                    self.volume,
                    self.volume->0.amount.upper_bound(),
                    most,
                    self.multiplier,
                ),
            }
        }
    }

    fn aggregate(&self) -> (total: DrinkAggregate) {
        let least = self.min_quantity();
        let most = self.max_quantity();
        // If there is no ABV information, then we'll just assume
        // that each "unit" is 1 drink (times the multiplier).
        if !self.has_abv() || !self.has_volume() {
            return DrinkAggregate {
                min_drinks: least.times(self.multiplier),
                max_drinks: most.times(self.multiplier),
                min_volume: match &self.volume {
                    Some(v) => scale_volume(&self.volume, v.amount.num, least, self.multiplier),
                    None => None,
                },
                max_volume: match &self.volume {
                    Some(v) => scale_volume(&self.volume, v.amount.num, most, self.multiplier),
                    None => None,
                },
            };
        }
        let min_abv = self.min_abv().unwrap();
        let max_abv = self.max_abv().unwrap();
        let volume = self.volume.unwrap();
        let volume_ml = self.volume_ml.unwrap();
        let percent = Decimal::from_micros(PERCENT);
        // How many mL of alcohol constitute 1 drink.
        let ml_per_drink = Decimal::from_micros(ML_PER_DRINK);
        DrinkAggregate {
            min_drinks: least.times(min_abv.divided_by(percent)).times(
                volume_ml.amount.min(),
            ).divided_by(ml_per_drink),
            max_drinks: most.times(max_abv.divided_by(percent)).times(
                volume_ml.amount.max(),
            ).divided_by(ml_per_drink),
            min_volume: scale_volume(&self.volume, volume.amount.min(), least, self.multiplier),
            max_volume: scale_volume(&self.volume, volume.amount.max(), most, self.multiplier),
        }
    }
}

/// An entry whose quantity, ABV and volume are exact and of one value has one
/// estimate: the least is the most.
pub proof fn lemma_exact_entry_has_one_estimate(entry: Entry)
    requires
        entry.is_consistent(),
        entry.min_quantity == entry.max_quantity,
        !entry.min_quantity.is_approximate,
        entry.min_abv == entry.max_abv,
        entry.min_abv matches Some(abv) ==> !abv.is_approximate,
        entry.volume matches Some(volume) ==> !volume.amount.is_approximate,
        entry.volume_ml matches Some(volume) ==> !volume.amount.is_approximate,
    ensures
        entry.aggregated().min_drinks == entry.aggregated().max_drinks,
        entry.aggregated().min_volume == entry.aggregated().max_volume,
{
}

/// An entry without ABV or without volume counts every drink as one standard
/// drink, times the multiplier.
pub proof fn lemma_estimate_without_alcohol(entry: Entry)
    requires
        entry.min_abv is None || entry.volume is None,
    ensures
        entry.aggregated().min_drinks == entry.min_quantity.lower_bound().product(
            entry.multiplier,
        ),
        entry.aggregated().max_drinks == entry.max_quantity.upper_bound().product(
            entry.multiplier,
        ),
        entry.aggregated().min_volume is Some <==> entry.volume is Some,
        entry.aggregated().max_volume is Some <==> entry.volume is Some,
{
}

/// The estimate brackets: where the least of quantity and ABV is not above the
/// most, the least of the drinks and of the volume is not above the most.
pub proof fn lemma_estimate_is_ordered(entry: Entry)
    requires
        entry.is_consistent(),
        entry.min_quantity.num.micros <= entry.max_quantity.num.micros,
        entry.min_abv is Some ==> entry.min_abv->0.num.micros <= entry.max_abv->0.num.micros,
    ensures
        entry.aggregated().min_drinks.micros <= entry.aggregated().max_drinks.micros,
        entry.volume is Some ==> entry.aggregated().min_volume->0.amount.num.micros
            <= entry.aggregated().max_volume->0.amount.num.micros,
{
    let least = entry.min_quantity.lower_bound();
    let most = entry.max_quantity.upper_bound();
    lemma_bounds_bracket(entry.min_quantity);
    lemma_bounds_bracket(entry.max_quantity);
    let m = entry.multiplier;
    if entry.min_abv is None || entry.volume is None {
        lemma_product_is_monotone(least, m, most, m);
        if entry.volume is Some {
            let each = entry.volume->0.amount.num;
            lemma_product_is_monotone(each, least, each, most);
            lemma_product_is_monotone(each.product(least), m, each.product(most), m);
        }
    } else {
        let abv_least = entry.min_abv->0.lower_bound();
        let abv_most = entry.max_abv->0.upper_bound();
        lemma_bounds_bracket(entry.min_abv->0);
        lemma_bounds_bracket(entry.max_abv->0);
        let ml = entry.volume_ml->0.amount;
        lemma_bounds_bracket(ml);
        let percent = Decimal { micros: PERCENT };
        let per_drink = Decimal { micros: ML_PER_DRINK };
        lemma_quotient_is_monotone(abv_least, abv_most, percent);
        lemma_product_is_monotone(
            least,
            abv_least.quotient(percent),
            most,
            abv_most.quotient(percent),
        );
        lemma_product_is_monotone(
            least.product(abv_least.quotient(percent)),
            ml.lower_bound(),
            most.product(abv_most.quotient(percent)),
            ml.upper_bound(),
        );
        lemma_quotient_is_monotone(
            least.product(abv_least.quotient(percent)).product(ml.lower_bound()),
            most.product(abv_most.quotient(percent)).product(ml.upper_bound()),
            per_drink,
        );
        let volume = entry.volume->0.amount;
        lemma_bounds_bracket(volume);
        lemma_product_is_monotone(volume.lower_bound(), least, volume.upper_bound(), most);
        lemma_product_is_monotone(
            volume.lower_bound().product(least),
            m,
            volume.upper_bound().product(most),
            m,
        );
    }
}

} // verus!
