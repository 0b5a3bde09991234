//! A new entry as it is handed in field by field, with its date apart.

use crate::decimal::Decimal;
use crate::import::{
    abv_of_groups, multiplier_of, quantity_of_groups, volume_of_groups, Abv, Drink, QuantityRange,
    VolumeContext, ABV_PATTERN, QUANTITY_PATTERN, VOLUME_PATTERN,
};
use crate::models::TimePeriod;
use crate::text::{lowercase, lowercased, regex_captures, trim, trimmed};
use vstd::prelude::*;
use vstd::string::StringExecFns;

verus! {

/// The fields of a new entry, as they were typed.
pub struct EntryForm {
    pub time_period: String,
    pub quantity: String,
    pub name: String,
    pub abv: Option<String>,
    pub volume: Option<String>,
}

/// An [`EntryForm`] as contracts speak of it.
pub struct EntryFormView {
    pub time_period: Seq<char>,
    pub quantity: Seq<char>,
    pub name: Seq<char>,
    pub abv: Option<Seq<char>>,
    pub volume: Option<Seq<char>>,
}

impl View for EntryForm {
    type V = EntryFormView;

    open spec fn view(&self) -> EntryFormView {
        EntryFormView {
            time_period: self.time_period@,
            quantity: self.quantity@,
            name: self.name@,
            abv: self.abv.deep_view(),
            volume: self.volume.deep_view(),
        }
    }
}

/// The field of a form that was refused.
#[derive(Clone, Copy, Debug, PartialEq, Eq, Structural)]
pub enum FormError {
    InvalidTimePeriod,
    InvalidQuantity,
    InvalidAbv,
    InvalidVolume,
    EmptyName,
}

impl FormError {
    /// What is said to whoever handed the form in.
    pub open spec fn text(self) -> Seq<char> {
        match self {
            FormError::InvalidTimePeriod => "Invalid time period value!"@,
            FormError::InvalidQuantity => "Invalid quantity value!"@,
            FormError::InvalidAbv => "Invalid ABV value!"@,
            FormError::InvalidVolume => "Invalid Volume value!"@,
            FormError::EmptyName => "Entry name can not be empty!"@,
        }
    }

    /// What is said to whoever handed the form in.
    pub fn message(&self) -> (text: String)
        ensures
            text@ == self.text(),
    {
        match self {
            FormError::InvalidTimePeriod => String::from_str("Invalid time period value!"),
            FormError::InvalidQuantity => String::from_str("Invalid quantity value!"),
            FormError::InvalidAbv => String::from_str("Invalid ABV value!"),
            FormError::InvalidVolume => String::from_str("Invalid Volume value!"),
            FormError::EmptyName => String::from_str("Entry name can not be empty!"),
        }
    }
}

/// A form that was read: what to store of the drink and of the entry.
pub struct NewEntry {
    pub time_period: TimePeriod,
    pub quantity: QuantityRange,
    pub abv: Option<Abv>,
    pub volume: Option<VolumeContext>,
    pub name: String,
    pub multiplier: Decimal,
}

/// A [`NewEntry`] as contracts speak of it.
pub struct NewEntryView {
    pub time_period: TimePeriod,
    pub quantity: QuantityRange,
    pub abv: Option<Abv>,
    pub volume: Option<VolumeContext>,
    pub name: Seq<char>,
    pub multiplier: Decimal,
}

impl View for NewEntry {
    type V = NewEntryView;

    open spec fn view(&self) -> NewEntryView {
        NewEntryView {
            time_period: self.time_period,
            quantity: self.quantity,
            abv: self.abv,
            volume: self.volume,
            name: self.name@,
            multiplier: self.multiplier,
        }
    }
}

/// What a form comes to. The fields are read in the order time of day, quantity,
/// ABV, volume and name, and the first that cannot be read refuses the form. The
/// time of day is read in any case of letters, the name is kept as it was typed but
/// for the white space around it, and the multiplier is that of the name in lower
/// case.
pub open spec fn entry_of_form(form: EntryFormView) -> Result<NewEntryView, FormError> {
    match TimePeriod::named(lowercased(form.time_period)) {
        None => Err(FormError::InvalidTimePeriod),
        Some(time_period) => match quantity_of_groups(
            regex_captures(QUANTITY_PATTERN@, form.quantity),
        ) {
            Err(_) => Err(FormError::InvalidQuantity),
            Ok(quantity) => match abv_of_form(form.abv) {
                Err(error) => Err(error),
                Ok(abv) => match volume_of_form(form.volume) {
                    Err(error) => Err(error),
                    Ok(volume) => if trimmed(form.name).len() == 0 {
                        Err(FormError::EmptyName)
                    } else {
                        Ok(
                            NewEntryView {
                                time_period,
                                quantity,
                                abv,
                                volume,
                                name: trimmed(form.name),
                                multiplier: multiplier_of(lowercased(trimmed(form.name))),
                            },
                        )
                    },
                },
            },
        },
    }
}

/// The ABV of a form: none where the field was left out.
pub open spec fn abv_of_form(abv: Option<Seq<char>>) -> Result<Option<Abv>, FormError> {
    match abv {
        None => Ok(None),
        Some(text) => match abv_of_groups(regex_captures(ABV_PATTERN@, text)) {
            Ok(abv) => Ok(abv),
            Err(_) => Err(FormError::InvalidAbv),
        },
    }
}

/// The volume of a form: none where the field was left out.
pub open spec fn volume_of_form(volume: Option<Seq<char>>) -> Result<
    Option<VolumeContext>,
    FormError,
> {
    match volume {
        None => Ok(None),
        Some(text) => match volume_of_groups(regex_captures(VOLUME_PATTERN@, text)) {
            Ok(volume) => Ok(volume),
            Err(_) => Err(FormError::InvalidVolume),
        },
    }
}

/// What a form is turned into.
pub open spec fn form_outcome(parsed: Result<NewEntry, FormError>) -> Result<
    NewEntryView,
    FormError,
> {
    match parsed {
        Ok(entry) => Ok(entry@),
        Err(error) => Err(error),
    }
}

impl EntryForm {
    /// Reads the fields of a form.
    pub fn parse(&self) -> (parsed: Result<NewEntry, FormError>)
        ensures
            form_outcome(parsed) == entry_of_form(self@),
    {
        let time_period = match TimePeriod::from_str(self.time_period.as_str()) {
            Some(time_period) => time_period,
            None => {
                return Err(FormError::InvalidTimePeriod);
            },
        };
        // Attempt to parse the quantity string.
        let quantity = match QuantityRange::from_str(self.quantity.as_str()) {
            Ok(quantity) => quantity,
            Err(_) => {
                return Err(FormError::InvalidQuantity);
            },
        };
        // Now attempt to parse the ABV string.
        let abv = match &self.abv {
            None => None,
            Some(text) => match Abv::from_str(text.as_str()) {
                Ok(abv) => abv,
                Err(_) => {
                    return Err(FormError::InvalidAbv);
                },
            },
        };
        // Parse the volume string.
        let volume = match &self.volume {
            None => None,
            Some(text) => match VolumeContext::from_str(text.as_str()) {
                Ok(volume) => volume,
                Err(_) => {
                    return Err(FormError::InvalidVolume);
                },
            },
        };
        // Finally, normalize the name
        let name = trim(self.name.as_str());
        // Return an error if the name is empty.
        if name.as_str().unicode_len() == 0 {
            return Err(FormError::EmptyName);
        }
        // And attempt to derive a multiplier, if needed.
        let multiplier = Drink::multiplier_for(lowercase(name.as_str()).as_str());
        Ok(NewEntry { time_period, quantity, abv, volume, name, multiplier })
    }
}

/// A form without a name is refused, whatever its other fields hold, unless an
/// earlier field is refused first; and a form that is read has a name.
pub proof fn lemma_read_form_has_a_name(form: EntryFormView)
    ensures
        entry_of_form(form) matches Ok(entry) ==> entry.name.len() > 0 && entry.name == trimmed(
            form.name,
        ),
        trimmed(form.name).len() == 0 ==> entry_of_form(form) is Err,
{
}

} // verus!
