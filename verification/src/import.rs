//! From the text of a log line to its typed fields.

use crate::calendar::{date_of_text, month_day, CalendarDate, DAY_MONTH_FORMAT, MONTH_DAY_FORMAT};
use crate::decimal::{lemma_text_parses_back, parsed_decimal, pow10, Decimal};
use crate::error::{outcome, outcome_view, Error, Fault};
use crate::models::{ApproxF32, LiquidVolume, TimePeriod, VolumeUnit};
use crate::text::{
    captures, chars_of, contains, has_substring, lowercase, lowercased, regex_captures, same_text,
    string_of, trim, trimmed,
};
use std::collections::HashMap;
use vstd::prelude::*;
use vstd::string::StringExecFns;

verus! {

/// The grammar of a line: an optional date field in round brackets, then the
/// quantity, the name, and optionally the ABV and the volume, with commas between.
pub const LINE_PATTERN: &'static str =
    "(?:\\((?P<date>.*?)\\))?,?(?P<quantity>.*?),(?P<name>.*?)(?:,(?P<abv>.*?)(?:,(?P<volume>.*?))?)?$";

/// The grammar of a date field: optionally a day and a month in either order, then
/// up to two free texts, with commas or semicolons between.
pub const DATE_PATTERN: &'static str =
    r#"^(?P<day>(?:\d{1,2}\s\w{3})|(?:\w{3}\s\d{1,2}))?[,; ]*(?:(?P<context2>[^\r\n;,]*?)[;,]?)?(?:(?P<context1>[^\r\n;,]*?)[;,]?)?$"#;

/// The grammar of a quantity: one number or two with a hyphen between, each
/// optionally marked approximate by a tilde.
pub const QUANTITY_PATTERN: &'static str = r#"(~?\d+(?:\.\d+)?)(?:\s*\-\s*(~?\d+(?:\.\d+)?))?"#;

/// The grammar of an ABV: as a quantity, with a percent sign at the end and
/// optionally one after the first number.
pub const ABV_PATTERN: &'static str =
    r#"(~?\d+(?:\.\d+)?)%?(?:\s*\-\s*(~?\d+(?:\.\d+)?)%?)?%"#;

/// The grammar of a volume: a number, optionally marked approximate by a tilde, and a
/// unit of two letters or more.
pub const VOLUME_PATTERN: &'static str = r#"(?P<volume>~?\d+(?:\.\d+)?)\s*(?P<unit>\w{2,})"#;

/// What the pattern matcher hands back: the text of each group, or nothing at all.
pub type Groups = Vec<Option<String>>;

/// The groups of a match as contracts speak of them.
pub type GroupTexts = Seq<Option<Seq<char>>>;

/// The text of group `i`, where the match has such a group and it took part.
pub open spec fn group(groups: GroupTexts, i: int) -> Option<Seq<char>> {
    if 0 <= i < groups.len() {
        groups[i]
    } else {
        None
    }
}

/// Group `i` without the white space around it.
pub open spec fn field(groups: GroupTexts, i: int) -> Option<Seq<char>> {
    match group(groups, i) {
        Some(text) => Some(trimmed(text)),
        None => None,
    }
}

/// Group `i` without the white space around it, where that leaves anything.
pub open spec fn token(groups: GroupTexts, i: int) -> Option<Seq<char>> {
    match group(groups, i) {
        Some(text) => if trimmed(text).len() == 0 {
            None
        } else {
            Some(trimmed(text))
        },
        None => None,
    }
}

/// The token of group `i` in lower case.
pub open spec fn lower_token(groups: GroupTexts, i: int) -> Option<Seq<char>> {
    match token(groups, i) {
        Some(text) => Some(lowercased(text)),
        None => None,
    }
}

pub(crate) fn field_of(groups: &Groups, i: usize) -> (text: Option<String>)
    ensures
        text.deep_view() == field(groups.deep_view(), i as int),
{
    if i < groups.len() {
        match &groups[i] {
            Some(text) => Some(trim(text.as_str())),
            None => None,
        }
    } else {
        None
    }
}

pub(crate) fn token_of(groups: &Groups, i: usize) -> (text: Option<String>)
    ensures
        text.deep_view() == token(groups.deep_view(), i as int),
{
    match field_of(groups, i) {
        Some(text) => if text.as_str().unicode_len() == 0 {
            None
        } else {
            Some(text)
        },
        None => None,
    }
}

pub(crate) fn lower_token_of(groups: &Groups, i: usize) -> (text: Option<String>)
    ensures
        text.deep_view() == lower_token(groups.deep_view(), i as int),
{
    match token_of(groups, i) {
        Some(text) => Some(lowercase(text.as_str())),
        None => None,
    }
}

/// Represents the components of an entry line
pub struct RawEntry {
    pub date: Option<String>,
    pub quantity: Option<String>,
    pub name: Option<String>,
    pub abv: Option<String>,
    pub volume: Option<String>,
}

/// A [`RawEntry`] as contracts speak of it.
pub struct RawEntryView {
    pub date: Option<Seq<char>>,
    pub quantity: Option<Seq<char>>,
    pub name: Option<Seq<char>>,
    pub abv: Option<Seq<char>>,
    pub volume: Option<Seq<char>>,
}

impl View for RawEntry {
    type V = RawEntryView;

    open spec fn view(&self) -> RawEntryView {
        RawEntryView {
            date: self.date.deep_view(),
            quantity: self.quantity.deep_view(),
            name: self.name.deep_view(),
            abv: self.abv.deep_view(),
            volume: self.volume.deep_view(),
        }
    }
}

/// The fields of a line whose match came to `groups`: each field is its group
/// without the white space around it, and a line without a match is refused.
pub open spec fn entry_of_groups(groups: Option<GroupTexts>) -> Result<RawEntryView, Fault> {
    match groups {
        None => Err(Fault::TokenizeError),
        Some(g) => Ok(
            RawEntryView {
                date: field(g, 1),
                quantity: field(g, 2),
                name: field(g, 3),
                abv: field(g, 4),
                volume: field(g, 5),
            },
        ),
    }
}

impl RawEntry {
    /// Splits a line into its fields.
    pub fn from_line(line: &str) -> (entry: Result<RawEntry, Error>)
        ensures
            outcome_view(entry) == entry_of_groups(regex_captures(LINE_PATTERN@, line@)),
    {
        let groups = captures(LINE_PATTERN, line);
        RawEntry::from_groups(&groups)
    }

    /// The fields of a line, from what the matcher made of it.
    pub fn from_groups(groups: &Option<Groups>) -> (entry: Result<RawEntry, Error>)
        ensures
            outcome_view(entry) == entry_of_groups(groups.deep_view()),
    {
        match groups {
            None => Err(Error::TokenizeError),
            Some(g) => Ok(
                RawEntry {
                    date: field_of(g, 1),
                    quantity: field_of(g, 2),
                    name: field_of(g, 3),
                    abv: field_of(g, 4),
                    volume: field_of(g, 5),
                },
            ),
        }
    }
}

/// `s` without the tildes that it starts with.
pub open spec fn strip_tildes(s: Seq<char>) -> Seq<char>
    decreases s.len(),
{
    if s.len() > 0 && s[0] == '~' {
        strip_tildes(s.skip(1))
    } else {
        s
    }
}

/// Whether a text starts with a tilde, the mark of an approximate value.
pub open spec fn starts_with_tilde(s: Seq<char>) -> bool {
    s.len() > 0 && s[0] == '~'
}

/// The value that a text such as `2`, `1.5` or `~3` writes: whether it is
/// approximate, and its magnitude. `None` where what follows the tildes is no number
/// that can be read and held.
pub open spec fn parsed_value(s: Seq<char>) -> Option<(bool, Decimal)> {
    match parsed_decimal(strip_tildes(s)) {
        Some(num) => Some((starts_with_tilde(s), num)),
        None => None,
    }
}

proof fn lemma_strip_tildes(s: Seq<char>, i: int)
    requires
        0 <= i <= s.len(),
        forall|j: int| 0 <= j < i ==> s[j] == '~',
        i == s.len() || s[i] != '~',
    ensures
        strip_tildes(s) == s.skip(i),
    decreases i,
{
    if i == 0 {
        assert(s.skip(0) =~= s);
    } else {
        lemma_strip_tildes(s.skip(1), i - 1);
        assert(s.skip(1).skip(i - 1) =~= s.skip(i));
    }
}

/// Parse a strings like "2", "1.5", "~3", etc, and tell whether the value is
/// approximate, and what the base numeric value is.
pub fn parse_value(value: &str) -> (parsed: Result<(bool, Decimal), Error>)
    ensures
        outcome(parsed) == match parsed_value(value@) {
            Some(pair) => Ok::<(bool, Decimal), Fault>(pair),
            None => Err(Fault::InvalidNumber),
        },
{
    let chars = chars_of(value);
    let mut i: usize = 0;
    while i < chars.len() && chars[i] == '~'
        invariant
            0 <= i <= chars.len(),
            forall|j: int| 0 <= j < i ==> chars@[j] == '~',
        decreases chars.len() - i,
    {
        i += 1;
    }
    proof {
        lemma_strip_tildes(chars@, i as int);
    }
    let digits = string_of(&chars, i, chars.len());
    match Decimal::parse(digits.as_str()) {
        Some(num) => Ok((i > 0, num)),
        None => Err(Error::InvalidNumber),
    }
}

/// The two ends of a range whose match came to `groups`: the first number is
/// required, and the second is the first again where it is left out.
pub open spec fn bounds_of_groups(groups: GroupTexts, missing: Fault) -> Result<
    (ApproxF32, ApproxF32),
    Fault,
> {
    match token(groups, 1) {
        None => Err(missing),
        Some(first) => match parsed_value(first) {
            None => Err(Fault::InvalidNumber),
            Some(min) => match token(groups, 2) {
                None => Ok(
                    (
                        ApproxF32 { num: min.1, is_approximate: min.0 },
                        ApproxF32 { num: min.1, is_approximate: min.0 },
                    ),
                ),
                Some(second) => match parsed_value(second) {
                    None => Err(Fault::InvalidNumber),
                    Some(max) => Ok(
                        (
                            ApproxF32 { num: min.1, is_approximate: min.0 },
                            ApproxF32 { num: max.1, is_approximate: max.0 },
                        ),
                    ),
                },
            },
        },
    }
}

fn bounds_from_groups(groups: &Groups, missing: Error) -> (bounds: Result<
    (ApproxF32, ApproxF32),
    Error,
>)
    ensures
        outcome(bounds) == bounds_of_groups(groups.deep_view(), missing@),
{
    let first = match token_of(groups, 1) {
        Some(first) => first,
        None => {
            return Err(missing);
        },
    };
    let min = match parse_value(first.as_str()) {
        Ok(min) => min,
        Err(_) => {
            return Err(Error::InvalidNumber);
        },
    };
    let max = match token_of(groups, 2) {
        Some(second) => match parse_value(second.as_str()) {
            Ok(max) => max,
            Err(_) => {
                return Err(Error::InvalidNumber);
            },
        },
        None => min,
    };
    Ok((ApproxF32::new(min.1, min.0), ApproxF32::new(max.1, max.0)))
}

/// A value as it is shown: a tilde where it is approximate, then the magnitude with
/// `places` digits after the point.
pub open spec fn approx_text(value: ApproxF32, places: nat) -> Seq<char> {
    if value.is_approximate {
        seq!['~'] + value.num.text(places)
    } else {
        value.num.text(places)
    }
}

fn write_approx(buf: &mut String, value: &ApproxF32, places: usize)
    requires
        1 <= places <= 6,
    ensures
        final(buf)@ == old(buf)@ + approx_text(*value, places as nat),
{
    let ghost before = buf@;
    if value.is_approximate {
        buf.push('~');
    }
    value.num.write_to(buf, places);
    proof {
        assert(buf@ =~= before + approx_text(*value, places as nat));
    }
}

/// What is read from a value as it is shown with `places` digits after the point:
/// the value with its magnitude rounded to those places.
pub open spec fn shown_value(value: ApproxF32, places: nat) -> ApproxF32 {
    ApproxF32 {
        num: Decimal { micros: (value.num.rounded(places) * pow10((6 - places) as nat)) as u64 },
        is_approximate: value.is_approximate,
    }
}

/// Whether a value can be held after it is rounded to `places` digits after the
/// point.
pub open spec fn can_be_shown(value: ApproxF32, places: nat) -> bool {
    value.num.rounded(places) * pow10((6 - places) as nat) <= u64::MAX
}

/// A value that is shown and read again keeps its mark, and has the magnitude that
/// was shown.
pub proof fn lemma_shown_value_parses_back(value: ApproxF32, places: nat)
    requires
        1 <= places <= 6,
        can_be_shown(value, places),
    ensures
        parsed_value(approx_text(value, places)) == Some(
            (shown_value(value, places).is_approximate, shown_value(value, places).num),
        ),
        approx_text(value, places).len() > 0,
{
    let shown = value.num.text(places);
    lemma_text_parses_back(value.num, places);
    assert(strip_tildes(shown) == shown);
    if value.is_approximate {
        let marked = seq!['~'] + shown;
        assert(marked.skip(1) =~= shown);
        assert(marked[0] == '~');
        assert(strip_tildes(marked) == strip_tildes(shown));
    }
}

/// How many drinks were had: a range, each end exact or approximate.
#[derive(Clone, Copy, Debug, PartialEq, Eq, Structural)]
pub struct QuantityRange {
    pub min: ApproxF32,
    pub max: ApproxF32,
}

/// The quantity whose match came to `groups`: a field without a match holds no
/// quantity.
pub open spec fn quantity_of_groups(groups: Option<GroupTexts>) -> Result<QuantityRange, Fault> {
    match groups {
        None => Err(Fault::MissingQuantity),
        Some(g) => match bounds_of_groups(g, Fault::InvalidNumber) {
            Ok(bounds) => Ok(QuantityRange { min: bounds.0, max: bounds.1 }),
            Err(fault) => Err(fault),
        },
    }
}

/// The quantity of an entry: its quantity field is required.
pub open spec fn quantity_of_field(quantity: Option<Seq<char>>) -> Result<QuantityRange, Fault> {
    match quantity {
        None => Err(Fault::MissingQuantity),
        Some(text) => quantity_of_groups(regex_captures(QUANTITY_PATTERN@, text)),
    }
}

impl QuantityRange {
    /// The quantity as it is shown: two digits after the point, and one number alone
    /// where both ends are the same.
    pub open spec fn text(self) -> Seq<char> {
        if self.min != self.max {
            approx_text(self.min, 2) + seq!['-'] + approx_text(self.max, 2)
        } else {
            approx_text(self.min, 2)
        }
    }

    pub fn from_entry(entry: &RawEntry) -> (quantity: Result<QuantityRange, Error>)
        ensures
            outcome(quantity) == quantity_of_field(entry@.quantity),
    {
        match &entry.quantity {
            Some(text) => Self::from_str(text.as_str()),
            None => Err(Error::MissingQuantity),
        }
    }

    pub fn from_str(quantity: &str) -> (range: Result<QuantityRange, Error>)
        ensures
            outcome(range) == quantity_of_groups(regex_captures(QUANTITY_PATTERN@, quantity@)),
    {
        let groups = captures(QUANTITY_PATTERN, quantity);
        Self::from_groups(&groups)
    }

    /// The quantity, from what the matcher made of the quantity field.
    pub fn from_groups(groups: &Option<Groups>) -> (range: Result<QuantityRange, Error>)
        ensures
            outcome(range) == quantity_of_groups(groups.deep_view()),
    {
        match groups {
            None => Err(Error::MissingQuantity),
            Some(g) => match bounds_from_groups(g, Error::InvalidNumber) {
                Ok(bounds) => Ok(QuantityRange { min: bounds.0, max: bounds.1 }),
                Err(error) => Err(error),
            },
        }
    }

    /// Parse a strings like "2", "1.5", "~3", etc, and tell whether the value is
    /// approximate, and what the base numeric value is.
    pub fn parse_value(value: &str) -> (parsed: Result<(bool, Decimal), Error>)
        ensures
            outcome(parsed) == match parsed_value(value@) {
                Some(pair) => Ok::<(bool, Decimal), Fault>(pair),
                None => Err(Fault::InvalidNumber),
            },
    {
        parse_value(value)
    }

    pub fn print(&self) -> (display: String)
        ensures
            display@ == self.text(),
    {
        let mut display = String::new();
        write_approx(&mut display, &self.min, 2);
        if self.min != self.max {
            display.push('-');
            write_approx(&mut display, &self.max, 2);
        }
        proof {
            assert(display@ =~= self.text());
        }
        display
    }
}

/// A quantity written as one plain number is that number exactly, at both ends.
pub proof fn lemma_single_quantity(groups: GroupTexts, number: Seq<char>)
    requires
        token(groups, 1) == Some(number),
        token(groups, 2) is None,
        !starts_with_tilde(number),
        parsed_decimal(number) is Some,
    ensures
        quantity_of_groups(Some(groups)) == Ok::<QuantityRange, Fault>(
            QuantityRange {
                min: ApproxF32 { num: parsed_decimal(number).unwrap(), is_approximate: false },
                max: ApproxF32 { num: parsed_decimal(number).unwrap(), is_approximate: false },
            },
        ),
{
}

/// In a quantity written as two numbers, each end is approximate exactly where its
/// own number starts with a tilde, and has the magnitude that follows the tildes.
pub proof fn lemma_range_ends_are_independent(
    groups: GroupTexts,
    first: Seq<char>,
    second: Seq<char>,
)
    requires
        token(groups, 1) == Some(first),
        token(groups, 2) == Some(second),
        quantity_of_groups(Some(groups)) is Ok,
    ensures
        ({
            let range = quantity_of_groups(Some(groups))->Ok_0;
            &&& range.min.is_approximate == starts_with_tilde(first)
            &&& range.max.is_approximate == starts_with_tilde(second)
            &&& Some(range.min.num) == parsed_decimal(strip_tildes(first))
            &&& Some(range.max.num) == parsed_decimal(strip_tildes(second))
        }),
{
}

/// A quantity that is shown and read again is the quantity that was shown, once the
/// shown text is split at its hyphen: the first number is the least, the second
/// the most, and one number alone is both.
pub proof fn lemma_shown_quantity_parses_back(range: QuantityRange, groups: GroupTexts)
    requires
        can_be_shown(range.min, 2),
        can_be_shown(range.max, 2),
        token(groups, 1) == Some(approx_text(range.min, 2)),
        token(groups, 2) == if range.min != range.max {
            Some(approx_text(range.max, 2))
        } else {
            None
        },
    ensures
        quantity_of_groups(Some(groups)) == Ok::<QuantityRange, Fault>(
            QuantityRange { min: shown_value(range.min, 2), max: shown_value(range.max, 2) },
        ),
{
    lemma_shown_value_parses_back(range.min, 2);
    lemma_shown_value_parses_back(range.max, 2);
}

/// The alcohol by volume of a drink, in percent: a range, each end exact or
/// approximate. Two are equal where their ends agree to the hundredth.
#[derive(Clone, Copy, Debug)]
pub struct Abv {
    pub min: ApproxF32,
    pub max: ApproxF32,
}

/// Whether two values are the same to the hundredth: what lies below a hundredth is
/// cut off before the magnitudes are compared.
pub open spec fn same_to_hundredth(a: ApproxF32, b: ApproxF32) -> bool {
    a.num.hundredths_of() == b.num.hundredths_of() && a.is_approximate == b.is_approximate
}

fn is_same_to_hundredth(a: &ApproxF32, b: &ApproxF32) -> (same: bool)
    ensures
        same == same_to_hundredth(*a, *b),
{
    a.num.hundredths() == b.num.hundredths() && a.is_approximate == b.is_approximate
}

impl Abv {
    /// Whether two ABVs are the same to the hundredth.
    pub open spec fn same_as(self, other: Abv) -> bool {
        same_to_hundredth(self.min, other.min) && same_to_hundredth(self.max, other.max)
    }
}

impl PartialEq for Abv {
    fn eq(&self, other: &Abv) -> (equal: bool) {
        is_same_to_hundredth(&self.min, &other.min) && is_same_to_hundredth(&self.max, &other.max)
    }
}

impl Eq for Abv {

}

impl vstd::std_specs::cmp::PartialEqSpecImpl for Abv {
    open spec fn obeys_eq_spec() -> bool {
        true
    }

    open spec fn eq_spec(&self, other: &Abv) -> bool {
        self.same_as(*other)
    }
}

/// The ABV whose match came to `groups`: a field without a match holds no ABV, and
/// one with a match must hold its first number.
pub open spec fn abv_of_groups(groups: Option<GroupTexts>) -> Result<Option<Abv>, Fault> {
    match groups {
        None => Ok(None),
        Some(g) => match bounds_of_groups(g, Fault::MissingAbv) {
            Ok(bounds) => Ok(Some(Abv { min: bounds.0, max: bounds.1 })),
            Err(fault) => Err(fault),
        },
    }
}

/// The ABV of an entry: none where the entry has no ABV field.
pub open spec fn abv_of_field(abv: Option<Seq<char>>) -> Result<Option<Abv>, Fault> {
    match abv {
        None => Ok(None),
        Some(text) => abv_of_groups(regex_captures(ABV_PATTERN@, text)),
    }
}

impl Abv {
    /// The ABV as it is shown: one digit after the point, one number alone where both
    /// ends are the same, and a percent sign at the end.
    pub open spec fn text(self) -> Seq<char> {
        if self.min != self.max {
            approx_text(self.min, 1) + seq!['-'] + approx_text(self.max, 1) + seq!['%']
        } else {
            approx_text(self.min, 1) + seq!['%']
        }
    }

    pub fn from_entry(entry: &RawEntry) -> (abv: Result<Option<Abv>, Error>)
        ensures
            outcome(abv) == abv_of_field(entry@.abv),
    {
        match &entry.abv {
            Some(text) => Self::from_str(text.as_str()),
            None => Ok(None),
        }
    }

    pub fn from_str(abv: &str) -> (range: Result<Option<Abv>, Error>)
        ensures
            outcome(range) == abv_of_groups(regex_captures(ABV_PATTERN@, abv@)),
    {
        let groups = captures(ABV_PATTERN, abv);
        Self::from_groups(&groups)
    }

    /// The ABV, from what the matcher made of the ABV field.
    pub fn from_groups(groups: &Option<Groups>) -> (range: Result<Option<Abv>, Error>)
        ensures
            outcome(range) == abv_of_groups(groups.deep_view()),
    {
        match groups {
            None => Ok(None),
            Some(g) => match bounds_from_groups(g, Error::MissingAbv) {
                Ok(bounds) => Ok(Some(Abv { min: bounds.0, max: bounds.1 })),
                Err(error) => Err(error),
            },
        }
    }

    /// Parse a strings like "2", "1.5", "~3", etc, and tell whether the value is
    /// approximate, and what the base numeric value is.
    pub fn parse_value(value: &str) -> (parsed: Result<(bool, Decimal), Error>)
        ensures
            outcome(parsed) == match parsed_value(value@) {
                Some(pair) => Ok::<(bool, Decimal), Fault>(pair),
                None => Err(Fault::InvalidNumber),
            },
    {
        parse_value(value)
    }

    pub fn print(&self) -> (display: String)
        ensures
            display@ == self.text(),
    {
        let mut display = String::new();
        write_approx(&mut display, &self.min, 1);
        if self.min != self.max {
            display.push('-');
            write_approx(&mut display, &self.max, 1);
        }
        display.push('%');
        proof {
            assert(display@ =~= self.text());
        }
        display
    }
}

/// Two ABVs whose ends fall in the same hundredths are equal, whatever lies below
/// the hundredth.
pub proof fn lemma_abv_equal_within_hundredth(a: Abv, b: Abv)
    requires
        a.min.is_approximate == b.min.is_approximate,
        a.max.is_approximate == b.max.is_approximate,
        a.min.num.micros / 10_000 == b.min.num.micros / 10_000,
        a.max.num.micros / 10_000 == b.max.num.micros / 10_000,
    ensures
        a.same_as(b),
{
}

/// Equality of ABVs is an equivalence.
pub proof fn lemma_abv_equality_is_equivalence(a: Abv, b: Abv, c: Abv)
    ensures
        a.same_as(a),
        a.same_as(b) ==> b.same_as(a),
        a.same_as(b) && b.same_as(c) ==> a.same_as(c),
{
}

/// A volume as it was written, and the same volume in milliliters.
#[derive(Clone, Copy, Debug, PartialEq, Eq, Structural)]
pub struct VolumeContext {
    pub volume: LiquidVolume,
    pub volume_ml: LiquidVolume,
}

/// The volume that an amount and a unit write. There is no volume without an amount
/// or without a unit. The amount must be a number that can be read and held, and
/// the unit, once in lower case, must be a known abbreviation: a unit that is not
/// is refused, and the error carries the unit as it was handed in. The volume is
/// kept in the unit it was written in, and beside it in milliliters.
pub open spec fn volume_of_tokens(
    amount: Option<Seq<char>>,
    unit: Option<Seq<char>>,
    lowered_unit: Seq<char>,
) -> Result<Option<VolumeContext>, Fault> {
    match (amount, unit) {
        (Some(amount), Some(unit)) => match parsed_value(amount) {
            None => Err(Fault::InvalidNumber),
            Some(value) => match VolumeUnit::named(lowered_unit) {
                None => Err(Fault::UnknownVolumeUnit(unit)),
                Some(known) => {
                    let volume = LiquidVolume {
                        amount: ApproxF32 { num: value.1, is_approximate: value.0 },
                        unit: known,
                    };
                    Ok(Some(VolumeContext { volume, volume_ml: volume.in_milliliters() }))
                },
            },
        },
        _ => Ok(None),
    }
}

/// A unit token in lower case; no text where there is no token.
pub open spec fn lowered_or_empty(unit: Option<Seq<char>>) -> Seq<char> {
    match unit {
        Some(text) => lowercased(text),
        None => Seq::empty(),
    }
}

/// The volume whose match came to `groups`: a field without a match holds no
/// volume, and one with a match holds the volume that its amount and its unit
/// write, both taken in lower case.
pub open spec fn volume_of_groups(groups: Option<GroupTexts>) -> Result<
    Option<VolumeContext>,
    Fault,
> {
    match groups {
        None => Ok(None),
        Some(g) => volume_of_tokens(
            lower_token(g, 1),
            lower_token(g, 2),
            lowered_or_empty(lower_token(g, 2)),
        ),
    }
}

/// The volume of an entry: none where the entry has no volume field.
pub open spec fn volume_of_field(volume: Option<Seq<char>>) -> Result<
    Option<VolumeContext>,
    Fault,
> {
    match volume {
        None => Ok(None),
        Some(text) => volume_of_groups(regex_captures(VOLUME_PATTERN@, text)),
    }
}

impl VolumeContext {
    /// The volume as it is shown: the amount with two digits after the point, and
    /// the abbreviation of the unit it was written in.
    pub open spec fn text(self) -> Seq<char> {
        approx_text(self.volume.amount, 2) + seq![' '] + self.volume.unit.name()
    }

    pub fn from_entry(entry: &RawEntry) -> (volume: Result<Option<VolumeContext>, Error>)
        ensures
            outcome(volume) == volume_of_field(entry@.volume),
    {
        match &entry.volume {
            Some(text) => Self::from_str(text.as_str()),
            None => Ok(None),
        }
    }

    pub fn from_str(volume: &str) -> (context: Result<Option<VolumeContext>, Error>)
        ensures
            outcome(context) == volume_of_groups(regex_captures(VOLUME_PATTERN@, volume@)),
    {
        let groups = captures(VOLUME_PATTERN, volume);
        Self::from_groups(&groups)
    }

    /// The volume, from what the matcher made of the volume field.
    pub fn from_groups(groups: &Option<Groups>) -> (context: Result<Option<VolumeContext>, Error>)
        ensures
            outcome(context) == volume_of_groups(groups.deep_view()),
    {
        let g = match groups {
            Some(g) => g,
            None => {
                return Ok(None);
            },
        };
        let amount = lower_token_of(g, 1);
        let unit = lower_token_of(g, 2);
        let lowered_unit = match &unit {
            Some(text) => lowercase(text.as_str()),
            None => String::new(),
        };
        Self::from_tokens(amount, unit, lowered_unit.as_str())
    }

    /// The volume that an amount and a unit write: `amount` is the amount as it was
    /// written, `unit` the unit as it is to be named in an error, and `lowered_unit`
    /// that unit in lower case, which is not looked at where there is no unit.
    pub fn from_tokens(amount: Option<String>, unit: Option<String>, lowered_unit: &str) -> (context:
        Result<Option<VolumeContext>, Error>)
        ensures
            outcome(context) == volume_of_tokens(
                amount.deep_view(),
                unit.deep_view(),
                lowered_unit@,
            ),
    {
        match (amount, unit) {
            (Some(amount), Some(unit)) => {
                let value = match parse_value(amount.as_str()) {
                    Ok(value) => value,
                    Err(_) => {
                        return Err(Error::InvalidNumber);
                    },
                };
                let known = match VolumeUnit::from_lowercase(lowered_unit) {
                    Some(known) => known,
                    None => {
                        return Err(Error::UnknownVolumeUnit(unit));
                    },
                };
                let volume = LiquidVolume {
                    amount: ApproxF32::new(value.1, value.0),
                    unit: known,
                };
                Ok(Some(VolumeContext { volume, volume_ml: volume.to_ml() }))
            },
            _ => Ok(None),
        }
    }

    /// Parse a strings like "2", "1.5", "~3", etc, and tell whether the value is
    /// approximate, and what the base numeric value is.
    pub fn parse_value(value: &str) -> (parsed: Result<(bool, Decimal), Error>)
        ensures
            outcome(parsed) == match parsed_value(value@) {
                Some(pair) => Ok::<(bool, Decimal), Fault>(pair),
                None => Err(Fault::InvalidNumber),
            },
    {
        parse_value(value)
    }

    pub fn print(&self) -> (display: String)
        ensures
            display@ == self.text(),
    {
        let mut display = String::new();
        write_approx(&mut display, &self.volume.amount, 2);
        display.push(' ');
        display.append(self.volume.unit.to_str());
        proof {
            assert(display@ =~= self.text());
        }
        display
    }
}

/// A volume that is read is kept in the unit that its abbreviation names, as
/// approximate as its amount was written, and beside it in milliliters.
pub proof fn lemma_volume_is_kept_in_both_units(
    amount: Option<Seq<char>>,
    unit: Option<Seq<char>>,
    lowered_unit: Seq<char>,
)
    requires
        volume_of_tokens(amount, unit, lowered_unit) is Ok,
        volume_of_tokens(amount, unit, lowered_unit)->Ok_0 is Some,
    ensures
        ({
            let context = volume_of_tokens(amount, unit, lowered_unit)->Ok_0->0;
            &&& amount is Some
            &&& parsed_value(amount->0) == Some(
                (context.volume.amount.is_approximate, context.volume.amount.num),
            )
            &&& VolumeUnit::named(lowered_unit) == Some(context.volume.unit)
            &&& context.volume_ml == context.volume.in_milliliters()
            &&& context.volume_ml.unit == VolumeUnit::mL
            &&& context.volume_ml.amount.is_approximate == context.volume.amount.is_approximate
        }),
{
}

/// A drink as the log names it: the key by which drinks are told apart.
#[derive(Clone, Debug)]
pub struct Drink {
    pub name: String,
    pub abv: Option<Abv>,
    pub multiplier: Decimal,
}

/// A [`Drink`] as contracts speak of it.
pub struct DrinkView {
    pub name: Seq<char>,
    pub abv: Option<Abv>,
    pub multiplier: Decimal,
}

impl View for Drink {
    type V = DrinkView;

    open spec fn view(&self) -> DrinkView {
        DrinkView { name: self.name@, abv: self.abv, multiplier: self.multiplier }
    }
}

/// Whether two optional ABVs are both absent, or both present and the same to the
/// hundredth.
pub open spec fn same_abv(a: Option<Abv>, b: Option<Abv>) -> bool {
    match (a, b) {
        (Some(x), Some(y)) => x.same_as(y),
        (None, None) => true,
        _ => false,
    }
}

/// Whether two drinks are one and the same: the names are equal, the ABVs are the
/// same to the hundredth, and so are the multipliers.
pub open spec fn same_identity(a: DrinkView, b: DrinkView) -> bool {
    &&& a.name == b.name
    &&& same_abv(a.abv, b.abv)
    &&& a.multiplier.hundredths_of() == b.multiplier.hundredths_of()
}

impl PartialEq for Drink {
    fn eq(&self, other: &Drink) -> (equal: bool) {
        let abv_equal = match (&self.abv, &other.abv) {
            (Some(x), Some(y)) => x == y,
            (None, None) => true,
            _ => false,
        };
        self.name == other.name && abv_equal && self.multiplier.hundredths()
            == other.multiplier.hundredths()
    }
}

impl Eq for Drink {

}

impl vstd::std_specs::cmp::PartialEqSpecImpl for Drink {
    open spec fn obeys_eq_spec() -> bool {
        true
    }

    open spec fn eq_spec(&self, other: &Drink) -> bool {
        same_identity(self@, other@)
    }
}

/// Being the same drink is an equivalence.
pub proof fn lemma_identity_is_equivalence(a: DrinkView, b: DrinkView, c: DrinkView)
    ensures
        same_identity(a, a),
        same_identity(a, b) ==> same_identity(b, a),
        same_identity(a, b) && same_identity(b, c) ==> same_identity(a, c),
{
}

/// The multiplier of a drink: two where its name holds the word `double`, one
/// otherwise.
pub open spec fn multiplier_of(name: Seq<char>) -> Decimal {
    if has_substring(name, "double"@) {
        Decimal { micros: 2_000_000 }
    } else {
        Decimal { micros: 1_000_000 }
    }
}

/// The drink that an entry names: its name trimmed and in lower case, its ABV, and
/// the multiplier that the name as written stands for.
pub open spec fn drink_of_entry(entry: RawEntryView) -> Result<DrinkView, Fault> {
    match abv_of_field(entry.abv) {
        Err(fault) => Err(fault),
        Ok(abv) => Ok(
            DrinkView {
                name: lowercased(trimmed(entry.name->0)),
                abv,
                multiplier: multiplier_of(entry.name->0),
            },
        ),
    }
}

impl Drink {
    /// The multiplier that a name stands for: two where it holds the word `double`,
    /// one otherwise.
    pub fn multiplier_for(name: &str) -> (multiplier: Decimal)
        ensures
            multiplier == multiplier_of(name@),
    {
        if contains(name, "double") {
            Decimal::from_micros(2_000_000)
        } else {
            Decimal::from_micros(1_000_000)
        }
    }

    pub fn from_entry(entry: &RawEntry) -> (drink: Result<Drink, Error>)
        requires
            entry.name is Some,
        ensures
            outcome_view(drink) == drink_of_entry(entry@),
    {
        let written: &String = entry.name.as_ref().unwrap();
        let multiplier = Self::multiplier_for(written.as_str());
        let name = lowercase(trim(written.as_str()).as_str());
        match Abv::from_entry(entry) {
            Ok(abv) => Ok(Drink { name, abv, multiplier }),
            Err(error) => Err(error),
        }
    }
}

/// What a registry holds, as contracts speak of it: each id with its drink, in the
/// order in which they came.
pub type Registered = Seq<(i32, DrinkView)>;

/// Whether an id is bound in the registry.
pub open spec fn has_id(entries: Registered, id: i32) -> bool {
    exists|k: int| 0 <= k < entries.len() && (#[trigger] entries[k]).0 == id
}

/// Whether a drink is bound in the registry.
pub open spec fn has_drink(entries: Registered, drink: DrinkView) -> bool {
    exists|k: int| 0 <= k < entries.len() && same_identity((#[trigger] entries[k]).1, drink)
}

/// The id that a drink is bound to.
pub open spec fn id_of(entries: Registered, drink: DrinkView) -> Option<i32> {
    if has_drink(entries, drink) {
        let k = choose|k: int| 0 <= k < entries.len() && same_identity((#[trigger] entries[k]).1, drink);
        Some(entries[k].0)
    } else {
        None
    }
}

/// Whether the registry binds every id to one drink and every drink to one id.
pub open spec fn one_to_one(entries: Registered) -> bool {
    forall|i: int, j: int|
        0 <= i < j < entries.len() ==> (#[trigger] entries[i]).0 != (#[trigger] entries[j]).0
            && !same_identity(entries[i].1, entries[j].1)
}

/// The registry after `drink` is bound to `id`: refused where either is bound
/// already.
pub open spec fn inserted(entries: Registered, id: i32, drink: DrinkView) -> Result<
    Registered,
    Fault,
> {
    if has_id(entries, id) || has_drink(entries, drink) {
        Err(Fault::DuplicateRegistryEntry)
    } else {
        Ok(entries.push((id, drink)))
    }
}

/// The drinks met so far, each bound to the id it was given. No id stands for two
/// drinks and no drink has two ids.
pub struct DrinkSet {
    /// The drink of each id.
    drinks: HashMap<i32, Drink>,
    /// The ids, in the order in which they came.
    order: Vec<i32>,
}

impl View for DrinkSet {
    type V = Registered;

    closed spec fn view(&self) -> Registered {
        Seq::new(self.order@.len(), |k: int| (self.order@[k], self.drinks@[self.order@[k]]@))
    }
}

/// Whether the ids in `order` are the ids that `drinks` holds.
spec fn same_ids(drinks: Map<i32, Drink>, order: Seq<i32>) -> bool {
    &&& forall|k: int| 0 <= k < order.len() ==> drinks.contains_key(#[trigger] order[k])
    &&& forall|id: i32| #[trigger] drinks.contains_key(id) ==> order.contains(id)
}

impl DrinkSet {
    #[verifier::type_invariant]
    spec fn well_formed(self) -> bool {
        same_ids(self.drinks@, self.order@) && one_to_one(self@)
    }

    pub fn new() -> (set: DrinkSet)
        ensures
            set@ == Seq::<(i32, DrinkView)>::empty(),
            one_to_one(set@),
    {
        let set = DrinkSet { drinks: HashMap::new(), order: Vec::new() };
        assert(set@ =~= Seq::<(i32, DrinkView)>::empty());
        set
    }

    /// The id that `drink` is bound to, where it is bound.
    #[verifier::loop_isolation(false)]
    pub fn find(&self, drink: &Drink) -> (id: Option<i32>)
        ensures
            id == id_of(self@, drink@),
            one_to_one(self@),
    {
        broadcast use vstd::std_specs::hash::group_hash_axioms;

        proof {
            use_type_invariant(self);
        }
        let mut k: usize = 0;
        while k < self.order.len()
            invariant
                0 <= k <= self.order.len(),
                forall|j: int| 0 <= j < k ==> !same_identity((#[trigger] self@[j]).1, drink@),
            decreases self.order.len() - k,
        {
            let id = self.order[k];
            assert(self.drinks@.contains_key(self.order@[k as int]));
            if let Some(bound) = self.drinks.get(&id) {
                if *bound == *drink {
                    proof {
                        // No other entry is the same drink, so the one that was chosen
                        // is this one.
                        let entries = self@;
                        assert(same_identity(entries[k as int].1, drink@));
                        let c = choose|c: int|
                            0 <= c < entries.len() && same_identity(
                                (#[trigger] entries[c]).1,
                                drink@,
                            );
                        lemma_identity_is_equivalence(entries[c].1, drink@, entries[k as int].1);
                        lemma_identity_is_equivalence(entries[k as int].1, drink@, entries[c].1);
                        assert(c == k);
                    }
                    return Some(id);
                }
            }
            k += 1;
        }
        None
    }

    /// Binds `drink` to `id`, unless either is bound already.
    #[verifier::loop_isolation(false)]
    pub fn insert(&mut self, id: i32, drink: Drink) -> (bound: Result<i32, Error>)
        ensures
            outcome(bound) == match inserted(old(self)@, id, drink@) {
                Ok(_) => Ok::<i32, Fault>(id),
                Err(fault) => Err(fault),
            },
            final(self)@ == match inserted(old(self)@, id, drink@) {
                Ok(entries) => entries,
                Err(_) => old(self)@,
            },
            one_to_one(old(self)@),
            one_to_one(final(self)@),
    {
        broadcast use vstd::std_specs::hash::group_hash_axioms;

        proof {
            use_type_invariant(&*self);
        }
        let ghost before = self@;
        let ghost ids = self.order@;
        if self.drinks.contains_key(&id) {
            proof {
                let k = ids.index_of(id);
                assert(before[k].0 == id);
            }
            return Err(Error::DuplicateRegistryEntry);
        }
        assert(!has_id(before, id)) by {
            if has_id(before, id) {
                let k = choose|k: int| 0 <= k < before.len() && (#[trigger] before[k]).0 == id;
                assert(self.drinks@.contains_key(ids[k]));
            }
        }
        let mut k: usize = 0;
        while k < self.order.len()
            invariant
                0 <= k <= self.order.len(),
                self@ == before,
                forall|j: int| 0 <= j < k ==> !same_identity((#[trigger] before[j]).1, drink@),
            decreases self.order.len() - k,
        {
            let other = self.order[k];
            assert(self.drinks@.contains_key(self.order@[k as int]));
            if let Some(bound) = self.drinks.get(&other) {
                if *bound == drink {
                    proof {
                        assert(same_identity(before[k as int].1, drink@));
                    }
                    return Err(Error::DuplicateRegistryEntry);
                }
            }
            k += 1;
        }
        let ghost view = drink@;
        // The registry is taken out whole and put back whole, so that it is never seen
        // half changed.
        let mut taken = DrinkSet::new();
        core::mem::swap(self, &mut taken);
        let DrinkSet { drinks, order } = taken;
        let mut drinks = drinks;
        let mut order = order;
        let ghost old_drinks = drinks@;
        drinks.insert(id, drink);
        order.push(id);
        proof {
            let after = Seq::new(order@.len(), |k: int| (order@[k], drinks@[order@[k]]@));
            assert forall|k: int| 0 <= k < ids.len() implies #[trigger] after[k] == before[k] by {
                assert(old_drinks.contains_key(ids[k]));
                assert(ids[k] != id);
            }
            assert(after =~= before.push((id, view)));
            assert forall|a: DrinkView, b: DrinkView| same_identity(a, b) implies same_identity(
                b,
                a,
            ) by {
                lemma_identity_is_equivalence(a, b, a);
            }
            assert(one_to_one(after));
            assert(same_ids(drinks@, order@)) by {
                assert forall|other: i32| #[trigger] drinks@.contains_key(other) implies order@.contains(
                    other,
                ) by {
                    if other == id {
                        assert(order@[ids.len() as int] == id);
                    } else {
                        let k = ids.index_of(other);
                        assert(order@[k] == other);
                    }
                }
            }
        }
        *self = DrinkSet { drinks, order };
        assert(self@ =~= before.push((id, view)));
        Ok(id)
    }
}

/// Once a drink is bound, a second binding of the same drink is refused, whatever
/// id it comes with.
pub proof fn lemma_same_drink_twice_is_refused(
    entries: Registered,
    first_id: i32,
    first: DrinkView,
    second_id: i32,
    second: DrinkView,
)
    requires
        inserted(entries, first_id, first) is Ok,
        same_identity(first, second),
    ensures
        inserted(inserted(entries, first_id, first)->Ok_0, second_id, second) is Err,
{
    let after = inserted(entries, first_id, first)->Ok_0;
    assert(after[entries.len() as int] == (first_id, first));
}

/// Once a drink is bound, every drink that is the same is found under its id.
pub proof fn lemma_inserted_is_found(
    entries: Registered,
    id: i32,
    drink: DrinkView,
    sought: DrinkView,
)
    requires
        one_to_one(entries),
        inserted(entries, id, drink) is Ok,
        same_identity(drink, sought),
    ensures
        id_of(inserted(entries, id, drink)->Ok_0, sought) == Some(id),
        one_to_one(inserted(entries, id, drink)->Ok_0),
{
    let after = inserted(entries, id, drink)->Ok_0;
    let last = entries.len() as int;
    assert(after[last] == (id, drink));
    assert forall|i: int, j: int| 0 <= i < j < after.len() implies (#[trigger] after[i]).0 != (
    #[trigger] after[j]).0 && !same_identity(after[i].1, after[j].1) by {
        if j == last {
            assert(after[i] == entries[i]);
            lemma_identity_is_equivalence(entries[i].1, drink, drink);
        } else {
            assert(after[i] == entries[i]);
            assert(after[j] == entries[j]);
        }
    }
    let c = choose|c: int| 0 <= c < after.len() && same_identity((#[trigger] after[c]).1, sought);
    if c != last {
        assert(after[c] == entries[c]);
        lemma_identity_is_equivalence(entries[c].1, sought, drink);
        lemma_identity_is_equivalence(drink, sought, drink);
        assert(same_identity(entries[c].1, drink));
    }
}

/// Two drinks that are found under one id are one and the same drink.
pub proof fn lemma_one_id_one_drink(entries: Registered, a: DrinkView, b: DrinkView)
    requires
        one_to_one(entries),
        id_of(entries, a) is Some,
        id_of(entries, a) == id_of(entries, b),
    ensures
        same_identity(a, b),
{
    let i = choose|k: int| 0 <= k < entries.len() && same_identity((#[trigger] entries[k]).1, a);
    let j = choose|k: int| 0 <= k < entries.len() && same_identity((#[trigger] entries[k]).1, b);
    assert(entries[i].0 == entries[j].0);
    assert(i == j);
    lemma_identity_is_equivalence(entries[i].1, a, b);
    lemma_identity_is_equivalence(a, entries[i].1, b);
}

/// In a registry, the drink that an id is bound to is found under that id, and
/// under no other.
pub proof fn lemma_bound_drink_is_found(entries: Registered, k: int)
    requires
        one_to_one(entries),
        0 <= k < entries.len(),
    ensures
        id_of(entries, entries[k].1) == Some(entries[k].0),
{
    lemma_identity_is_equivalence(entries[k].1, entries[k].1, entries[k].1);
    let c = choose|c: int|
        0 <= c < entries.len() && same_identity((#[trigger] entries[c]).1, entries[k].1);
    assert(c == k);
}

/// A drink that was never bound is not found.
pub proof fn lemma_unbound_is_not_found(entries: Registered, sought: DrinkView)
    requires
        !has_drink(entries, sought),
    ensures
        id_of(entries, sought) is None,
{
}

/// When and in what setting a drink was had.
#[derive(Clone, Debug)]
pub struct DateContext {
    pub date: CalendarDate,
    pub time: TimePeriod,
    pub context: Vec<String>,
}

/// A [`DateContext`] as contracts speak of it.
pub struct DateContextView {
    pub date: CalendarDate,
    pub time: TimePeriod,
    pub context: Seq<Seq<char>>,
}

impl View for DateContext {
    type V = DateContextView;

    open spec fn view(&self) -> DateContextView {
        DateContextView { date: self.date, time: self.time, context: self.context.deep_view() }
    }
}

/// The time of day that a free text in lower case names, where there is a text and
/// it names one.
pub open spec fn time_of(text: Option<Seq<char>>) -> Option<TimePeriod> {
    match text {
        Some(word) => TimePeriod::named(word),
        None => None,
    }
}

/// Whether a free text is the word `brunch`.
pub open spec fn is_brunch(text: Option<Seq<char>>) -> bool {
    text == Some("brunch"@)
}

/// A free text, unless it is the word `brunch`.
pub open spec fn unless_brunch(text: Option<Seq<char>>) -> Option<Seq<char>> {
    if is_brunch(text) {
        None
    } else {
        text
    }
}

/// The free texts that are there, in the order in which they were written.
pub open spec fn tags(first: Option<Seq<char>>, second: Option<Seq<char>>) -> Seq<Seq<char>> {
    match (first, second) {
        (Some(a), Some(b)) => seq![a, b],
        (Some(a), None) => seq![a],
        (None, Some(b)) => seq![b],
        (None, None) => Seq::empty(),
    }
}

/// What a line's date and free texts come to after the line before it. The free
/// texts are taken in lower case, as they come out of the date field.
///
/// A free text that names a time of day gives the time, and two that do are
/// refused. Else the word `brunch` stands for the afternoon. Else the time of the
/// line before stays where the date has stayed, and on a new date it is night.
/// The texts that did not give the time are kept, in the order in which they were
/// written.
pub open spec fn resolved_context(
    previous: DateContextView,
    date: CalendarDate,
    first: Option<Seq<char>>,
    second: Option<Seq<char>>,
) -> Result<DateContextView, Fault> {
    match (time_of(first), time_of(second)) {
        (Some(_), Some(_)) => Err(Fault::InvalidDateContext),
        (Some(time), None) => Ok(DateContextView { date, time, context: tags(None, second) }),
        (None, Some(time)) => Ok(DateContextView { date, time, context: tags(first, None) }),
        (None, None) => if is_brunch(first) || is_brunch(second) {
            Ok(
                DateContextView {
                    date,
                    time: TimePeriod::Afternoon,
                    context: tags(unless_brunch(first), unless_brunch(second)),
                },
            )
        } else {
            Ok(
                DateContextView {
                    date,
                    time: if date == previous.date {
                        previous.time
                    } else {
                        TimePeriod::Night
                    },
                    context: tags(first, second),
                },
            )
        },
    }
}

/// What a date field whose match came to `groups` comes to after the line before
/// it: a day and a month are resolved against the date before, and a field without
/// them keeps that date.
pub open spec fn date_context_of_groups(
    groups: Option<GroupTexts>,
    previous: DateContextView,
) -> Result<DateContextView, Fault> {
    match groups {
        None => Err(Fault::InvalidDateContext),
        Some(g) => {
            let date = match lower_token(g, 1) {
                Some(day) => date_of_text(day, previous.date),
                None => Some(previous.date),
            };
            match date {
                None => Err(Fault::InvalidDateContext),
                Some(date) => resolved_context(
                    previous,
                    date,
                    lower_token(g, 2),
                    lower_token(g, 3),
                ),
            }
        },
    }
}

/// What an entry's date field comes to after the line before it: an entry without
/// the field is of the same date, time and setting.
pub open spec fn date_context_of_field(
    date: Option<Seq<char>>,
    previous: DateContextView,
) -> Result<DateContextView, Fault> {
    match date {
        None => Ok(previous),
        Some(text) => date_context_of_groups(regex_captures(DATE_PATTERN@, text), previous),
    }
}

fn clone_texts(texts: &Vec<String>) -> (copy: Vec<String>)
    ensures
        copy.deep_view() == texts.deep_view(),
{
    let mut copy: Vec<String> = Vec::new();
    let mut i: usize = 0;
    while i < texts.len()
        invariant
            0 <= i <= texts.len(),
            copy.len() == i,
            forall|j: int| 0 <= j < i ==> copy@[j]@ == texts@[j]@,
        decreases texts.len() - i,
    {
        copy.push(texts[i].clone());
        i += 1;
    }
    assert(copy.deep_view() =~= texts.deep_view());
    copy
}

fn tags_of(first: Option<String>, second: Option<String>) -> (kept: Vec<String>)
    ensures
        kept.deep_view() == tags(first.deep_view(), second.deep_view()),
{
    let mut kept: Vec<String> = Vec::new();
    if let Some(a) = first {
        kept.push(a);
    }
    if let Some(b) = second {
        kept.push(b);
    }
    assert(kept.deep_view() =~= tags(first.deep_view(), second.deep_view()));
    kept
}

impl DateContext {
    pub fn from_entry(entry: &RawEntry, previous: &DateContext) -> (context: Result<
        DateContext,
        Error,
    >)
        ensures
            outcome_view(context) == date_context_of_field(entry@.date, previous@),
    {
        match &entry.date {
            None => Ok(
                DateContext {
                    date: previous.date,
                    time: previous.time,
                    context: clone_texts(&previous.context),
                },
            ),
            Some(text) => {
                let groups = captures(DATE_PATTERN, text.as_str());
                Self::from_groups(&groups, previous)
            },
        }
    }

    /// The date, time and setting of a line, from what the matcher made of its date
    /// field.
    pub fn from_groups(groups: &Option<Groups>, previous: &DateContext) -> (context: Result<
        DateContext,
        Error,
    >)
        ensures
            outcome_view(context) == date_context_of_groups(groups.deep_view(), previous@),
    {
        let g = match groups {
            Some(g) => g,
            None => {
                return Err(Error::InvalidDateContext);
            },
        };
        let date = match lower_token_of(g, 1) {
            Some(day) => match Self::parse_date_string(day.as_str(), &previous.date) {
                Ok(date) => date,
                Err(error) => {
                    return Err(error);
                },
            },
            None => previous.date,
        };
        let first = lower_token_of(g, 2);
        let second = lower_token_of(g, 3);
        Self::resolve(previous, date, first, second)
    }

    /// The time and setting of a line of the date `date`, from the free texts of its
    /// date field, in lower case, and the line before it.
    pub fn resolve(
        previous: &DateContext,
        date: CalendarDate,
        first: Option<String>,
        second: Option<String>,
    ) -> (context: Result<DateContext, Error>)
        ensures
            outcome_view(context) == resolved_context(
                previous@,
                date,
                first.deep_view(),
                second.deep_view(),
            ),
    {
        let first_time = match &first {
            Some(word) => TimePeriod::from_lowercase(word.as_str()),
            None => None,
        };
        let second_time = match &second {
            Some(word) => TimePeriod::from_lowercase(word.as_str()),
            None => None,
        };
        match (first_time, second_time) {
            (Some(_), Some(_)) => Err(Error::InvalidDateContext),
            (Some(time), None) => Ok(DateContext { date, time, context: tags_of(None, second) }),
            (None, Some(time)) => Ok(DateContext { date, time, context: tags_of(first, None) }),
            (None, None) => {
                let first_is_brunch = Self::is_brunch_context(&first);
                let second_is_brunch = Self::is_brunch_context(&second);
                if first_is_brunch || second_is_brunch {
                    let kept_first = if first_is_brunch {
                        None
                    } else {
                        first
                    };
                    let kept_second = if second_is_brunch {
                        None
                    } else {
                        second
                    };
                    Ok(
                        DateContext {
                            date,
                            time: TimePeriod::Afternoon,
                            context: tags_of(kept_first, kept_second),
                        },
                    )
                } else {
                    let time = if date == previous.date {
                        previous.time
                    } else {
                        TimePeriod::Night
                    };
                    Ok(DateContext { date, time, context: tags_of(first, second) })
                }
            },
        }
    }

    /// Parse a date string in the format "1 oct" or "feb 21".
    /// Use the `previous` date as context for inferring the proper year.
    pub fn parse_date_string(date: &str, previous: &CalendarDate) -> (parsed: Result<
        CalendarDate,
        Error,
    >)
        ensures
            outcome(parsed) == match date_of_text(date@, *previous) {
                Some(found) => Ok::<CalendarDate, Fault>(found),
                None => Err(Fault::InvalidDateContext),
            },
    {
        let month_and_day = match month_day(date, MONTH_DAY_FORMAT) {
            Some(found) => Some(found),
            None => month_day(date, DAY_MONTH_FORMAT),
        };
        match month_and_day {
            Some((month, day)) => match previous.resolve(month, day) {
                Some(found) => Ok(found),
                None => Err(Error::InvalidDateContext),
            },
            None => Err(Error::InvalidDateContext),
        }
    }

    /// Test if the given time `context` is an `Option` containing "brunch".
    pub fn is_brunch_context(context: &Option<String>) -> (brunch: bool)
        ensures
            brunch == is_brunch(context.deep_view()),
    {
        match context {
            Some(c) => same_text(c.as_str(), "brunch"),
            None => false,
        }
    }
}

/// A resolved line names at most two settings, none of them a time of day, and
/// every one of them a free text of its date field.
pub proof fn lemma_context_holds_no_time(
    previous: DateContextView,
    date: CalendarDate,
    first: Option<Seq<char>>,
    second: Option<Seq<char>>,
)
    requires
        resolved_context(previous, date, first, second) is Ok,
    ensures
        ({
            let resolved = resolved_context(previous, date, first, second)->Ok_0;
            &&& resolved.date == date
            &&& resolved.context.len() <= 2
            &&& forall|k: int|
                0 <= k < resolved.context.len() ==> {
                    &&& TimePeriod::named(#[trigger] resolved.context[k]) is None
                    &&& first == Some(resolved.context[k]) || second == Some(resolved.context[k])
                }
        }),
{
}

/// Two free texts that both name a time of day are refused, and nothing else is.
pub proof fn lemma_two_times_are_refused(
    previous: DateContextView,
    date: CalendarDate,
    first: Option<Seq<char>>,
    second: Option<Seq<char>>,
)
    ensures
        resolved_context(previous, date, first, second) is Err <==> time_of(first) is Some
            && time_of(second) is Some,
{
}

/// A line that says nothing of the time keeps the time of the line before it while
/// the date stays, and falls to the night when the date moves on.
pub proof fn lemma_time_is_carried(
    previous: DateContextView,
    date: CalendarDate,
    first: Option<Seq<char>>,
    second: Option<Seq<char>>,
)
    requires
        time_of(first) is None,
        time_of(second) is None,
        !is_brunch(first),
        !is_brunch(second),
    ensures
        resolved_context(previous, date, first, second) is Ok,
        resolved_context(previous, date, first, second)->Ok_0.time == if date == previous.date {
            previous.time
        } else {
            TimePeriod::Night
        },
{
}

/// A line that follows one of a day that the calendar has is of such a day too.
pub proof fn lemma_resolved_date_is_valid(date: Option<Seq<char>>, previous: DateContextView)
    requires
        previous.date.is_valid(),
        date_context_of_field(date, previous) is Ok,
    ensures
        date_context_of_field(date, previous)->Ok_0.date.is_valid(),
{
}

/// The log never goes back in time: no line is of an earlier date than the line
/// before it.
pub proof fn lemma_dates_never_go_back(date: Option<Seq<char>>, previous: DateContextView)
    requires
        date_context_of_field(date, previous) is Ok,
    ensures
        !date_context_of_field(date, previous)->Ok_0.date.is_before(previous.date),
{
}

/// A line without a date field is of the date, the time and the setting of the
/// line before it.
pub proof fn lemma_absent_date_carries_forward(previous: DateContextView)
    ensures
        date_context_of_field(None, previous) == Ok::<DateContextView, Fault>(previous),
{
}

/// All that one line of the log says.
pub struct ParsedLine {
    pub date: DateContext,
    pub drink: Drink,
    pub quantity: QuantityRange,
    pub volume: Option<VolumeContext>,
}

/// A [`ParsedLine`] as contracts speak of it.
pub struct ParsedLineView {
    pub date: DateContextView,
    pub drink: DrinkView,
    pub quantity: QuantityRange,
    pub volume: Option<VolumeContext>,
}

impl View for ParsedLine {
    type V = ParsedLineView;

    open spec fn view(&self) -> ParsedLineView {
        ParsedLineView {
            date: self.date@,
            drink: self.drink@,
            quantity: self.quantity,
            volume: self.volume,
        }
    }
}

/// What the fields of a line come to after the line before it. The date field is
/// resolved first, then the drink, the quantity and the volume; the first of them
/// that is refused refuses the line, and so does a line without a name.
pub open spec fn line_of_entry(entry: RawEntryView, previous: DateContextView) -> Result<
    ParsedLineView,
    Fault,
> {
    match date_context_of_field(entry.date, previous) {
        Err(fault) => Err(fault),
        Ok(date) => if entry.name is None {
            Err(Fault::TokenizeError)
        } else {
            match drink_of_entry(entry) {
                Err(fault) => Err(fault),
                Ok(drink) => match quantity_of_field(entry.quantity) {
                    Err(fault) => Err(fault),
                    Ok(quantity) => match volume_of_field(entry.volume) {
                        Err(fault) => Err(fault),
                        Ok(volume) => Ok(ParsedLineView { date, drink, quantity, volume }),
                    },
                },
            }
        },
    }
}

/// What a line comes to after the line before it.
pub open spec fn line_of_text(line: Seq<char>, previous: DateContextView) -> Result<
    ParsedLineView,
    Fault,
> {
    match entry_of_groups(regex_captures(LINE_PATTERN@, line)) {
        Err(fault) => Err(fault),
        Ok(entry) => line_of_entry(entry, previous),
    }
}

impl ParsedLine {
    /// Reads one line of the log, given what the line before it came to.
    pub fn from_line(line: &str, previous: &DateContext) -> (parsed: Result<ParsedLine, Error>)
        ensures
            outcome_view(parsed) == line_of_text(line@, previous@),
    {
        match RawEntry::from_line(line) {
            Ok(entry) => Self::from_entry(&entry, previous),
            Err(error) => Err(error),
        }
    }

    /// Reads the fields of one line of the log, given what the line before it came
    /// to.
    pub fn from_entry(entry: &RawEntry, previous: &DateContext) -> (parsed: Result<
        ParsedLine,
        Error,
    >)
        ensures
            outcome_view(parsed) == line_of_entry(entry@, previous@),
    {
        let date = match DateContext::from_entry(entry, previous) {
            Ok(date) => date,
            Err(error) => {
                return Err(error);
            },
        };
        if entry.name.is_none() {
            return Err(Error::TokenizeError);
        }
        let drink = match Drink::from_entry(entry) {
            Ok(drink) => drink,
            Err(error) => {
                return Err(error);
            },
        };
        let quantity = match QuantityRange::from_entry(entry) {
            Ok(quantity) => quantity,
            Err(error) => {
                return Err(error);
            },
        };
        let volume = match VolumeContext::from_entry(entry) {
            Ok(volume) => volume,
            Err(error) => {
                return Err(error);
            },
        };
        Ok(ParsedLine { date, drink, quantity, volume })
    }
}

/// A line that is read has come through every field: its date is what the date
/// field resolves to, and its drink, quantity and volume are those of its fields.
pub proof fn lemma_line_is_made_of_its_fields(entry: RawEntryView, previous: DateContextView)
    requires
        line_of_entry(entry, previous) is Ok,
    ensures
        ({
            let line = line_of_entry(entry, previous)->Ok_0;
            &&& entry.name is Some
            &&& date_context_of_field(entry.date, previous) == Ok::<DateContextView, Fault>(
                line.date,
            )
            &&& drink_of_entry(entry) == Ok::<DrinkView, Fault>(line.drink)
            &&& quantity_of_field(entry.quantity) == Ok::<QuantityRange, Fault>(line.quantity)
            &&& volume_of_field(entry.volume) == Ok::<Option<VolumeContext>, Fault>(line.volume)
        }),
{
}

} // verus!
