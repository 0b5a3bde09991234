//! Calendar dates, and how a day and a month written without a year find their year.

use vstd::prelude::*;

verus! {

/// The first year that a date can lie in. The years are those that
/// `chrono::NaiveDate` holds, so that every date can be handed on as one.
pub const MIN_YEAR: i32 = -262_143;

/// The last year that a date can lie in.
pub const MAX_YEAR: i32 = 262_142;

/// The format of a date written as month and day, such as `oct 1`.
pub const MONTH_DAY_FORMAT: &'static str = "%b %e";

/// The format of a date written as day and month, such as `1 oct`.
pub const DAY_MONTH_FORMAT: &'static str = "%e %b";

/// Leap years of the proleptic Gregorian calendar.
pub open spec fn is_leap_year(year: int) -> bool {
    year % 4 == 0 && (year % 100 != 0 || year % 400 == 0)
}

pub open spec fn days_in_month(year: int, month: int) -> int {
    if month == 2 {
        if is_leap_year(year) {
            29
        } else {
            28
        }
    } else if month == 4 || month == 6 || month == 9 || month == 11 {
        30
    } else {
        31
    }
}

/// Whether the calendar has such a day, in a year that a date can lie in.
pub open spec fn valid_ymd(year: int, month: int, day: int) -> bool {
    &&& MIN_YEAR <= year <= MAX_YEAR
    &&& 1 <= month <= 12
    &&& 1 <= day <= days_in_month(year, month)
}

/// The month and the day that the date parser reads from `text` under the strftime
/// format `format`; `None` where the parser refuses the text or leaves either unset.
pub uninterp spec fn parsed_month_day(text: Seq<char>, format: Seq<char>) -> Option<(u32, u32)>;

/// Whether the calendar has such a day, in a year that a date can lie in.
fn is_calendar_date(year: i32, month: u32, day: u32) -> (valid: bool)
    ensures
        valid == valid_ymd(year as int, month as int, day as int),
{
    if year < MIN_YEAR || year > MAX_YEAR || month < 1 || month > 12 || day < 1 {
        return false;
    }
    // Leap years come round every four hundred years, so the year is moved on by a
    // multiple of four hundred that makes it positive.
    let shifted: u32 = (year + 262_400) as u32;
    let leap = shifted % 4 == 0 && (shifted % 100 != 0 || shifted % 400 == 0);
    assert(leap == is_leap_year(year as int));
    let days: u32 = if month == 2 {
        if leap {
            29
        } else {
            28
        }
    } else if month == 4 || month == 6 || month == 9 || month == 11 {
        30
    } else {
        31
    };
    day <= days
}

/// Runs `chrono::format::parse` on `text` with the items of
/// `chrono::format::StrftimeItems::new(format)` and reads month and day from the
/// `Parsed`. Not proved: that they are the pair named by [`parsed_month_day`], which
/// is to say that the parser answers the same way whenever it is given the same text
/// and format.
#[verifier::external_body]
pub(crate) fn month_day(text: &str, format: &str) -> (found: Option<(u32, u32)>)
    ensures
        found == parsed_month_day(text@, format@),
{
    let mut parsed = chrono::format::Parsed::new();
    chrono::format::parse(&mut parsed, text, chrono::format::StrftimeItems::new(format)).ok()?;
    Some((parsed.month()?, parsed.day()?))
}

/// A day of the calendar.
#[derive(Clone, Copy, Debug, PartialEq, Eq, Structural)]
pub struct CalendarDate {
    pub year: i32,
    pub month: u32,
    pub day: u32,
}

impl CalendarDate {
    /// Whether the calendar has this day.
    pub open spec fn is_valid(self) -> bool {
        valid_ymd(self.year as int, self.month as int, self.day as int)
    }

    /// Whether this date comes earlier than `other`.
    pub open spec fn is_before(self, other: CalendarDate) -> bool {
        self.year < other.year || (self.year == other.year && other.is_after(self.month, self.day))
    }

    /// Whether the day `day` of `month` comes earlier in a year than this date does.
    pub open spec fn is_after(self, month: u32, day: u32) -> bool {
        month < self.month || (month == self.month && day < self.day)
    }

    /// The year of the first `day` of `month` that is not before this date, were the
    /// calendar to have that day in every year.
    pub open spec fn year_of_next(self, month: u32, day: u32) -> int {
        if self.is_after(month, day) {
            self.year + 1
        } else {
            self.year as int
        }
    }

    /// The date that a `day` and a `month` written after this date mean: they lie in
    /// this date's year, or in the next where they would else go back in time. `None`
    /// where the calendar has no such day.
    pub open spec fn next_occurrence(self, month: u32, day: u32) -> Option<CalendarDate> {
        let year = self.year_of_next(month, day);
        if valid_ymd(year, month as int, day as int) {
            Some(CalendarDate { year: year as i32, month, day })
        } else {
            None
        }
    }

    /// The date of the three numbers, where the calendar has it.
    pub fn from_ymd(year: i32, month: u32, day: u32) -> (date: Option<CalendarDate>)
        ensures
            date == if valid_ymd(year as int, month as int, day as int) {
                Some(CalendarDate { year, month, day })
            } else {
                None
            },
    {
        if is_calendar_date(year, month, day) {
            Some(CalendarDate { year, month, day })
        } else {
            None
        }
    }

    /// Resolves a `day` and a `month` written after this date.
    pub fn resolve(&self, month: u32, day: u32) -> (date: Option<CalendarDate>)
        ensures
            date == self.next_occurrence(month, day),
            date matches Some(d) ==> d.is_valid(),
    {
        let rolls_over = month < self.month || (month == self.month && day < self.day);
        if rolls_over {
            match self.year.checked_add(1) {
                Some(year) => CalendarDate::from_ymd(year, month, day),
                None => None,
            }
        } else {
            CalendarDate::from_ymd(self.year, month, day)
        }
    }
}

/// The date that `text` means after `previous`: the text is read as month and day,
/// and where that fails as day and month.
pub open spec fn date_of_text(text: Seq<char>, previous: CalendarDate) -> Option<CalendarDate> {
    match parsed_month_day(text, MONTH_DAY_FORMAT@) {
        Some((month, day)) => previous.next_occurrence(month, day),
        None => match parsed_month_day(text, DAY_MONTH_FORMAT@) {
            Some((month, day)) => previous.next_occurrence(month, day),
            None => None,
        },
    }
}

/// A date never goes back in time when it is resolved against the one before it, and
/// it stays within a year of it.
pub proof fn lemma_next_occurrence_follows(previous: CalendarDate, month: u32, day: u32)
    requires
        previous.next_occurrence(month, day) is Some,
    ensures
        ({
            let next = previous.next_occurrence(month, day).unwrap();
            &&& next.month == month
            &&& next.day == day
            &&& next.is_valid()
            &&& next.year == previous.year || next.year == previous.year + 1
            &&& !next.is_before(previous)
        }),
{
}

} // verus!
