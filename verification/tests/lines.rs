use drink_list::calendar::CalendarDate;
use drink_list::decimal::Decimal;
use drink_list::error::Error;
use drink_list::import::{Abv, DateContext, Drink, DrinkSet, RawEntry};
use drink_list::models::{ApproxF32, TimePeriod};

fn text(value: &str) -> Option<String> {
    Some(value.to_string())
}

fn date(year: i32, month: u32, day: u32) -> CalendarDate {
    CalendarDate::from_ymd(year, month, day).expect("a calendar date")
}

fn seed() -> DateContext {
    DateContext { date: date(2018, 1, 1), time: TimePeriod::Evening, context: Vec::new() }
}

fn dated(field: &str) -> RawEntry {
    RawEntry { date: text(field), quantity: None, name: None, abv: None, volume: None }
}

fn named(name: &str, abv: Option<&str>) -> RawEntry {
    RawEntry {
        date: None,
        quantity: None,
        name: text(name),
        abv: abv.map(|a| a.to_string()),
        volume: None,
    }
}

#[test]
fn line_with_all_fields_is_split() {
    let entry = RawEntry::from_line("(5 jan, brunch), 2, Mimosa , 12% , 6 oz").unwrap();
    assert_eq!(entry.date, text("5 jan, brunch"));
    assert_eq!(entry.quantity, text("2"));
    assert_eq!(entry.name, text("Mimosa"));
    assert_eq!(entry.abv, text("12%"));
    assert_eq!(entry.volume, text("6 oz"));
}

#[test]
fn line_without_optional_fields_is_split() {
    let entry = RawEntry::from_line("1-2, beer").unwrap();
    assert_eq!(entry.date, None);
    assert_eq!(entry.quantity, text("1-2"));
    assert_eq!(entry.name, text("beer"));
    assert_eq!(entry.abv, None);
    assert_eq!(entry.volume, None);

    let entry = RawEntry::from_line("~3, double gin and tonic, 40%").unwrap();
    assert_eq!(entry.date, None);
    assert_eq!(entry.quantity, text("~3"));
    assert_eq!(entry.name, text("double gin and tonic"));
    assert_eq!(entry.abv, text("40%"));
    assert_eq!(entry.volume, None);
}

#[test]
fn line_with_date_and_leading_comma_is_split() {
    let entry = RawEntry::from_line("(night),1, stout").unwrap();
    assert_eq!(entry.date, text("night"));
    assert_eq!(entry.quantity, text("1"));
    assert_eq!(entry.name, text("stout"));
}

#[test]
fn line_without_comma_is_refused() {
    assert!(matches!(RawEntry::from_line("just some words"), Err(Error::TokenizeError)));
    assert!(matches!(RawEntry::from_line(""), Err(Error::TokenizeError)));
    assert!(matches!(RawEntry::from_groups(&None), Err(Error::TokenizeError)));
}

#[test]
fn fields_come_from_the_groups_in_order() {
    let groups = Some(vec![
        text("whole"),
        None,
        text(" 2 "),
        text("\tale\t"),
        text(""),
        None,
    ]);
    let entry = RawEntry::from_groups(&groups).unwrap();
    assert_eq!(entry.date, None);
    assert_eq!(entry.quantity, text("2"));
    assert_eq!(entry.name, text("ale"));
    assert_eq!(entry.abv, text(""));
    assert_eq!(entry.volume, None);
    let entry = RawEntry::from_groups(&Some(vec![text("x"), text("d")])).unwrap();
    assert_eq!(entry.date, text("d"));
    assert_eq!(entry.quantity, None);
    assert_eq!(entry.volume, None);
}

#[test]
fn entry_without_date_field_carries_everything_forward() {
    let previous = DateContext {
        date: date(2019, 7, 4),
        time: TimePeriod::Morning,
        context: vec!["picnic".to_string(), "park".to_string()],
    };
    let entry = RawEntry { date: None, quantity: text("1"), name: text("x"), abv: None, volume: None };
    let resolved = DateContext::from_entry(&entry, &previous).unwrap();
    assert_eq!(resolved.date, date(2019, 7, 4));
    assert_eq!(resolved.time, TimePeriod::Morning);
    assert_eq!(resolved.context, vec!["picnic".to_string(), "park".to_string()]);
}

#[test]
fn brunch_on_a_new_day_is_the_afternoon() {
    let resolved = DateContext::from_entry(&dated("5 jan, brunch"), &seed()).unwrap();
    assert_eq!(resolved.date, date(2018, 1, 5));
    assert_eq!(resolved.time, TimePeriod::Afternoon);
    assert_eq!(resolved.context, Vec::<String>::new());
}

#[test]
fn january_after_december_is_the_next_year() {
    let previous = DateContext { date: date(2018, 12, 20), time: TimePeriod::Night, context: Vec::new() };
    let resolved = DateContext::from_entry(&dated("2 jan"), &previous).unwrap();
    assert_eq!(resolved.date, date(2019, 1, 2));
    let resolved = DateContext::from_entry(&dated("jan 1"), &previous).unwrap();
    assert_eq!(resolved.date, date(2019, 1, 1));
}

#[test]
fn later_day_stays_in_the_year() {
    let previous = DateContext { date: date(2018, 3, 10), time: TimePeriod::Night, context: Vec::new() };
    assert_eq!(DateContext::from_entry(&dated("10 mar"), &previous).unwrap().date, date(2018, 3, 10));
    assert_eq!(DateContext::from_entry(&dated("mar 11"), &previous).unwrap().date, date(2018, 3, 11));
    assert_eq!(DateContext::from_entry(&dated("Oct 1"), &previous).unwrap().date, date(2018, 10, 1));
    assert_eq!(DateContext::from_entry(&dated("9 mar"), &previous).unwrap().date, date(2019, 3, 9));
    assert_eq!(DateContext::from_entry(&dated("28 feb"), &previous).unwrap().date, date(2019, 2, 28));
}

#[test]
fn day_that_does_not_exist_is_refused() {
    let previous = DateContext { date: date(2018, 1, 10), time: TimePeriod::Night, context: Vec::new() };
    assert_eq!(
        DateContext::from_entry(&dated("30 feb"), &previous).unwrap_err(),
        Error::InvalidDateContext
    );
    assert_eq!(
        DateContext::from_entry(&dated("29 feb"), &previous).unwrap_err(),
        Error::InvalidDateContext
    );
    assert_eq!(
        DateContext::from_entry(&dated("31 apr"), &previous).unwrap_err(),
        Error::InvalidDateContext
    );
    assert_eq!(
        DateContext::from_entry(&dated("12 xyz"), &previous).unwrap_err(),
        Error::InvalidDateContext
    );
    assert_eq!(
        DateContext::from_entry(&dated("45 jan"), &previous).unwrap_err(),
        Error::InvalidDateContext
    );
    let leap = DateContext { date: date(2020, 1, 10), time: TimePeriod::Night, context: Vec::new() };
    assert_eq!(DateContext::from_entry(&dated("29 feb"), &leap).unwrap().date, date(2020, 2, 29));
    let before_leap =
        DateContext { date: date(2019, 12, 31), time: TimePeriod::Night, context: Vec::new() };
    assert_eq!(
        DateContext::from_entry(&dated("feb 29"), &before_leap).unwrap().date,
        date(2020, 2, 29)
    );
}

#[test]
fn date_field_with_too_many_parts_is_refused() {
    assert_eq!(
        DateContext::from_entry(&dated("a, b, c, d"), &seed()).unwrap_err(),
        Error::InvalidDateContext
    );
    assert_eq!(DateContext::from_groups(&None, &seed()).unwrap_err(), Error::InvalidDateContext);
}

#[test]
fn time_of_day_is_taken_from_either_text() {
    let resolved = DateContext::from_entry(&dated("3 feb, Morning, at home"), &seed()).unwrap();
    assert_eq!(resolved.date, date(2018, 2, 3));
    assert_eq!(resolved.time, TimePeriod::Morning);
    assert_eq!(resolved.context, vec!["at home".to_string()]);
    let resolved = DateContext::from_entry(&dated("3 feb; at home; NIGHT"), &seed()).unwrap();
    assert_eq!(resolved.time, TimePeriod::Night);
    assert_eq!(resolved.context, vec!["at home".to_string()]);
    let resolved = DateContext::from_entry(&dated("afternoon"), &seed()).unwrap();
    assert_eq!(resolved.date, date(2018, 1, 1));
    assert_eq!(resolved.time, TimePeriod::Afternoon);
    assert_eq!(resolved.context, Vec::<String>::new());
}

#[test]
fn two_times_of_day_are_refused() {
    assert_eq!(
        DateContext::from_entry(&dated("afternoon, night"), &seed()).unwrap_err(),
        Error::InvalidDateContext
    );
    assert_eq!(
        DateContext::resolve(&seed(), date(2018, 1, 1), text("morning"), text("morning"))
            .unwrap_err(),
        Error::InvalidDateContext
    );
}

#[test]
fn time_is_carried_on_the_same_date_and_night_on_a_new_one() {
    let previous = DateContext { date: date(2018, 6, 1), time: TimePeriod::Morning, context: Vec::new() };
    let resolved = DateContext::from_entry(&dated("1 jun, pub"), &previous).unwrap();
    assert_eq!(resolved.time, TimePeriod::Morning);
    assert_eq!(resolved.context, vec!["pub".to_string()]);
    let resolved = DateContext::from_entry(&dated("pub"), &previous).unwrap();
    assert_eq!(resolved.date, date(2018, 6, 1));
    assert_eq!(resolved.time, TimePeriod::Morning);
    let resolved = DateContext::from_entry(&dated("2 jun, pub"), &previous).unwrap();
    assert_eq!(resolved.date, date(2018, 6, 2));
    assert_eq!(resolved.time, TimePeriod::Night);
    let resolved = DateContext::from_entry(&dated("2 jun"), &previous).unwrap();
    assert_eq!(resolved.time, TimePeriod::Night);
    assert_eq!(resolved.context, Vec::<String>::new());
}

#[test]
fn settings_keep_the_order_in_which_they_were_written() {
    let resolved = DateContext::from_entry(&dated("4 jan, Dinner, with Bob"), &seed()).unwrap();
    assert_eq!(resolved.context, vec!["dinner".to_string(), "with bob".to_string()]);
    assert_eq!(resolved.time, TimePeriod::Night);
    let resolved =
        DateContext::resolve(&seed(), date(2018, 1, 1), text("dinner"), text("with bob")).unwrap();
    assert_eq!(resolved.context, vec!["dinner".to_string(), "with bob".to_string()]);
    assert_eq!(resolved.time, TimePeriod::Evening);
}

#[test]
fn brunch_is_kept_where_another_text_gives_the_time() {
    let resolved =
        DateContext::resolve(&seed(), date(2018, 1, 1), text("brunch"), text("evening")).unwrap();
    assert_eq!(resolved.time, TimePeriod::Evening);
    assert_eq!(resolved.context, vec!["brunch".to_string()]);
    let resolved =
        DateContext::resolve(&seed(), date(2018, 1, 1), text("brunch"), text("patio")).unwrap();
    assert_eq!(resolved.time, TimePeriod::Afternoon);
    assert_eq!(resolved.context, vec!["patio".to_string()]);
    let resolved =
        DateContext::resolve(&seed(), date(2018, 1, 1), text("brunch"), text("brunch")).unwrap();
    assert_eq!(resolved.time, TimePeriod::Afternoon);
    assert_eq!(resolved.context, Vec::<String>::new());
    assert!(DateContext::is_brunch_context(&text("brunch")));
    assert!(!DateContext::is_brunch_context(&text("Brunch")));
    assert!(!DateContext::is_brunch_context(&None));
}

#[test]
fn date_text_is_read_in_both_orders() {
    let previous = date(2018, 1, 1);
    assert_eq!(DateContext::parse_date_string("1 oct", &previous), Ok(date(2018, 10, 1)));
    assert_eq!(DateContext::parse_date_string("feb 21", &previous), Ok(date(2018, 2, 21)));
    assert_eq!(DateContext::parse_date_string("1 jan", &previous), Ok(date(2018, 1, 1)));
    assert_eq!(DateContext::parse_date_string("oct", &previous), Err(Error::InvalidDateContext));
    assert_eq!(DateContext::parse_date_string("", &previous), Err(Error::InvalidDateContext));
    assert_eq!(DateContext::parse_date_string("31 nov", &previous), Err(Error::InvalidDateContext));
}

#[test]
fn calendar_knows_its_days() {
    assert!(CalendarDate::from_ymd(2015, 3, 14).is_some());
    assert!(CalendarDate::from_ymd(2015, 0, 14).is_none());
    assert!(CalendarDate::from_ymd(2015, 13, 1).is_none());
    assert!(CalendarDate::from_ymd(2015, 2, 29).is_none());
    assert!(CalendarDate::from_ymd(2016, 2, 29).is_some());
    assert!(CalendarDate::from_ymd(1900, 2, 29).is_none());
    assert!(CalendarDate::from_ymd(2000, 2, 29).is_some());
    assert!(CalendarDate::from_ymd(-4, 2, 29).is_some());
    assert!(CalendarDate::from_ymd(2023, 4, 31).is_none());
    assert!(CalendarDate::from_ymd(2023, 4, 0).is_none());
    assert!(CalendarDate::from_ymd(262_142, 12, 31).is_some());
    assert!(CalendarDate::from_ymd(262_143, 1, 1).is_none());
    assert!(CalendarDate::from_ymd(-262_143, 1, 1).is_some());
    assert!(CalendarDate::from_ymd(-262_144, 12, 31).is_none());
    let last = date(262_142, 6, 1);
    assert_eq!(last.resolve(7, 1), Some(date(262_142, 7, 1)));
    assert_eq!(last.resolve(5, 1), None);
    let edge = CalendarDate { year: i32::MAX, month: 6, day: 1 };
    assert_eq!(edge.resolve(5, 1), None);
}

#[test]
fn drink_name_is_trimmed_and_lowered() {
    let drink = Drink::from_entry(&named("  Pale ALE ", Some("5.5%"))).unwrap();
    assert_eq!(drink.name, "pale ale");
    assert_eq!(drink.multiplier, Decimal::from_micros(1_000_000));
    let abv = drink.abv.unwrap();
    assert_eq!(abv.min, ApproxF32::new(Decimal::from_micros(5_500_000), false));
    assert_eq!(abv.max, ApproxF32::new(Decimal::from_micros(5_500_000), false));
}

#[test]
fn double_in_the_name_doubles_the_multiplier() {
    let drink = Drink::from_entry(&named("double whisky", None)).unwrap();
    assert_eq!(drink.multiplier, Decimal::from_micros(2_000_000));
    assert_eq!(drink.abv, None);
    let drink = Drink::from_entry(&named("a doubled bet", None)).unwrap();
    assert_eq!(drink.multiplier, Decimal::from_micros(2_000_000));
    let drink = Drink::from_entry(&named("Double whisky", None)).unwrap();
    assert_eq!(drink.multiplier, Decimal::from_micros(1_000_000));
    assert_eq!(drink.name, "double whisky");
    let drink = Drink::from_entry(&named("doubl", None)).unwrap();
    assert_eq!(drink.multiplier, Decimal::from_micros(1_000_000));
}

#[test]
fn drink_with_unshaped_abv_has_none() {
    let drink = Drink::from_entry(&named("cider", Some("strong"))).unwrap();
    assert_eq!(drink.abv, None);
}

#[test]
fn drinks_are_the_same_to_the_hundredth() {
    let a = Drink::from_entry(&named("Lager", Some("5.001%"))).unwrap();
    let b = Drink::from_entry(&named(" lager ", Some("5.004%"))).unwrap();
    assert_eq!(a, b);
    let c = Drink::from_entry(&named("lager", Some("5.1%"))).unwrap();
    assert_ne!(a, c);
    let d = Drink::from_entry(&named("lager", None)).unwrap();
    assert_ne!(a, d);
    let e = Drink::from_entry(&named("lagers", Some("5.001%"))).unwrap();
    assert_ne!(a, e);
    let mut f = a.clone();
    f.multiplier = Decimal::from_micros(1_009_999);
    assert_eq!(a, f);
    f.multiplier = Decimal::from_micros(1_010_000);
    assert_ne!(a, f);
}

#[test]
fn registry_finds_what_was_inserted() {
    let mut set = DrinkSet::new();
    let lager = Drink::from_entry(&named("lager", Some("5.001%"))).unwrap();
    assert_eq!(set.find(&lager), None);
    assert_eq!(set.insert(7, lager.clone()), Ok(7));
    assert_eq!(set.find(&lager), Some(7));
    let same = Drink::from_entry(&named("LAGER", Some("5.004%"))).unwrap();
    assert_eq!(set.find(&same), Some(7));
    let stout = Drink::from_entry(&named("stout", None)).unwrap();
    assert_eq!(set.find(&stout), None);
    assert_eq!(set.insert(8, stout.clone()), Ok(8));
    assert_eq!(set.find(&stout), Some(8));
    assert_eq!(set.find(&lager), Some(7));
}

#[test]
fn registry_refuses_a_drink_twice() {
    let mut set = DrinkSet::new();
    let lager = Drink::from_entry(&named("lager", Some("5.001%"))).unwrap();
    let same = Drink::from_entry(&named("lager", Some("5.004%"))).unwrap();
    assert_eq!(set.insert(1, lager.clone()), Ok(1));
    assert_eq!(set.insert(2, same), Err(Error::DuplicateRegistryEntry));
    assert_eq!(set.insert(2, lager.clone()), Err(Error::DuplicateRegistryEntry));
    assert_eq!(set.find(&lager), Some(1));
}

#[test]
fn registry_refuses_an_id_twice() {
    let mut set = DrinkSet::new();
    let lager = Drink::from_entry(&named("lager", None)).unwrap();
    let stout = Drink::from_entry(&named("stout", None)).unwrap();
    assert_eq!(set.insert(1, lager), Ok(1));
    assert_eq!(set.insert(1, stout.clone()), Err(Error::DuplicateRegistryEntry));
    assert_eq!(set.find(&stout), None);
    assert_eq!(set.insert(-3, stout.clone()), Ok(-3));
    assert_eq!(set.find(&stout), Some(-3));
}

#[test]
fn abv_of_entry_with_shape_is_read() {
    let abv = Abv::from_entry(&named("x", Some("~4-6%"))).unwrap().unwrap();
    assert_eq!(abv.min, ApproxF32::new(Decimal::from_micros(4_000_000), true));
    assert_eq!(abv.max, ApproxF32::new(Decimal::from_micros(6_000_000), false));
}

#[test]
fn calendar_agrees_with_the_date_type_it_is_handed_on_as() {
    let spans = [
        -262_146..=-262_140,
        -2_005..=-1_995,
        -405..=405,
        1_580..=2_420,
        262_138..=262_146,
    ];
    for span in spans {
        for year in span {
            for month in 0u32..=13 {
                for day in 0u32..=32 {
                    assert_eq!(
                        CalendarDate::from_ymd(year, month, day).is_some(),
                        chrono::NaiveDate::from_ymd_opt(year, month, day).is_some(),
                        "{}-{}-{}",
                        year,
                        month,
                        day
                    );
                }
            }
        }
    }
    assert!(CalendarDate::from_ymd(i32::MAX, 1, 1).is_none());
    assert!(CalendarDate::from_ymd(i32::MIN, 1, 1).is_none());
    assert!(CalendarDate::from_ymd(2020, u32::MAX, 1).is_none());
    assert!(CalendarDate::from_ymd(2020, 1, u32::MAX).is_none());
}
