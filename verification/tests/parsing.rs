use drink_list::decimal::Decimal;
use drink_list::error::Error;
use drink_list::import::{Abv, QuantityRange, RawEntry, VolumeContext};
use drink_list::models::{ApproxF32, LiquidVolume, VolumeUnit};

fn decimal(value: f64) -> Decimal {
    Decimal::from_micros((value * 1_000_000.0).round() as u64)
}

fn as_pair(parsed: Result<(bool, Decimal), Error>) -> (bool, f32) {
    let (approximate, num) = parsed.expect("a number");
    (approximate, (num.micros as f64 / 1_000_000.0) as f32)
}

fn make_quantity_entry(quantity: &str) -> RawEntry {
    RawEntry { date: None, quantity: Some(quantity.into()), name: None, abv: None, volume: None }
}

fn make_abv_entry(abv: &str) -> RawEntry {
    RawEntry { date: None, quantity: None, name: None, abv: Some(abv.into()), volume: None }
}

fn make_range(tuple: (bool, f64, bool, f64)) -> QuantityRange {
    let (apprx_min, min, apprx_max, max) = tuple;
    QuantityRange {
        min: ApproxF32::new(decimal(min), apprx_min),
        max: ApproxF32::new(decimal(max), apprx_max),
    }
}

fn make_abv(tuple: (bool, f64, bool, f64)) -> Abv {
    let (apprx_min, min, apprx_max, max) = tuple;
    Abv { min: ApproxF32::new(decimal(min), apprx_min), max: ApproxF32::new(decimal(max), apprx_max) }
}

fn check_quantity(range_tuple: (bool, f64, bool, f64), entry_str: &str) {
    assert_eq!(
        make_range(range_tuple),
        QuantityRange::from_entry(&make_quantity_entry(entry_str)).unwrap()
    );
}

fn check_abv(abv_tuple: (bool, f64, bool, f64), entry_str: &str) {
    let parsed = Abv::from_entry(&make_abv_entry(entry_str)).unwrap().unwrap();
    let expected = make_abv(abv_tuple);
    assert_eq!(expected, parsed);
    assert_eq!(expected.min, parsed.min);
    assert_eq!(expected.max, parsed.max);
}

#[test]
fn test_quantity_range_parse_value() {
    assert_eq!((false, 1f32), as_pair(QuantityRange::parse_value("1")));
    assert_eq!((true, 2f32), as_pair(QuantityRange::parse_value("~2")));
    assert_eq!((true, 2.1234f32), as_pair(QuantityRange::parse_value("~2.1234")));
}

#[test]
fn test_quantity_range_parse() {
    check_quantity((false, 1.0, false, 1.0), "1");
    check_quantity((false, 1.0, false, 1.0), "1-1");
    check_quantity((true, 1.0, false, 1.0), "~1-1");
    check_quantity((true, 1.0, true, 1.0), "~1-~1");
    check_quantity((false, 1.0, true, 1.0), "1-~1");

    check_quantity((false, 1.5, false, 1.5), "1.5");
    check_quantity((true, 2.5, true, 2.5), "~2.5");
    check_quantity((false, 66.666, false, 66.666), "66.666");
    check_quantity((false, 3.0, false, 5.0), "3-5");
    check_quantity((true, 2.0, true, 3.0), "~2-~3");
    check_quantity((true, 2.5, true, 3.5), "~2.5-~3.5");

    check_quantity((false, 3.0, false, 5.0), "3 - 5");
    check_quantity((true, 2.0, true, 3.0), "~2 - ~3");
    check_quantity((true, 2.5, true, 3.5), "~2.5 - ~3.5");
    check_quantity((false, 1.0, false, 2.0), "1-2");
}

#[test]
fn test_abv_parse() {
    check_abv((false, 1.0, false, 1.0), "1%");
    check_abv((false, 1.0, false, 1.0), "1-1%");
    check_abv((true, 1.0, false, 1.0), "~1-1%");
    check_abv((true, 1.0, true, 1.0), "~1-~1%");
    check_abv((false, 1.0, true, 1.0), "1-~1%");

    check_abv((false, 1.0, false, 1.0), "1%");
    check_abv((false, 1.0, false, 1.0), "1%-1%");
    check_abv((true, 1.0, false, 1.0), "~1%-1%");
    check_abv((true, 1.0, true, 1.0), "~1%-~1%");
    check_abv((false, 1.0, true, 1.0), "1%-~1%");

    check_abv((false, 1.5, false, 1.5), "1.5%");
    check_abv((true, 2.5, true, 2.5), "~2.5%");
    check_abv((false, 66.666, false, 66.666), "66.666%");
    check_abv((false, 3.0, false, 5.0), "3-5%");
    check_abv((false, 3.0, false, 5.0), "3%-5%");
    check_abv((true, 2.0, true, 3.0), "~2-~3%");
    check_abv((true, 2.0, true, 3.0), "~2%-~3%");
    check_abv((true, 2.5, true, 3.5), "~2.5-~3.5%");
    check_abv((true, 2.5, true, 3.5), "~2.5%-~3.5%");

    check_abv((false, 3.0, false, 5.0), "3 - 5%");
    check_abv((false, 3.0, false, 5.0), "3% - 5%");
    check_abv((true, 2.0, true, 3.0), "~2 - ~3%");
    check_abv((true, 2.0, true, 3.0), "~2% - ~3%");
    check_abv((true, 2.5, true, 3.5), "~2.5 - ~3.5%");
    check_abv((true, 2.5, true, 3.5), "~2.5% - ~3.5%");
    check_abv((false, 1.0, false, 2.0), "1-2%");
    check_abv((false, 1.0, false, 2.0), "1%-2%");
}

#[test]
fn plain_single_quantity_is_exact_at_both_ends() {
    for text in ["0", "1", "7", "12", "2.5", "0.25", "66.666", "1000000"] {
        let range = QuantityRange::from_str(text).unwrap();
        let value: f64 = text.parse().unwrap();
        assert_eq!(range.min, ApproxF32::new(decimal(value), false), "{}", text);
        assert_eq!(range.max, ApproxF32::new(decimal(value), false), "{}", text);
    }
}

#[test]
fn each_end_of_a_range_has_its_own_tilde() {
    let range = QuantityRange::from_str("1-~2").unwrap();
    assert_eq!(range.min, ApproxF32::new(Decimal::from_micros(1_000_000), false));
    assert_eq!(range.max, ApproxF32::new(Decimal::from_micros(2_000_000), true));
    let range = QuantityRange::from_str("~1.5 - 4").unwrap();
    assert_eq!(range.min, ApproxF32::new(Decimal::from_micros(1_500_000), true));
    assert_eq!(range.max, ApproxF32::new(Decimal::from_micros(4_000_000), false));
}

#[test]
fn quantity_is_found_inside_other_text() {
    let range = QuantityRange::from_str("about 3 - 5 glasses").unwrap();
    assert_eq!(range, make_range((false, 3.0, false, 5.0)));
}

#[test]
fn quantity_prints_in_canonical_form() {
    assert_eq!(QuantityRange::from_str("1-2").unwrap().print(), "1.00-2.00");
    assert_eq!(QuantityRange::from_str("2").unwrap().print(), "2.00");
    assert_eq!(QuantityRange::from_str("~2").unwrap().print(), "~2.00");
    assert_eq!(QuantityRange::from_str("1-~1").unwrap().print(), "1.00-~1.00");
    assert_eq!(QuantityRange::from_str("~1 - 1").unwrap().print(), "~1.00-1.00");
    assert_eq!(QuantityRange::from_str("~2.5-~3.5").unwrap().print(), "~2.50-~3.50");
    assert_eq!(QuantityRange::from_str("12.345").unwrap().print(), "12.34");
    assert_eq!(QuantityRange::from_str("12.355").unwrap().print(), "12.36");
    assert_eq!(QuantityRange::from_str("12.3451").unwrap().print(), "12.35");
}

#[test]
fn printed_quantity_parses_back_to_itself() {
    for text in ["1-2", "~2", "1-~1", "~0.25 - 3.75", "10", "~7.5-~8"] {
        let range = QuantityRange::from_str(text).unwrap();
        let printed = range.print();
        assert_eq!(QuantityRange::from_str(&printed).unwrap(), range, "{}", text);
        assert_eq!(QuantityRange::from_str(&printed).unwrap().print(), printed);
    }
}

#[test]
fn missing_quantity_is_an_error() {
    assert_eq!(QuantityRange::from_str("none"), Err(Error::MissingQuantity));
    assert_eq!(QuantityRange::from_str(""), Err(Error::MissingQuantity));
    let entry = RawEntry { date: None, quantity: None, name: None, abv: None, volume: None };
    assert_eq!(QuantityRange::from_entry(&entry), Err(Error::MissingQuantity));
    assert_eq!(QuantityRange::from_groups(&None), Err(Error::MissingQuantity));
}

#[test]
fn unreadable_number_is_an_error() {
    assert_eq!(QuantityRange::parse_value("abc"), Err(Error::InvalidNumber));
    assert_eq!(QuantityRange::parse_value(""), Err(Error::InvalidNumber));
    assert_eq!(QuantityRange::parse_value("~"), Err(Error::InvalidNumber));
    assert_eq!(QuantityRange::parse_value("1."), Err(Error::InvalidNumber));
    assert_eq!(QuantityRange::parse_value(".5"), Err(Error::InvalidNumber));
    assert_eq!(QuantityRange::parse_value("1.2.3"), Err(Error::InvalidNumber));
    assert_eq!(QuantityRange::parse_value("-1"), Err(Error::InvalidNumber));
    assert_eq!(QuantityRange::parse_value("1e3"), Err(Error::InvalidNumber));
    assert_eq!(QuantityRange::parse_value("٣"), Err(Error::InvalidNumber));
    assert_eq!(Abv::parse_value("x"), Err(Error::InvalidNumber));
    assert_eq!(VolumeContext::parse_value("1,5"), Err(Error::InvalidNumber));
}

#[test]
fn number_too_large_to_hold_is_an_error() {
    assert_eq!(QuantityRange::from_str("18446744073710"), Err(Error::InvalidNumber));
    assert_eq!(QuantityRange::from_str("99999999999999999999999999"), Err(Error::InvalidNumber));
    assert_eq!(QuantityRange::from_str("1-99999999999999999999999999"), Err(Error::InvalidNumber));
    assert_eq!(
        QuantityRange::from_str("18446744073709.551615").unwrap().min.num,
        Decimal::from_micros(u64::MAX)
    );
    assert_eq!(QuantityRange::from_str("18446744073709.551616"), Err(Error::InvalidNumber));
}

#[test]
fn groups_without_a_first_number_are_an_error() {
    let groups = Some(vec![Some("-2".to_string()), None, Some("2".to_string())]);
    assert_eq!(QuantityRange::from_groups(&groups), Err(Error::InvalidNumber));
    let groups = Some(vec![Some(" ".to_string()), Some("  ".to_string())]);
    assert_eq!(QuantityRange::from_groups(&groups), Err(Error::InvalidNumber));
    let groups = Some(vec![Some("x".to_string()), Some("x".to_string())]);
    assert_eq!(QuantityRange::from_groups(&groups), Err(Error::InvalidNumber));
    let groups = Some(Vec::new());
    assert_eq!(QuantityRange::from_groups(&groups), Err(Error::InvalidNumber));
}

#[test]
fn groups_are_trimmed_before_they_are_read() {
    let groups = Some(vec![None, Some(" ~1.5 ".to_string()), Some("\t3\n".to_string())]);
    assert_eq!(QuantityRange::from_groups(&groups), Ok(make_range((true, 1.5, false, 3.0))));
    let groups = Some(vec![None, Some("4".to_string()), Some("  ".to_string())]);
    assert_eq!(QuantityRange::from_groups(&groups), Ok(make_range((false, 4.0, false, 4.0))));
}

#[test]
fn value_keeps_six_digits_after_the_point() {
    assert_eq!(QuantityRange::parse_value("0.1234567"), Ok((false, Decimal::from_micros(123_456))));
    assert_eq!(QuantityRange::parse_value("0.1234569"), Ok((false, Decimal::from_micros(123_456))));
    assert_eq!(QuantityRange::parse_value("0.000001"), Ok((false, Decimal::from_micros(1))));
    assert_eq!(QuantityRange::parse_value("0.0000009"), Ok((false, Decimal::from_micros(0))));
    assert_eq!(QuantityRange::parse_value("007.50"), Ok((false, Decimal::from_micros(7_500_000))));
    assert_eq!(QuantityRange::parse_value("~~3"), Ok((true, Decimal::from_micros(3_000_000))));
}

#[test]
fn absent_abv_is_no_abv() {
    let entry = RawEntry { date: None, quantity: None, name: None, abv: None, volume: None };
    assert_eq!(Abv::from_entry(&entry), Ok(None));
    assert_eq!(Abv::from_groups(&None), Ok(None));
}

#[test]
fn abv_without_percent_sign_is_no_abv() {
    assert_eq!(Abv::from_str("5"), Ok(None));
    assert_eq!(Abv::from_str("strong"), Ok(None));
    assert_eq!(Abv::from_str(""), Ok(None));
    assert_eq!(Abv::from_str("%"), Ok(None));
}

#[test]
fn abv_shape_without_first_number_is_an_error() {
    let groups = Some(vec![Some("%".to_string()), None, None]);
    assert_eq!(Abv::from_groups(&groups), Err(Error::MissingAbv));
    let groups = Some(vec![Some("%".to_string()), Some(" ".to_string()), Some("5".to_string())]);
    assert_eq!(Abv::from_groups(&groups), Err(Error::MissingAbv));
}

#[test]
fn abv_prints_with_one_digit_and_percent_sign() {
    assert_eq!(Abv::from_str("5%").unwrap().unwrap().print(), "5.0%");
    assert_eq!(Abv::from_str("~5%").unwrap().unwrap().print(), "~5.0%");
    assert_eq!(Abv::from_str("4.5-~5.5%").unwrap().unwrap().print(), "4.5-~5.5%");
    assert_eq!(Abv::from_str("4.25% - 6%").unwrap().unwrap().print(), "4.2-6.0%");
    assert_eq!(Abv::from_str("5-~5%").unwrap().unwrap().print(), "5.0-~5.0%");
}

#[test]
fn abv_equality_ignores_what_lies_below_a_hundredth() {
    let a = Abv::from_str("5.001%").unwrap().unwrap();
    let b = Abv::from_str("5.004%").unwrap().unwrap();
    assert_eq!(a, b);
    assert_ne!(a.min, b.min);
    let c = Abv::from_str("5.009%").unwrap().unwrap();
    let d = Abv::from_str("5.010%").unwrap().unwrap();
    assert_ne!(c, d);
    let e = Abv::from_str("~5.001%").unwrap().unwrap();
    assert_ne!(a, e);
    let f = Abv::from_str("5.001-6%").unwrap().unwrap();
    assert_ne!(a, f);
}

#[test]
fn twelve_ounces_in_milliliters() {
    let context = VolumeContext::from_str("12 oz").unwrap().unwrap();
    assert_eq!(context.volume.unit, VolumeUnit::FlOz);
    assert_eq!(context.volume.amount, ApproxF32::new(Decimal::from_micros(12_000_000), false));
    assert_eq!(context.volume_ml.unit, VolumeUnit::mL);
    assert_eq!(context.volume_ml.amount, ApproxF32::new(Decimal::from_micros(354_882_000), false));
    assert!((context.volume_ml.amount.num.micros as f64 / 1e6 - 354.88).abs() < 0.005);
}

#[test]
fn five_hundred_milliliters_stay() {
    let context = VolumeContext::from_str("500ml").unwrap().unwrap();
    assert_eq!(context.volume.unit, VolumeUnit::mL);
    assert_eq!(context.volume.amount, ApproxF32::new(Decimal::from_micros(500_000_000), false));
    assert_eq!(context.volume_ml, context.volume);
}

#[test]
fn volume_units_are_read_in_any_case() {
    let context = VolumeContext::from_str("~33 cL").unwrap().unwrap();
    assert_eq!(context.volume.unit, VolumeUnit::cL);
    assert_eq!(context.volume.amount, ApproxF32::new(Decimal::from_micros(33_000_000), true));
    assert_eq!(context.volume_ml.amount, ApproxF32::new(Decimal::from_micros(330_000_000), true));
    let context = VolumeContext::from_str("16 OZ").unwrap().unwrap();
    assert_eq!(context.volume.unit, VolumeUnit::FlOz);
    let context = VolumeContext::from_str("0.5 ML").unwrap().unwrap();
    assert_eq!(context.volume.unit, VolumeUnit::mL);
}

#[test]
fn unknown_volume_unit_is_an_error_that_carries_the_unit() {
    assert_eq!(
        VolumeContext::from_str("12 Pints"),
        Err(Error::UnknownVolumeUnit("pints".to_string()))
    );
    assert_eq!(VolumeContext::from_str("12 fl oz"), Err(Error::UnknownVolumeUnit("fl".to_string())));
    let entry = RawEntry {
        date: None,
        quantity: None,
        name: None,
        abv: None,
        volume: Some("3 cups".to_string()),
    };
    assert_eq!(VolumeContext::from_entry(&entry), Err(Error::UnknownVolumeUnit("cups".to_string())));
}

#[test]
fn volume_without_shape_is_no_volume() {
    assert_eq!(VolumeContext::from_str("a lot"), Ok(None));
    assert_eq!(VolumeContext::from_str("12"), Ok(None));
    assert_eq!(VolumeContext::from_str("1 l"), Ok(None));
    assert_eq!(VolumeContext::from_str(""), Ok(None));
    assert_eq!(VolumeContext::from_groups(&None), Ok(None));
    let entry = RawEntry { date: None, quantity: None, name: None, abv: None, volume: None };
    assert_eq!(VolumeContext::from_entry(&entry), Ok(None));
    let groups = Some(vec![None, Some("12".to_string()), Some(" ".to_string())]);
    assert_eq!(VolumeContext::from_groups(&groups), Ok(None));
}

#[test]
fn liter_is_known_where_the_groups_name_it() {
    let groups = Some(vec![None, Some("~1.5".to_string()), Some("L".to_string())]);
    let context = VolumeContext::from_groups(&groups).unwrap().unwrap();
    assert_eq!(context.volume.unit, VolumeUnit::L);
    assert_eq!(context.volume_ml.amount, ApproxF32::new(Decimal::from_micros(1_500_000_000), true));
    let groups = Some(vec![None, Some("2".to_string()), Some("Fl Oz".to_string())]);
    let context = VolumeContext::from_groups(&groups).unwrap().unwrap();
    assert_eq!(context.volume.unit, VolumeUnit::FlOz);
    assert_eq!(context.volume_ml.amount.num, Decimal::from_micros(59_147_000));
}

#[test]
fn volume_with_unreadable_amount_is_an_error() {
    let groups = Some(vec![None, Some("many".to_string()), Some("ml".to_string())]);
    assert_eq!(VolumeContext::from_groups(&groups), Err(Error::InvalidNumber));
}

#[test]
fn volume_prints_in_its_own_unit() {
    assert_eq!(VolumeContext::from_str("12 oz").unwrap().unwrap().print(), "12.00 fl oz");
    assert_eq!(VolumeContext::from_str("~500ml").unwrap().unwrap().print(), "~500.00 mL");
    assert_eq!(VolumeContext::from_str("33 cl").unwrap().unwrap().print(), "33.00 cL");
    let liters = LiquidVolume {
        amount: ApproxF32::new(Decimal::from_micros(750_000), true),
        unit: VolumeUnit::L,
    };
    let context = VolumeContext { volume: liters, volume_ml: liters.to_ml() };
    assert_eq!(context.print(), "~0.75 L");
}

#[test]
fn volume_is_read_from_its_tokens() {
    let text = |value: &str| Some(value.to_string());
    let context = VolumeContext::from_tokens(text("12"), text("oz"), "oz").unwrap().unwrap();
    assert_eq!(context.volume.unit, VolumeUnit::FlOz);
    assert_eq!(context.volume.amount, ApproxF32::new(Decimal::from_micros(12_000_000), false));
    assert_eq!(context.volume_ml.unit, VolumeUnit::mL);
    assert_eq!(context.volume_ml.amount, ApproxF32::new(Decimal::from_micros(354_882_000), false));

    let context = VolumeContext::from_tokens(text("~1.5"), text("L"), "l").unwrap().unwrap();
    assert_eq!(context.volume.unit, VolumeUnit::L);
    assert_eq!(context.volume.amount, ApproxF32::new(Decimal::from_micros(1_500_000), true));
    assert_eq!(context.volume_ml.amount, ApproxF32::new(Decimal::from_micros(1_500_000_000), true));

    let context = VolumeContext::from_tokens(text("2"), text("Fl Oz"), "fl oz").unwrap().unwrap();
    assert_eq!(context.volume.unit, VolumeUnit::FlOz);
    let context = VolumeContext::from_tokens(text("500"), text("ml"), "ml").unwrap().unwrap();
    assert_eq!(context.volume, context.volume_ml);
    let context = VolumeContext::from_tokens(text("33"), text("cl"), "cl").unwrap().unwrap();
    assert_eq!(context.volume_ml.amount.num, Decimal::from_micros(330_000_000));
}

#[test]
fn volume_tokens_are_refused_or_absent() {
    let text = |value: &str| Some(value.to_string());
    assert_eq!(VolumeContext::from_tokens(None, text("oz"), "oz"), Ok(None));
    assert_eq!(VolumeContext::from_tokens(text("12"), None, ""), Ok(None));
    assert_eq!(VolumeContext::from_tokens(text("12"), None, "oz"), Ok(None));
    assert_eq!(VolumeContext::from_tokens(None, None, ""), Ok(None));
    assert_eq!(
        VolumeContext::from_tokens(text("many"), text("oz"), "oz"),
        Err(Error::InvalidNumber)
    );
    assert_eq!(
        VolumeContext::from_tokens(text("many"), text("pints"), "pints"),
        Err(Error::InvalidNumber)
    );
    assert_eq!(
        VolumeContext::from_tokens(text("12"), text("Pints"), "pints"),
        Err(Error::UnknownVolumeUnit("Pints".to_string()))
    );
    assert_eq!(
        VolumeContext::from_tokens(text("12"), text("oz"), "OZ"),
        Err(Error::UnknownVolumeUnit("oz".to_string()))
    );
    assert_eq!(
        VolumeContext::from_tokens(text("12"), text("oz"), ""),
        Err(Error::UnknownVolumeUnit("oz".to_string()))
    );
}
