use investments::types::{with_decimal_point, Date, Decimal};

fn dec(mantissa: i128, scale: u32) -> Decimal {
    Decimal { mantissa, scale }
}

#[test]
fn calendar_dates_have_day_numbers() {
    assert_eq!(Date::from_ymd_opt(1, 1, 1), Some(Date { days: 1 }));
    assert_eq!(Date::from_ymd_opt(1970, 1, 1), Some(Date { days: 719_163 }));
    assert_eq!(Date::from_ymd_opt(2015, 2, 29), None);
    assert_eq!(Date::from_ymd_opt(2016, 2, 29).map(|d| d.days), Some(736_023));
    assert_eq!(Date::from_ymd_opt(2015, 0, 14), None);
    assert_eq!(Date::from_ymd_opt(2015, 4, 31), None);
}

#[test]
fn dates_are_parsed_under_a_format() {
    assert_eq!(Date::parse("02.09.2018", "%d.%m.%Y"), Date::from_ymd_opt(2018, 9, 2));
    assert_eq!(Date::parse("2018-09-02", "%Y-%m-%d"), Date::from_ymd_opt(2018, 9, 2));
    assert_eq!(Date::parse("31.02.2018", "%d.%m.%Y"), None);
    assert_eq!(Date::parse("yesterday", "%d.%m.%Y"), None);
}

#[test]
fn dates_are_written_under_a_format() {
    let date = Date::from_ymd_opt(2018, 9, 2).unwrap();
    assert_eq!(date.format("%d/%m/%Y"), Some("02/09/2018".to_owned()));
    assert_eq!(date.format("%d.%m.%Y"), Some("02.09.2018".to_owned()));
    assert_eq!(date.format("%Q"), None);
}

#[test]
fn year_of_a_date() {
    assert_eq!(Date::from_ymd_opt(2018, 12, 31).unwrap().year(), Some(2018));
    assert_eq!(Date::from_ymd_opt(2019, 1, 1).unwrap().year(), Some(2019));
    assert_eq!(Date { days: i32::MAX }.year(), None);
}

#[test]
fn next_and_previous_day() {
    let last = Date::from_ymd_opt(2018, 12, 31).unwrap();
    let first = Date::from_ymd_opt(2019, 1, 1).unwrap();
    assert_eq!(last.succ_opt(), Some(first));
    assert_eq!(first.pred_opt(), Some(last));
    assert_eq!(Date { days: i32::MAX }.succ_opt(), None);
    assert_eq!(Date { days: i32::MIN }.pred_opt(), None);
}

#[test]
fn decimals_are_parsed() {
    assert_eq!(Decimal::parse("68.0447"), Some(dec(680_447, 4)));
    assert_eq!(Decimal::parse("-1.50"), Some(dec(-150, 2)));
    assert_eq!(Decimal::parse("12"), Some(dec(12, 0)));
    assert_eq!(Decimal::parse("68,0447"), None);
    assert_eq!(Decimal::parse(""), None);
    assert_eq!(Decimal::parse("abc"), None);
}

#[test]
fn decimal_signs() {
    assert!(dec(0, 3).is_zero());
    assert!(dec(1, 3).is_positive() && !dec(1, 3).is_negative() && !dec(1, 3).is_zero());
    assert!(dec(-1, 3).is_negative() && !dec(-1, 3).is_positive());
    assert_eq!(dec(-150, 2).checked_neg(), Some(dec(150, 2)));
    assert_eq!(dec(i128::MIN, 0).checked_neg(), None);
}

#[test]
fn decimal_arithmetic() {
    assert_eq!(dec(15, 1).checked_add(dec(225, 2)), Some(dec(375, 2)));
    assert_eq!(dec(15, 1).checked_sub(dec(225, 2)), Some(dec(-75, 2)));
    assert_eq!(dec(680_447, 4).checked_div(dec(1, 0)), Some(dec(680_447, 4)));
    assert_eq!(dec(10, 0).checked_div(dec(4, 0)), Some(dec(250, 2)));
    assert_eq!(dec(10, 0).checked_div(dec(0, 0)), None);
    assert_eq!(dec(1, 29).checked_add(dec(1, 0)), None);
    let max = 79_228_162_514_264_337_593_543_950_335;
    assert_eq!(dec(max, 0).checked_add(dec(1, 0)), None);
}

#[test]
fn decimal_shortest_form() {
    assert_eq!(dec(150, 2).normalize(), dec(15, 1));
    assert_eq!(dec(-150, 2).normalize(), dec(-15, 1));
    assert_eq!(dec(-1500, 2).normalize(), dec(-15, 0));
    assert_eq!(dec(0, 5).normalize(), dec(0, 0));
    assert_eq!(dec(105, 2).normalize(), dec(105, 2));
    assert_eq!(dec(-25, 1).normalize(), dec(-25, 1));
    assert_eq!(dec(100, 0).normalize(), dec(100, 0));
}

#[test]
fn decimal_whole_numbers() {
    assert!(dec(300, 2).is_integer());
    assert!(!dec(301, 2).is_integer());
    assert!(dec(150, 2).same_value(dec(15, 1)));
    assert!(!dec(150, 2).same_value(dec(15, 2)));
    assert_eq!(dec(-300, 2).magnitude_u32(), Some(3));
    assert_eq!(dec(4_294_967_295, 0).magnitude_u32(), Some(u32::MAX));
    assert_eq!(dec(4_294_967_296, 0).magnitude_u32(), None);
    assert_eq!(dec(35, 1).magnitude_u32(), None);
}

#[test]
fn commas_become_points() {
    assert_eq!(with_decimal_point("68,0447"), "68.0447");
    assert_eq!(with_decimal_point("1,2,3"), "1.2.3");
    assert_eq!(with_decimal_point("12"), "12");
}

#[test]
fn decimals_in_whole_units() {
    assert_eq!(dec(100_000, 2).to_units(2), Some(100_000));
    assert_eq!(dec(1_000, 0).to_units(2), Some(100_000));
    assert_eq!(dec(-15, 1).to_units(2), Some(-150));
    assert_eq!(dec(1_500, 3).to_units(2), Some(150));
    assert_eq!(dec(1_501, 3).to_units(2), None);
    assert_eq!(dec(0, 7).to_units(0), Some(0));
    assert_eq!(dec(5, 0).to_units(0), Some(5));
    assert_eq!(dec(922_337_203_685_477_580, 0).to_units(1), Some(9_223_372_036_854_775_800));
    assert_eq!(dec(922_337_203_685_477_581, 0).to_units(1), None);
    assert_eq!(dec(-922_337_203_685_477_581, 0).to_units(1), None);
    assert_eq!(dec(i64::MAX as i128, 0).to_units(0), Some(i64::MAX));
    assert_eq!(dec(i64::MIN as i128, 0).to_units(0), Some(i64::MIN));
    assert_eq!(dec(i64::MAX as i128 + 1, 0).to_units(0), None);
    assert_eq!(dec(1, 0).to_units(40), None);
}

#[test]
fn days_end_with_the_calendar() {
    let last = Date::from_ymd_opt(262_142, 12, 31).unwrap();
    assert_eq!(last.succ_opt(), None);
    assert_eq!(last.pred_opt(), Date::from_ymd_opt(262_142, 12, 30));
    let first = Date::from_ymd_opt(-262_143, 1, 1).unwrap();
    assert_eq!(first.pred_opt(), None);
    assert_eq!(first.succ_opt(), Date::from_ymd_opt(-262_143, 1, 2));
}
