use chrono::NaiveDate;
use qrbill::billing_infos::swico::date::Date;
use qrbill::billing_infos::swico::syntax::{check_period, is_date_ok, SyntaxValidatorError};

#[test]
fn single_dates() {
    assert_eq!(is_date_ok("230101"), Ok(()));
    assert_eq!(is_date_ok("230101"), Ok(()));
    assert_eq!(is_date_ok("000229"), Ok(()));
    assert_eq!(is_date_ok("991231"), Ok(()));
}

#[test]
fn dates_that_do_not_exist() {
    assert!(matches!(is_date_ok("230230"), Err(SyntaxValidatorError::FromNaiveDateParse(_))));
    assert!(matches!(is_date_ok("231301"), Err(SyntaxValidatorError::FromNaiveDateParse(_))));
    assert!(matches!(is_date_ok("230100"), Err(SyntaxValidatorError::FromNaiveDateParse(_))));
    assert!(matches!(is_date_ok("23010a"), Err(SyntaxValidatorError::FromNaiveDateParse(_))));
    assert!(matches!(is_date_ok("abcdef"), Err(SyntaxValidatorError::FromNaiveDateParse(_))));
    assert!(matches!(is_date_ok("210229"), Err(SyntaxValidatorError::FromNaiveDateParse(_))));
}

#[test]
fn date_error_is_the_parser_s() {
    let expected = NaiveDate::parse_from_str("230230", "%y%m%d").unwrap_err();
    assert_eq!(is_date_ok("230230"), Err(SyntaxValidatorError::FromNaiveDateParse(expected)));
    let expected = NaiveDate::parse_from_str("abcdef", "%y%m%d").unwrap_err();
    assert_eq!(
        is_date_ok("230101abcdef"),
        Err(SyntaxValidatorError::FromNaiveDateParse(expected))
    );
}

#[test]
fn periods() {
    assert_eq!(is_date_ok("230101230201"), Ok(()));
    assert_eq!(is_date_ok("221231230101"), Ok(()));
    assert_eq!(
        is_date_ok("230201230101"),
        Err(SyntaxValidatorError::StartDateEndDate(
            "2023-02-01".to_string(),
            "2023-01-01".to_string()
        ))
    );
    assert_eq!(
        is_date_ok("230101230101"),
        Err(SyntaxValidatorError::StartDateEndDate(
            "2023-01-01".to_string(),
            "2023-01-01".to_string()
        ))
    );
}

#[test]
fn periods_across_the_century() {
    assert_eq!(is_date_ok("991231000101"), Ok(()));
    assert_eq!(
        is_date_ok("690101700101"),
        Err(SyntaxValidatorError::StartDateEndDate(
            "2069-01-01".to_string(),
            "1970-01-01".to_string()
        ))
    );
}

#[test]
fn period_with_a_bad_half() {
    assert!(matches!(
        is_date_ok("230101231301"),
        Err(SyntaxValidatorError::FromNaiveDateParse(_))
    ));
    assert!(matches!(
        is_date_ok("231301230101"),
        Err(SyntaxValidatorError::FromNaiveDateParse(_))
    ));
}

#[test]
fn other_lengths() {
    for text in ["", "2", "23010", "2301011", "20230101", "23010123020", "2301012302011", "abc"] {
        assert_eq!(
            is_date_ok(text),
            Err(SyntaxValidatorError::InvalidDateFormat(text.to_string())),
            "text {:?}",
            text
        );
    }
}

#[test]
fn length_counts_characters() {
    assert!(matches!(is_date_ok("é30101"), Err(SyntaxValidatorError::FromNaiveDateParse(_))));
    assert_eq!(
        is_date_ok("é3010"),
        Err(SyntaxValidatorError::InvalidDateFormat("é3010".to_string()))
    );
    assert!(matches!(
        is_date_ok("é30101230101"),
        Err(SyntaxValidatorError::FromNaiveDateParse(_))
    ));
}

#[test]
fn check_period_orders_days() {
    let a = Date::new(2023, 1, 31).unwrap();
    let b = Date::new(2023, 2, 1).unwrap();
    let c = Date::new(2024, 1, 1).unwrap();
    assert_eq!(check_period(&a, &b), Ok(()));
    assert_eq!(check_period(&b, &c), Ok(()));
    assert_eq!(check_period(&a, &c), Ok(()));
    assert_eq!(
        check_period(&b, &a),
        Err(SyntaxValidatorError::StartDateEndDate(
            "2023-02-01".to_string(),
            "2023-01-31".to_string()
        ))
    );
    assert_eq!(
        check_period(&c, &c),
        Err(SyntaxValidatorError::StartDateEndDate(
            "2024-01-01".to_string(),
            "2024-01-01".to_string()
        ))
    );
}

#[test]
fn new_date_agrees_with_chrono() {
    for year in [0, 1, 4, 100, 400, 1900, 1970, 2000, 2023, 2024, 2069, 2100, 9999] {
        for month in 0..14u32 {
            for day in 0..33u32 {
                let ours = Date::new(year, month, day);
                let theirs = NaiveDate::from_ymd_opt(year, month, day);
                assert_eq!(ours.is_some(), theirs.is_some(), "{}-{}-{}", year, month, day);
                if let (Some(ours), Some(theirs)) = (ours, theirs) {
                    assert_eq!(ours.iso_text(), theirs.to_string());
                    assert_eq!((ours.year(), ours.month(), ours.day()), (year, month, day));
                }
            }
        }
    }
    assert!(Date::new(-1, 1, 1).is_none());
    assert!(Date::new(10000, 1, 1).is_none());
}

#[test]
fn date_text() {
    assert_eq!(Date::new(2023, 1, 1).unwrap().iso_text(), "2023-01-01");
    assert_eq!(Date::new(987, 12, 31).unwrap().iso_text(), "0987-12-31");
    assert_eq!(Date::new(0, 2, 29).unwrap().iso_text(), "0000-02-29");
}

#[test]
fn is_before_agrees_with_chrono() {
    let days = [(1999, 12, 31), (2000, 1, 1), (2000, 1, 2), (2000, 2, 1), (2001, 1, 1), (2000, 12, 31)];
    for a in days {
        for b in days {
            let ours = Date::new(a.0, a.1, a.2).unwrap().is_before(&Date::new(b.0, b.1, b.2).unwrap());
            let theirs = NaiveDate::from_ymd_opt(a.0, a.1, a.2).unwrap()
                < NaiveDate::from_ymd_opt(b.0, b.1, b.2).unwrap();
            assert_eq!(ours, theirs, "{:?} {:?}", a, b);
        }
    }
}

fn full_year(yy: i32) -> i32 {
    if yy < 70 {
        2000 + yy
    } else {
        1900 + yy
    }
}

fn check_all_days_of_years(years: std::ops::Range<i32>) {
    for yy in years {
        for mm in 0..100u32 {
            for dd in 0..100u32 {
                let text = format!("{:02}{:02}{:02}", yy, mm, dd);
                let expected = Date::new(full_year(yy), mm, dd).is_some();
                let r = is_date_ok(&text);
                assert_eq!(r.is_ok(), expected, "text {:?}", text);
                if !expected {
                    assert!(
                        matches!(r, Err(SyntaxValidatorError::FromNaiveDateParse(_))),
                        "text {:?}",
                        text
                    );
                }
            }
        }
    }
}

#[test]
fn every_six_digits_from_00_to_24() {
    check_all_days_of_years(0..25);
}

#[test]
fn every_six_digits_from_25_to_49() {
    check_all_days_of_years(25..50);
}

#[test]
fn every_six_digits_from_50_to_74() {
    check_all_days_of_years(50..75);
}

#[test]
fn every_six_digits_from_75_to_99() {
    check_all_days_of_years(75..100);
}

#[test]
fn periods_follow_the_order_of_the_days() {
    let days = ["700101", "991231", "000101", "000229", "230101", "230131", "230201", "690101"];
    let dates = [
        (1970, 1, 1),
        (1999, 12, 31),
        (2000, 1, 1),
        (2000, 2, 29),
        (2023, 1, 1),
        (2023, 1, 31),
        (2023, 2, 1),
        (2069, 1, 1),
    ];
    for i in 0..days.len() {
        for j in 0..days.len() {
            let r = is_date_ok(&format!("{}{}", days[i], days[j]));
            if i < j {
                assert_eq!(r, Ok(()), "{} {}", days[i], days[j]);
            } else {
                let start = Date::new(dates[i].0, dates[i].1, dates[i].2).unwrap();
                let end = Date::new(dates[j].0, dates[j].1, dates[j].2).unwrap();
                assert_eq!(
                    r,
                    Err(SyntaxValidatorError::StartDateEndDate(start.iso_text(), end.iso_text())),
                    "{} {}",
                    days[i],
                    days[j]
                );
            }
        }
    }
}

#[test]
fn white_space_is_no_digit() {
    for text in ["23 1 1", " 23011", "2 3 01", "2301 1", "23\t1\n1", "\u{a0}23011"] {
        assert!(NaiveDate::parse_from_str(text, "%y%m%d").is_ok(), "text {:?}", text);
        assert_eq!(
            is_date_ok(text),
            Err(SyntaxValidatorError::InvalidDateFormat(text.to_string())),
            "text {:?}",
            text
        );
    }
    assert_eq!(
        is_date_ok("23 1 1230201"),
        Err(SyntaxValidatorError::InvalidDateFormat("23 1 1230201".to_string()))
    );
    assert_eq!(
        is_date_ok("230101 23 2 "),
        Err(SyntaxValidatorError::FromNaiveDateParse(
            NaiveDate::parse_from_str(" 23 2 ", "%y%m%d").unwrap_err()
        ))
    );
    assert_eq!(
        is_date_ok("230201 23 1 1"),
        Err(SyntaxValidatorError::InvalidDateFormat("230201 23 1 1".to_string()))
    );
    assert_eq!(
        is_date_ok("23020123 1 1"),
        Err(SyntaxValidatorError::StartDateEndDate(
            "2023-02-01".to_string(),
            "2023-01-01".to_string()
        ))
    );
}

#[test]
fn date_text_is_four_two_and_two_digits() {
    for year in [0, 7, 99, 100, 987, 1970, 2000, 2024, 2069, 9999] {
        for month in 1..=12u32 {
            for day in [1u32, 9, 10, 28] {
                let date = Date::new(year, month, day).unwrap();
                assert_eq!(date.iso_text(), format!("{:04}-{:02}-{:02}", year, month, day));
            }
        }
    }
}
