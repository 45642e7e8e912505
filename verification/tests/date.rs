use imperator_save::date::month_day_from_julian;
use imperator_save::ImperatorDate;

#[test]
fn test_date_roundtrip() {
    let date = ImperatorDate::parse_from_str("1400.1.2").unwrap();
    assert_eq!(date.iso_8601(), String::from("1400-01-02"));
}

#[test]
fn test_imperator_fmt() {
    let test_cases = [
        "1400.1.2",
        "1457.3.5",
        "1.1.1",
        "1444.11.11",
        "1444.11.30",
        "1444.2.19",
    ];

    for case in &test_cases {
        let date = ImperatorDate::parse_from_str(case).unwrap();
        assert_eq!(date.imperator_fmt(), case.to_string());
    }
}

#[test]
fn test_first_bin_date() {
    let date = ImperatorDate::from_i32(56379360).unwrap();
    assert_eq!(date.iso_8601(), String::from("1436-01-01"));
}

#[test]
fn test_november_date_regression() {
    let date = ImperatorDate::from_i32(56379360).unwrap().add_days(303);
    assert_eq!(date.iso_8601(), String::from("1436-10-31"));
    let date = ImperatorDate::from_i32(56379360).unwrap().add_days(304);
    assert_eq!(date.iso_8601(), String::from("1436-11-01"));
    let date = ImperatorDate::from_i32(56379360)
        .unwrap()
        .add_days(303 - 30);
    assert_eq!(date.iso_8601(), String::from("1436-10-01"));
    let date = ImperatorDate::from_i32(56379360)
        .unwrap()
        .add_days(303 - 31);
    assert_eq!(date.iso_8601(), String::from("1436-09-30"));
    let date = ImperatorDate::from_i32(56379360)
        .unwrap()
        .add_days(303 - 31 - 29);
    assert_eq!(date.iso_8601(), String::from("1436-09-01"));
    let date = ImperatorDate::from_i32(56379360)
        .unwrap()
        .add_days(303 - 31 - 30);
    assert_eq!(date.iso_8601(), String::from("1436-08-31"));
}

#[test]
fn test_past_leap_year_bin_date() {
    let date = ImperatorDate::from_i32(59611248).unwrap();
    assert_eq!(date.iso_8601(), String::from("1804-12-09"));
}

#[test]
fn test_early_leap_year_bin_date() {
    let date = ImperatorDate::from_i32(57781584).unwrap();
    assert_eq!(date.iso_8601(), String::from("1596-01-27"));
}

#[test]
fn test_non_leap_year_bin_date() {
    let date = ImperatorDate::from_i32(57775944).unwrap();
    assert_eq!(date.iso_8601(), String::from("1595-06-06"));
}

#[test]
fn test_early_date() {
    let date = ImperatorDate::from_i32(43808760).unwrap();
    assert_eq!(date.iso_8601(), String::from("0001-01-01"));
}

#[test]
fn test_days_until() {
    let date = ImperatorDate::parse_from_str("1400.1.2").unwrap();
    let date2 = ImperatorDate::parse_from_str("1400.1.3").unwrap();
    assert_eq!(1, date.days_until(&date2));
}

#[test]
fn test_days_until2() {
    let date = ImperatorDate::parse_from_str("1400.1.2").unwrap();
    let date2 = ImperatorDate::parse_from_str("1401.1.2").unwrap();
    assert_eq!(365, date.days_until(&date2));
}

#[test]
fn test_days_until3() {
    let date = ImperatorDate::parse_from_str("1400.1.1").unwrap();
    let date2 = ImperatorDate::parse_from_str("1401.12.31").unwrap();
    assert_eq!(729, date.days_until(&date2));
}

#[test]
fn test_days_until4() {
    let date = ImperatorDate::parse_from_str("1400.1.2").unwrap();
    let date2 = ImperatorDate::parse_from_str("1400.1.2").unwrap();
    assert_eq!(0, date.days_until(&date2));
}

#[test]
fn test_days_until5() {
    let date = ImperatorDate::parse_from_str("1400.1.1").unwrap();
    let date2 = ImperatorDate::parse_from_str("1401.12.31").unwrap();
    assert_eq!(-729, date2.days_until(&date));
}

#[test]
fn test_add_days() {
    let date = ImperatorDate::parse_from_str("1400.1.2").unwrap();
    let actual = date.add_days(1);
    let expected = ImperatorDate::parse_from_str("1400.1.3").unwrap();
    assert_eq!(actual, expected);
}

#[test]
fn test_add_days2() {
    let date = ImperatorDate::parse_from_str("1400.1.2").unwrap();
    let actual = date.add_days(365);
    let expected = ImperatorDate::parse_from_str("1401.1.2").unwrap();
    assert_eq!(actual, expected);
}

#[test]
fn test_add_days3() {
    let date = ImperatorDate::parse_from_str("1400.1.1").unwrap();
    let actual = date.add_days(729);
    let expected = ImperatorDate::parse_from_str("1401.12.31").unwrap();
    assert_eq!(actual, expected);
}

#[test]
fn test_add_days4() {
    let date = ImperatorDate::parse_from_str("1400.1.2").unwrap();
    let actual = date.add_days(0);
    let expected = ImperatorDate::parse_from_str("1400.1.2").unwrap();
    assert_eq!(actual, expected);
}

#[test]
fn test_all_days() {
    let start = ImperatorDate::parse_from_str("1400.1.1").unwrap();
    for i in 0..364 {
        let (month, day) = month_day_from_julian(i);
        let next = ImperatorDate::parse_from_str(&format!("1400.{}.{}", month, day)).unwrap();
        assert_eq!(start.add_days(i), next);
        assert_eq!(start.days_until(&next), i);
    }
}

#[test]
fn test_cmp() {
    let date = ImperatorDate::parse_from_str("1457.3.5").unwrap();
    let date2 = ImperatorDate::parse_from_str("1457.3.4").unwrap();
    assert!(date2 < date);
}

#[test]
fn new_takes_the_days_of_the_calendar() {
    assert_eq!(
        ImperatorDate::new(1444, 11, 11),
        ImperatorDate::parse_from_str("1444.11.11")
    );
    assert_eq!(
        ImperatorDate::new(800, 5, 3),
        ImperatorDate::parse_from_str("800.5.3")
    );
    assert!(ImperatorDate::new(800, 0, 3).is_none());
    assert!(ImperatorDate::new(800, 1, 0).is_none());
    assert!(ImperatorDate::new(800, 13, 1).is_none());
    assert!(ImperatorDate::new(800, 12, 32).is_none());
    assert!(ImperatorDate::new(2020, 2, 29).is_none());
    assert!(ImperatorDate::new(0, 1, 1).is_none());
    assert!(ImperatorDate::new(1, 1, 1).is_some());
    assert!(ImperatorDate::new(65535, 12, 31).is_some());
    let lengths = [31, 28, 31, 30, 31, 30, 31, 31, 30, 31, 30, 31];
    for (month, length) in (1u8..).zip(lengths) {
        assert!(ImperatorDate::new(1400, month, length).is_some());
        assert!(ImperatorDate::new(1400, month, length + 1).is_none());
    }
}

#[test]
fn parts_of_a_date() {
    let date = ImperatorDate::parse_from_str("1445.02.03").unwrap();
    assert_eq!(date.year(), 1445);
    assert_eq!(date.month(), 2);
    assert_eq!(date.day(), 3);
}

#[test]
fn parse_refuses_what_is_no_date() {
    for text in [
        "",
        "1444",
        "1444.11",
        "1444.11.",
        "1444..11",
        ".11.11",
        "1444.11.11.",
        "1444.11.11.1",
        "800.0.3",
        "2020.2.29",
        "0.1.1",
        "1444-11-11",
        "1444.11.1a",
        "a444.11.11",
        "+1444.11.11",
        "1444.+11.11",
        "-1444.11.11",
        "1444.11.11 ",
        " 1444.11.11",
        "18446744073709551616.1.1",
        "1444.13.1",
        "1444.12.32",
    ] {
        assert_eq!(ImperatorDate::parse_from_str(text), None, "{:?}", text);
    }
}

#[test]
fn parse_refuses_parts_that_are_out_of_range() {
    for text in [
        "65536.1.1",
        "65537.1.1",
        "1444.257.1",
        "1400.257.258",
        "1400.256.1",
        "1400.1.256",
        "1400.1.257",
        "1400.13.1",
        "1400.1.32",
        "4294967297.1.1",
        "18446744073709551615.1.1",
        "1.18446744073709551615.1",
        "1.1.18446744073709551615",
        "18446744073709551616.1.1",
    ] {
        assert_eq!(ImperatorDate::parse_from_str(text), None, "{:?}", text);
    }
    assert_eq!(ImperatorDate::parse_iso_8601("65537-01-01"), None);
    assert_eq!(ImperatorDate::parse_iso_8601("1444-257-01"), None);
    assert_eq!(
        ImperatorDate::parse_from_str("65535.12.31"),
        ImperatorDate::new(65535, 12, 31)
    );
}

#[test]
fn parse_takes_leading_zeros() {
    assert_eq!(
        ImperatorDate::parse_from_str("0001444.011.0011"),
        ImperatorDate::new(1444, 11, 11)
    );
    assert_eq!(
        ImperatorDate::parse_from_str("00000000000000000000001444.11.11"),
        ImperatorDate::new(1444, 11, 11)
    );
}

#[test]
fn iso_8601_is_read_back() {
    for (year, month, day, text) in [
        (1444u16, 11u8, 11u8, "1444-11-11"),
        (1, 1, 1, "0001-01-01"),
        (65535, 12, 31, "65535-12-31"),
        (800, 5, 3, "0800-05-03"),
    ] {
        let date = ImperatorDate::new(year, month, day).unwrap();
        assert_eq!(date.iso_8601(), text);
        assert_eq!(date.iso_8601_bytes(), text.as_bytes().to_vec());
        assert_eq!(ImperatorDate::parse_iso_8601(text), Some(date));
        assert_eq!(ImperatorDate::parse_from_str(&date.imperator_fmt()), Some(date));
        assert_eq!(date.game_fmt(), date.imperator_fmt().into_bytes());
    }
    assert_eq!(ImperatorDate::parse_iso_8601("1444.11.11"), None);
    assert_eq!(ImperatorDate::parse_iso_8601("1444-02-29"), None);
}

#[test]
fn every_date_of_some_years_is_read_back() {
    for year in [1u16, 9, 10, 99, 100, 999, 1000, 9999, 10000, 65535] {
        let start = ImperatorDate::new(year, 1, 1).unwrap();
        for i in 0..365 {
            let date = start.add_days(i);
            assert_eq!(start.days_until(&date), i);
            assert_eq!(date.add_days(-i), start);
            assert_eq!(ImperatorDate::parse_from_str(&date.imperator_fmt()), Some(date));
            assert_eq!(ImperatorDate::parse_iso_8601(&date.iso_8601()), Some(date));
        }
    }
}

#[test]
fn add_days_and_days_until_undo_each_other() {
    let date = ImperatorDate::new(1444, 11, 11).unwrap();
    for k in [-3650, -366, -365, -1, 0, 1, 50, 365, 3650] {
        assert_eq!(date.add_days(k).days_until(&date), -k);
    }
    assert_eq!(date.days(), 1444 * 365 + 304 + 10);
    assert_eq!(ImperatorDate::new(1, 1, 1).unwrap().days(), 365);
}

#[test]
fn binary_dates() {
    assert_eq!(ImperatorDate::from_i32(43808760), ImperatorDate::new(1, 1, 1));
    assert_eq!(ImperatorDate::from_i32(43808759), None);
    assert_eq!(ImperatorDate::from_i32(43808783), ImperatorDate::new(1, 1, 1));
    assert_eq!(ImperatorDate::from_i32(43808784), ImperatorDate::new(1, 1, 2));
    assert_eq!(ImperatorDate::from_i32(0), None);
    assert_eq!(ImperatorDate::from_i32(-1), None);
    assert_eq!(ImperatorDate::from_i32(i32::MIN), None);
    assert_eq!(ImperatorDate::from_i32(i32::MAX), None);
    // the last day of the calendar, at its last hour
    let last = ((65535 + 5000) * 365 + 364) * 24 + 23;
    assert_eq!(ImperatorDate::from_i32(last), ImperatorDate::new(65535, 12, 31));
    assert_eq!(ImperatorDate::from_i32(last + 1), None);
}

#[test]
fn binary_dates_that_are_plausible() {
    assert_eq!(
        ImperatorDate::from_binary_heuristic(56379360),
        ImperatorDate::new(1436, 1, 1)
    );
    assert_eq!(
        ImperatorDate::from_binary_heuristic(43808760),
        ImperatorDate::new(1, 1, 1)
    );
    assert_eq!(ImperatorDate::from_binary_heuristic(43808759), None);
    assert_eq!(ImperatorDate::from_binary_heuristic(2), None);
    let last = ((32767 + 5000) * 365 + 364) * 24 + 23;
    assert_eq!(
        ImperatorDate::from_binary_heuristic(last),
        ImperatorDate::new(32767, 12, 31)
    );
    assert_eq!(ImperatorDate::from_binary_heuristic(last + 1), None);
    assert_eq!(
        ImperatorDate::from_i32(last + 1),
        ImperatorDate::new(32768, 1, 1)
    );
}

#[test]
fn dates_are_ordered_by_year_month_and_day() {
    let dates = [
        ImperatorDate::new(1, 12, 31).unwrap(),
        ImperatorDate::new(2, 1, 1).unwrap(),
        ImperatorDate::new(2, 1, 2).unwrap(),
        ImperatorDate::new(2, 2, 1).unwrap(),
        ImperatorDate::new(300, 1, 1).unwrap(),
    ];
    for (i, a) in dates.iter().enumerate() {
        for (j, b) in dates.iter().enumerate() {
            assert_eq!(a < b, i < j);
            assert_eq!(a <= b, i <= j);
            assert_eq!(a == b, i == j);
            assert_eq!(a.cmp(b), i.cmp(&j));
            assert_eq!(a.partial_cmp(b), Some(i.cmp(&j)));
            assert_eq!(a.days() < b.days(), i < j);
        }
    }
}

#[test]
fn month_and_day_of_each_day_of_the_year() {
    assert_eq!(month_day_from_julian(0), (1, 1));
    assert_eq!(month_day_from_julian(30), (1, 31));
    assert_eq!(month_day_from_julian(31), (2, 1));
    assert_eq!(month_day_from_julian(58), (2, 28));
    assert_eq!(month_day_from_julian(59), (3, 1));
    assert_eq!(month_day_from_julian(333), (11, 30));
    assert_eq!(month_day_from_julian(334), (12, 1));
    assert_eq!(month_day_from_julian(364), (12, 31));
}
