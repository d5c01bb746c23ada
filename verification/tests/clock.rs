use chrono::NaiveDate;
use cpu_load_simulator::clock::{parse_time, time_or_message, LocalDateTime, TimeOfDay};

#[test]
fn parse_time_reads_hours_and_minutes() {
    let t = parse_time("09:00").unwrap();
    assert_eq!(t.seconds_from_midnight(), 9 * 3600);
    assert_eq!(t.nanosecond(), 0);
    let t = parse_time("23:59").unwrap();
    assert_eq!(t.seconds_from_midnight(), 23 * 3600 + 59 * 60);
}

#[test]
fn parse_time_rejects_bad_text() {
    assert_eq!(
        parse_time("25:00").err().unwrap(),
        "时间格式错误: '25:00' (应为 HH:MM 格式)"
    );
    assert_eq!(
        parse_time("09:60").err().unwrap(),
        "时间格式错误: '09:60' (应为 HH:MM 格式)"
    );
    assert_eq!(parse_time("").err().unwrap(), "时间格式错误: '' (应为 HH:MM 格式)");
}

#[test]
fn time_or_message_passes_time_through() {
    let t = TimeOfDay::from_hour_minute(7, 5).unwrap();
    assert_eq!(time_or_message(Some(t), "07:05"), Ok(t));
    assert_eq!(
        time_or_message(None, "abc").err().unwrap(),
        "时间格式错误: 'abc' (应为 HH:MM 格式)"
    );
}

#[test]
fn time_of_day_ranges() {
    assert!(TimeOfDay::from_seconds_and_nanos(86_399, 999_999_999).is_some());
    assert!(TimeOfDay::from_seconds_and_nanos(86_400, 0).is_none());
    assert!(TimeOfDay::from_seconds_and_nanos(59, 1_000_000_000).is_some());
    assert!(TimeOfDay::from_seconds_and_nanos(58, 1_000_000_000).is_none());
    assert!(TimeOfDay::from_seconds_and_nanos(59, 2_000_000_000).is_none());
    assert!(TimeOfDay::from_hour_minute(24, 0).is_none());
    assert!(TimeOfDay::from_hour_minute(23, 60).is_none());
}

#[test]
fn time_order_is_seconds_then_fraction() {
    let a = TimeOfDay::from_seconds_and_nanos(100, 5).unwrap();
    let b = TimeOfDay::from_seconds_and_nanos(100, 6).unwrap();
    let c = TimeOfDay::from_seconds_and_nanos(101, 0).unwrap();
    assert!(a.is_before(&b));
    assert!(b.is_before(&c));
    assert!(!b.is_before(&a));
    assert!(!a.is_before(&a));
}

#[test]
fn weekday_comes_from_the_date() {
    let t = TimeOfDay::from_hour_minute(12, 0).unwrap();
    // 2024-10-21 is a Monday, 2024-10-27 a Sunday
    assert_eq!(LocalDateTime::new(2024, 10, 21, t).unwrap().weekday_from_monday(), 0);
    assert_eq!(LocalDateTime::new(2024, 10, 27, t).unwrap().weekday_from_monday(), 6);
    assert_eq!(LocalDateTime::new(2000, 1, 1, t).unwrap().weekday_from_monday(), 5);
}

#[test]
fn dates_that_do_not_exist_are_refused() {
    let t = TimeOfDay::from_hour_minute(12, 0).unwrap();
    assert!(LocalDateTime::new(2023, 2, 29, t).is_none());
    assert!(LocalDateTime::new(2024, 2, 29, t).is_some());
    assert!(LocalDateTime::new(1900, 2, 29, t).is_none());
    assert!(LocalDateTime::new(2000, 2, 29, t).is_some());
    assert!(LocalDateTime::new(2024, 4, 31, t).is_none());
    assert!(LocalDateTime::new(2024, 13, 1, t).is_none());
    assert!(LocalDateTime::new(2024, 1, 0, t).is_none());
    assert!(LocalDateTime::new(262_142, 12, 31, t).is_some());
    assert!(LocalDateTime::new(262_143, 1, 1, t).is_none());
    assert!(LocalDateTime::new(-262_143, 1, 1, t).is_some());
    assert!(LocalDateTime::new(-262_144, 12, 31, t).is_none());
}

#[test]
fn date_text_matches_chrono_format() {
    let t = TimeOfDay::from_hour_minute(12, 0).unwrap();
    for (y, m, d) in [(2024, 10, 21), (5, 1, 2), (-5, 3, 4), (10_000, 12, 31), (999, 7, 9), (-262_143, 1, 1), (262_142, 12, 31)] {
        let text = NaiveDate::from_ymd_opt(y, m, d).unwrap().format("%Y-%m-%d").to_string();
        let moment = LocalDateTime::new(y, m, d, t).unwrap();
        assert!(moment.date_is(&text), "{}", text);
    }
}

#[test]
fn date_text_examples() {
    let t = TimeOfDay::from_hour_minute(0, 0).unwrap();
    assert!(LocalDateTime::new(2024, 1, 5, t).unwrap().date_is("2024-01-05"));
    assert!(!LocalDateTime::new(2024, 1, 5, t).unwrap().date_is("2024-1-5"));
    assert!(!LocalDateTime::new(2024, 1, 5, t).unwrap().date_is("2024-01-05 "));
    assert!(LocalDateTime::new(5, 1, 2, t).unwrap().date_is("0005-01-02"));
    assert!(LocalDateTime::new(-5, 1, 2, t).unwrap().date_is("-0005-01-02"));
    assert!(LocalDateTime::new(10_000, 1, 2, t).unwrap().date_is("+10000-01-02"));
}

/// The `%H:%M` grammar stated in `hour_minute_fields`, written out for comparison.
fn grammar_seconds(text: &str) -> Option<u32> {
    let t: Vec<char> = text.chars().collect();
    let mut i = 0;
    while i < t.len() && t[i].is_whitespace() {
        i += 1;
    }
    let take_digits = |i: usize| -> usize {
        if i < t.len() && t[i].is_ascii_digit() {
            if i + 1 < t.len() && t[i + 1].is_ascii_digit() { 2 } else { 1 }
        } else {
            0
        }
    };
    let a = i;
    let b = a + take_digits(a);
    if b == a || b >= t.len() || t[b] != ':' {
        return None;
    }
    let mut c = b + 1;
    while c < t.len() && t[c].is_whitespace() {
        c += 1;
    }
    let d = c + take_digits(c);
    if d == c || d != t.len() {
        return None;
    }
    let value = |s: &[char]| s.iter().fold(0u32, |v, ch| v * 10 + ch.to_digit(10).unwrap());
    let (hour, minute) = (value(&t[a..b]), value(&t[c..d]));
    if hour < 24 && minute < 60 { Some(hour * 3600 + minute * 60) } else { None }
}

#[test]
fn parse_time_follows_the_stated_grammar() {
    let texts = [
        "09:00", "9:00", "9:5", " 09:00", "\t09: 00", "09 :00", "09:00 ", "009:00", "09:000",
        "+9:00", "-9:00", "24:00", "23:59", "23:60", "00:00", ":00", "09:", "", "0900",
        "\u{3000}7:\u{a0}8", "１:00", "12:3a", "1:2:3",
    ];
    for text in texts {
        let got = parse_time(text).ok().map(|t| t.seconds_from_midnight());
        assert_eq!(got, grammar_seconds(text), "{:?}", text);
    }
}

#[test]
fn parse_time_lenient_forms() {
    assert_eq!(parse_time("9:5").unwrap().seconds_from_midnight(), 9 * 3600 + 5 * 60);
    assert_eq!(parse_time(" 07: 08").unwrap().seconds_from_midnight(), 7 * 3600 + 8 * 60);
    assert!(parse_time("09:00 ").is_err());
    assert!(parse_time("009:00").is_err());
}

/// Zeller's congruence as stated in `civil_weekday`, written out for comparison.
fn zeller(year: i64, month: i64, day: i64) -> i64 {
    let y = if month <= 2 { year - 1 } else { year };
    let m = if month <= 2 { month + 12 } else { month };
    let h = (day + (13 * (m + 1)).div_euclid(5) + y + y.div_euclid(4) - y.div_euclid(100)
        + y.div_euclid(400))
    .rem_euclid(7);
    (h + 5).rem_euclid(7)
}

#[test]
fn weekday_follows_zeller() {
    let t = TimeOfDay::from_hour_minute(0, 0).unwrap();
    let years = (-2100..2500).chain([-262_143, -262_000, -1, 0, 1, 100_000, 262_142]);
    for year in years {
        for month in 1..=12u32 {
            for day in [1u32, 13, 28] {
                let moment = LocalDateTime::new(year, month, day, t).unwrap();
                assert_eq!(
                    moment.weekday_from_monday() as i64,
                    zeller(year as i64, month as i64, day as i64),
                    "{}-{}-{}",
                    year,
                    month,
                    day
                );
            }
        }
    }
    let date = NaiveDate::from_ymd_opt(2024, 2, 29).unwrap();
    assert_eq!(zeller(2024, 2, 29), chrono::Datelike::weekday(&date).num_days_from_monday() as i64);
}

#[test]
fn date_string_is_chrono_text() {
    let t = TimeOfDay::from_hour_minute(0, 0).unwrap();
    assert_eq!(LocalDateTime::new(2024, 10, 21, t).unwrap().date_string(), "2024-10-21");
    assert_eq!(LocalDateTime::new(-5, 1, 2, t).unwrap().date_string(), "-0005-01-02");
}
