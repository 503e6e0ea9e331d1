use krl_pathfinder::error::AppErrorType;
use krl_pathfinder::timeofday::{parse_time_of_day, to_naive_time_hm, to_naive_time_hms, TimeOfDay};

fn hm_err(text: &str) -> AppErrorType {
    match to_naive_time_hm(text.to_string()) {
        Err(e) => e.error_type,
        Ok(t) => panic!("{} parsed as {}", text, t.secs),
    }
}

#[test]
fn parses_hours_and_minutes() {
    assert_eq!(to_naive_time_hm("09:30".to_string()).unwrap().secs, 34200);
    assert_eq!(to_naive_time_hm("9:30".to_string()).unwrap().secs, 34200);
    assert_eq!(to_naive_time_hm("00:00".to_string()).unwrap().secs, 0);
    assert_eq!(to_naive_time_hm("23:59".to_string()).unwrap().secs, 86340);
    assert_eq!(to_naive_time_hm("12:30:45".to_string()).unwrap().secs, 45000);
}

#[test]
fn parses_hours_minutes_seconds() {
    assert_eq!(to_naive_time_hms("12:30:45".to_string()).unwrap().secs, 45045);
    assert_eq!(to_naive_time_hms("23:59:59".to_string()).unwrap().secs, 86399);
    match to_naive_time_hms("12:30".to_string()) {
        Err(e) => assert_eq!(e.error_type, AppErrorType::InvalidTimeFormat),
        Ok(_) => panic!("seconds are missing"),
    }
    match to_naive_time_hms("12:30:60".to_string()) {
        Err(e) => assert_eq!(e.error_type, AppErrorType::InvalidTimeFormat),
        Ok(_) => panic!("second out of range"),
    }
}

#[test]
fn hour_without_minutes_is_invalid() {
    assert_eq!(hm_err("9:"), AppErrorType::InvalidTimeFormat);
}

#[test]
fn malformed_times_are_invalid() {
    assert_eq!(hm_err("9"), AppErrorType::InvalidTimeFormat);
    assert_eq!(hm_err(""), AppErrorType::InvalidTimeFormat);
    assert_eq!(hm_err("24:00"), AppErrorType::InvalidTimeFormat);
    assert_eq!(hm_err("12:60"), AppErrorType::InvalidTimeFormat);
    assert_eq!(hm_err("ab:10"), AppErrorType::InvalidTimeFormat);
    assert_eq!(hm_err("1 2:10"), AppErrorType::InvalidTimeFormat);
    assert_eq!(hm_err("99999999999:10"), AppErrorType::InvalidTimeFormat);
    let e = to_naive_time_hm("9:".to_string()).unwrap_err();
    assert_eq!(e.message(), "Invalid time format");
}

#[test]
fn time_arithmetic_wraps_at_midnight() {
    let t = TimeOfDay { secs: 86340 };
    assert_eq!(t.plus_seconds(120).secs, 60);
    assert_eq!(t.plus_seconds(0).secs, 86340);
    assert_eq!(TimeOfDay { secs: 100 }.plus_seconds(300).secs, 400);
    assert_eq!(TimeOfDay { secs: 100 }.seconds_since(&TimeOfDay { secs: 400 }), -300);
}

#[test]
fn parses_either_form() {
    assert_eq!(parse_time_of_day("07:05".to_string()).unwrap().secs, 7 * 3600 + 5 * 60);
    assert_eq!(parse_time_of_day("07:05:09".to_string()).unwrap().secs, 7 * 3600 + 5 * 60 + 9);
    let e = parse_time_of_day("07:05:x".to_string()).unwrap_err();
    assert_eq!(e.error_type, AppErrorType::InvalidTimeFormat);
    let e = to_naive_time_hms("9:".to_string()).unwrap_err();
    assert_eq!(e.message.unwrap(), "Invalid time format");
    assert!(e.cause.is_none());
}
