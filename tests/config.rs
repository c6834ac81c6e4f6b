use libscylla::config::{give_me_five, parse_start, CheckSettings, ConfigError, HttpMethod};

#[test]
fn default_team_timeout_is_five() {
    assert_eq!(give_me_five(), 5);
}

#[test]
fn recognised_http_methods() {
    let names = ["GET", "POST", "PUT", "DELETE", "HEAD", "OPTIONS", "CONNECT", "PATCH", "TRACE"];
    for n in names {
        let m = HttpMethod::from_name(n).unwrap();
        assert_eq!(m.0.as_str(), n);
    }
}

#[test]
fn invalid_http_methods() {
    for n in ["", "GE T", "GET/", "G\u{e9}T", "(GET)"] {
        assert!(matches!(HttpMethod::from_name(n), Err(ConfigError::InvalidMethod)));
    }
}

#[test]
fn round_start_is_month_day_year_utc() {
    assert_eq!(parse_start("01/02/2021 03:04"), Ok(1609556640));
    assert_eq!(parse_start("01/01/1970 00:00"), Ok(0));
}

#[test]
fn malformed_round_start() {
    assert_eq!(parse_start("2021-01-02 03:04"), Err(ConfigError::InvalidDate));
    assert_eq!(parse_start("13/02/2021 03:04"), Err(ConfigError::InvalidDate));
    assert_eq!(parse_start(""), Err(ConfigError::InvalidDate));
}

#[test]
fn zero_jitter_gives_the_interval() {
    let c = CheckSettings { interval: 30, jitter: 0, timeout: 5 };
    for _ in 0..20 {
        assert_eq!(c.get_interval(), 30);
    }
    let c = CheckSettings { interval: 30, jitter: -4, timeout: 5 };
    assert_eq!(c.get_interval(), 30);
}

#[test]
fn jittered_interval_stays_in_window() {
    let c = CheckSettings { interval: 30, jitter: 3, timeout: 5 };
    for _ in 0..200 {
        let d = c.get_interval();
        assert!((27..=33).contains(&d));
    }
}

#[test]
fn tick_delay_never_under_one_second() {
    let c = CheckSettings { interval: 0, jitter: 0, timeout: 5 };
    assert_eq!(c.get_interval(), 1);
    let c = CheckSettings { interval: 10, jitter: 0, timeout: 5 };
    assert_eq!(c.interval_with_offset(-20), 1);
    assert_eq!(c.interval_with_offset(-9), 1);
    assert_eq!(c.interval_with_offset(-8), 2);
    assert_eq!(c.interval_with_offset(5), 15);
}
