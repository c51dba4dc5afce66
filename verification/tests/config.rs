use poem_api::config::{parse_unsigned, truthy, Config};

fn s(v: &str) -> Option<String> {
    Some(v.to_string())
}

#[test]
fn defaults_when_nothing_is_set() {
    let c = Config::from_values(None, None, None, None, None, None, None);
    assert_eq!(c.host, "127.0.0.1");
    assert_eq!(c.port, 8080);
    assert_eq!(c.database_url, "sqlite://data/poems.db");
    assert_eq!(c.api_key, None);
    assert_eq!(c.rate_limit, 100);
    assert_eq!(c.rate_window_secs, 60);
    assert!(!c.trust_proxy);
}

#[test]
fn values_are_read() {
    let c = Config::from_values(
        s("0.0.0.0"),
        s("9000"),
        s("sqlite::memory:"),
        s("secret"),
        s("5"),
        s("30"),
        s(" TRUE "),
    );
    assert_eq!(c.host, "0.0.0.0");
    assert_eq!(c.port, 9000);
    assert_eq!(c.database_url, "sqlite::memory:");
    assert_eq!(c.api_key.as_deref(), Some("secret"));
    assert_eq!(c.rate_limit, 5);
    assert_eq!(c.rate_window_secs, 30);
    assert!(c.trust_proxy);
}

#[test]
fn bad_numbers_fall_back_to_defaults() {
    let c = Config::from_values(None, s("70000"), None, None, s("-1"), s("abc"), s("no"));
    assert_eq!(c.port, 8080);
    assert_eq!(c.rate_limit, 100);
    assert_eq!(c.rate_window_secs, 60);
    assert!(!c.trust_proxy);
}

#[test]
fn blank_api_key_means_open_mode() {
    let c = Config::from_values(None, None, None, s("  \t"), None, None, None);
    assert_eq!(c.api_key, None);
    let c = Config::from_values(None, None, None, s(""), None, None, None);
    assert_eq!(c.api_key, None);
}

#[test]
fn parse_unsigned_agrees_with_std() {
    let cases = ["0", "8080", "+12", "65535", "65536", "", "+", "-1", " 1", "1 ", "1_0", "00042", "٣", "99999999999999999999"];
    for c in cases {
        assert_eq!(parse_unsigned(c, u16::MAX as u64).map(|v| v as u16), c.parse::<u16>().ok(), "{c}");
        assert_eq!(parse_unsigned(c, u32::MAX as u64).map(|v| v as u32), c.parse::<u32>().ok(), "{c}");
        assert_eq!(parse_unsigned(c, u64::MAX), c.parse::<u64>().ok(), "{c}");
    }
    assert_eq!(parse_unsigned("18446744073709551615", u64::MAX), Some(u64::MAX));
    assert_eq!(parse_unsigned("18446744073709551616", u64::MAX), None);
}

#[test]
fn truthy_values() {
    for t in ["1", "true", "yes", "TRUE", "Yes", " true\n"] {
        assert!(truthy(t), "{t}");
    }
    for f in ["0", "false", "no", "", "y", "truee", "t rue"] {
        assert!(!truthy(f), "{f}");
    }
}
