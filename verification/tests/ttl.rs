//! Lifetimes, and when hits are written.

use servant::ttl::{
    coalesce_window, coarsen, format_expires_in, parse_ttl, readable, to_signed, two_largest, Duration,
    TouchDebouncer, Ttl,
};

#[test]
fn parses_units() {
    assert_eq!(
        Ttl::from_str("30s").unwrap(),
        Ttl::Duration(Duration::from_secs(30))
    );
    assert_eq!(
        Ttl::from_str("5m").unwrap(),
        Ttl::Duration(Duration::from_secs(300))
    );
    assert_eq!(
        Ttl::from_str("2h").unwrap(),
        Ttl::Duration(Duration::from_secs(7200))
    );
    assert_eq!(
        Ttl::from_str("24h").unwrap(),
        Ttl::Duration(Duration::from_secs(86_400))
    );
    assert_eq!(
        Ttl::from_str("7d").unwrap(),
        Ttl::Duration(Duration::from_secs(7 * 86_400))
    );
}

#[test]
fn never_case_insensitive() {
    assert_eq!(Ttl::from_str("never").unwrap(), Ttl::Never);
    assert_eq!(Ttl::from_str("NEVER").unwrap(), Ttl::Never);
    assert_eq!(Ttl::from_str("Never").unwrap(), Ttl::Never);
}

#[test]
fn rejects_zero() {
    assert!(Ttl::from_str("0s").is_err());
    assert!(Ttl::from_str("0m").is_err());
}

#[test]
fn rejects_unitless() {
    assert!(Ttl::from_str("60").is_err());
}

#[test]
fn rejects_negative() {
    assert!(Ttl::from_str("-5s").is_err());
    assert!(Ttl::from_str("-1").is_err());
}

#[test]
fn rejects_garbage() {
    assert!(Ttl::from_str("garbage").is_err());
    assert!(Ttl::from_str("").is_err());
    assert!(Ttl::from_str("  ").is_err());
}

#[test]
fn rejections_say_why() {
    let not_positive = "--ttl must be > 0 or 'never'";
    let no_unit = "--ttl requires an explicit unit (e.g. 30s, 5m, 2h)";
    let err = |s: &str| Ttl::from_str(s).unwrap_err();
    assert_eq!(err(""), not_positive);
    assert_eq!(err(" \t\n"), not_positive);
    assert_eq!(err("-5s"), not_positive);
    assert_eq!(err("500ms"), not_positive);
    assert_eq!(err("0s"), not_positive);
    assert_eq!(err("60"), no_unit);
    assert_eq!(err("-1"), no_unit);
    assert_eq!(err("--"), no_unit);
    assert_eq!(err("garbage"), "could not parse --ttl: expected number at 0");
    assert_eq!(
        err("5 parsecs").split(',').next(),
        Some("could not parse --ttl: unknown time unit \"parsecs\"")
    );
}

#[test]
fn space_around_a_lifetime_does_not_count() {
    assert_eq!(Ttl::from_str("  Never\n").unwrap(), Ttl::Never);
    assert_eq!(
        Ttl::from_str("\u{3000}1h 30m ").unwrap(),
        Ttl::Duration(Duration::from_secs(5400))
    );
}

#[test]
fn lifetimes_in_seconds() {
    assert_eq!(Ttl::Never.as_seconds(), None);
    assert_eq!(Ttl::Duration(Duration::from_secs(90)).as_seconds(), Some(90));
    assert_eq!(Ttl::Duration(Duration::from_millis(2500)).as_seconds(), Some(2));
    assert_eq!(
        Ttl::Duration(Duration::from_secs(u64::MAX)).as_seconds(),
        Some(-1)
    );
    assert_eq!(to_signed(1 << 63), i64::MIN);
}

#[test]
fn rendered_lifetimes_read_back() {
    assert_eq!(Ttl::Never.render(), "never");
    assert_eq!(Ttl::Duration(Duration::from_secs(5400)).render(), "1h 30m");
    let spans = [
        1u64,
        59,
        3600,
        86_400,
        2_630_016,
        31_557_600,
        31_557_599,
        123_456_789_012,
        315_576_000_000_000_000,
        u64::MAX,
    ];
    for secs in spans {
        for nanos in [0u32, 1, 500_000_000, 999_999_999] {
            let t = Ttl::Duration(Duration { secs, nanos });
            let text = t.render();
            assert!(readable(&text), "{text}");
            assert_eq!(Ttl::from_str(&text), Ok(t), "{text}");
        }
    }
    assert_eq!(Ttl::from_str(&Ttl::Never.render()), Ok(Ttl::Never));
}

#[test]
fn texts_at_the_limit_are_told_apart() {
    let largest = "18446744073709551615s";
    assert!(readable("never"));
    assert!(readable(&"7".repeat(50)));
    assert!(readable(largest));
    assert!(readable(&format!("{}s", "9".repeat(700))));
    assert!(readable(&"1s ".repeat(300)));
    assert!(readable("18446744073709551615s 999999999ns"));
    assert!(readable("18446744073709551615s 1s 1s"));
    assert!(readable("584554049253years 584554049253years"));
    // Exactly a second of nanoseconds on top of the largest number of seconds.
    for end in [
        "1000000000ns",
        "1000ms",
        "1000 ms",
        "999ms 1ms",
        "0.999s 1ms 5m",
        "999ms 1.5ms",
        "999ms 1.0000000001ms",
        "999.5ms 500us",
        "0.5s 0.5s",
        "1000ms 1parsec",
    ] {
        let text = format!("{largest} {end}");
        assert!(!readable(&text), "{text}");
        assert_eq!(
            parse_ttl(&text).unwrap_err(),
            format!(
                "could not parse --ttl: {}",
                humantime::parse_duration("18446744073709551615s 1s").unwrap_err()
            ),
            "{text}"
        );
    }
}

#[test]
fn long_lifetimes_are_read() {
    assert_eq!(
        Ttl::from_str("12345678901s 1s"),
        Ok(Ttl::Duration(Duration::from_secs(12_345_678_902)))
    );
    assert_eq!(
        parse_ttl("12345678901s 1s"),
        Ok(Ttl::Duration(Duration::from_secs(12_345_678_902)))
    );
    assert_eq!(
        parse_ttl(&"1s ".repeat(300)),
        Ok(Ttl::Duration(Duration::from_secs(300)))
    );
    assert_eq!(parse_ttl("1h"), Ok(Ttl::Duration(Duration::from_secs(3600))));
    assert_eq!(parse_ttl("1"), Ttl::from_str("1"));
    let ends = [
        "s", "s 1s", "s 2000ms", "s 1001ms", "s 1h 3q", "s 1.5h", "s 1 2ns", "s @", "s 0",
        "s 1.5nights", "s 1000ms@", "s 1.5ns", "s 999ms 1.@ms", "s 999ms 1.5.5ms", "s 0.5s 1s",
        "s 1000q", "s 999ms 0.5ms", "s 999.5ms",
    ];
    for end in ends {
        let text = format!("18446744073709551615{end}");
        let expected = humantime::parse_duration(&text)
            .map(|d| {
                Ttl::Duration(Duration {
                    secs: d.as_secs(),
                    nanos: d.subsec_nanos(),
                })
            })
            .map_err(|e| format!("could not parse --ttl: {e}"));
        assert_eq!(parse_ttl(&text), expected, "{text}");
    }
    // A single number that is too large is an error like any other.
    assert!(Ttl::from_str(&format!("{}s", "9".repeat(30)))
        .unwrap_err()
        .starts_with("could not parse --ttl: number is too large"));
}

#[test]
fn time_left_is_shown() {
    assert_eq!(format_expires_in(None), "never");
    assert_eq!(format_expires_in(Some(0)), "expired");
    assert_eq!(format_expires_in(Some(-5)), "expired");
    assert_eq!(format_expires_in(Some(1)), "in 1s");
    assert_eq!(format_expires_in(Some(59)), "in 59s");
    assert_eq!(format_expires_in(Some(61)), "in 1m 1s");
    assert_eq!(format_expires_in(Some(3599)), "in 59m 59s");
    assert_eq!(format_expires_in(Some(3600)), "in 1h");
    assert_eq!(format_expires_in(Some(3629)), "in 1h");
    assert_eq!(format_expires_in(Some(3630)), "in 1h 1m");
    assert_eq!(format_expires_in(Some(3659)), "in 1h 1m");
    assert_eq!(format_expires_in(Some(85_500)), "in 23h 45m");
    assert_eq!(format_expires_in(Some(86_399)), "in 1day");
}

#[test]
fn time_left_is_rounded_to_the_nearest_minute() {
    let shown = |s| coarsen(Duration::from_secs(s)).as_secs();
    assert_eq!(shown(3659), 3660);
    assert_eq!(shown(3629), 3600);
    assert_eq!(shown(3630), 3660);
    assert_eq!(shown(3599), 3599);
    assert_eq!(shown(61), 61);
    assert_eq!(shown(0), 1);
    assert_eq!(coarsen(Duration::from_millis(300)), Duration::from_secs(1));
    assert_eq!(shown(u64::MAX), u64::MAX - 15);
    assert_eq!(shown(u64::MAX - 16), u64::MAX - 15);
}

#[test]
fn time_left_has_at_most_two_units() {
    assert_eq!(format_expires_in(Some(93_780)), "in 1day 2h");
    assert_eq!(format_expires_in(Some(86_700)), "in 1day 5m");
    assert_eq!(format_expires_in(Some(604_799)), "in 7days");
    assert_eq!(format_expires_in(Some(604_740)), "in 6days 23h");
    assert_eq!(format_expires_in(Some(2_630_016 + 90_061)), "in 1month 1day");
    assert_eq!(
        format_expires_in(Some(31_557_600 + 2_630_016 + 90_061)),
        "in 1year 1month"
    );
    for s in [1i64, 100, 4000, 86_401, 200_000, 3_000_000, 40_000_000, i64::MAX] {
        let text = format_expires_in(Some(s));
        let units = text.strip_prefix("in ").unwrap();
        assert!(units.split(' ').count() <= 2, "{s}: {text}");
    }
    assert_eq!(two_largest(93_783), 93_600);
    assert_eq!(two_largest(0), 0);
    assert_eq!(two_largest(59), 59);
}

#[test]
fn coalescing_span_follows_the_lifetime() {
    let w = Duration::from_secs(30);
    assert_eq!(coalesce_window(w, 3600), w);
    assert_eq!(coalesce_window(w, 20), Duration::from_secs(10));
    assert_eq!(coalesce_window(w, 5), Duration::from_millis(2500));
    assert_eq!(coalesce_window(w, 2), Duration::from_secs(1));
    assert_eq!(coalesce_window(w, 1), Duration::from_secs(1));
    assert_eq!(coalesce_window(w, -7), Duration::from_secs(1));
    let short = Duration::from_millis(100);
    assert_eq!(coalesce_window(short, 2), short);
}

#[test]
fn hits_within_the_span_are_written_once() {
    let mut d = TouchDebouncer::spawn();
    assert!(d.touch(1, Some(20), Duration::from_secs(100)));
    assert!(!d.touch(1, Some(20), Duration::from_secs(109)));
    assert!(d.touch(2, Some(20), Duration::from_secs(109)));
    assert!(d.touch(1, Some(20), Duration::from_secs(110)));
    // A clock that went back is taken as no time at all.
    assert!(!d.touch(1, Some(20), Duration::from_secs(50)));
}

#[test]
fn never_is_not_written_down() {
    let mut d = TouchDebouncer::spawn_with(Duration::from_millis(50));
    for i in 0..5 {
        assert!(!d.touch(1, None, Duration::from_millis(20 * i)));
    }
    assert!(d.flush().is_empty());
}

#[test]
fn flush_names_each_registration_once() {
    let mut d = TouchDebouncer::spawn_with(Duration::from_secs(30));
    d.touch(3, Some(60), Duration::from_secs(1));
    d.touch(1, Some(60), Duration::from_secs(1));
    d.touch(3, Some(60), Duration::from_secs(40));
    let mut ids = d.flush();
    ids.sort();
    assert_eq!(ids, vec![1, 3]);
    assert!(d.flush().is_empty());
    assert!(d.touch(3, Some(60), Duration::from_secs(41)));
}

#[test]
fn sweeping_forgets_old_writes() {
    let mut d = TouchDebouncer::spawn_with(Duration::from_secs(30));
    d.touch(1, Some(600), Duration::from_secs(10));
    d.touch(2, Some(600), Duration::from_secs(40));
    d.sweep(Duration::from_secs(40));
    let mut ids = d.flush();
    ids.sort();
    assert_eq!(ids, vec![1, 2]);
    d.touch(1, Some(600), Duration::from_secs(10));
    d.touch(2, Some(600), Duration::from_secs(40));
    d.sweep(Duration::from_secs(41));
    assert_eq!(d.flush(), vec![2]);
}
