use ipfusch::config::{
    can_parse_duration, count_digits, default_payload_size, format_duration, parse_duration,
    parse_rate_mode, parse_rates_list, parse_streams_list, rate_label, RateMode, Transport,
};
use ipfusch::text::{chars_of, parse_number, NumberError};

#[test]
fn parse_rate_suffixes_consistent() {
    assert_eq!(parse_rate_mode("auto").unwrap(), RateMode::Auto);
    assert_eq!(parse_rate_mode("1k").unwrap(), RateMode::Bps(1_000));
    assert_eq!(parse_rate_mode("250m").unwrap(), RateMode::Bps(250_000_000));
    assert_eq!(parse_rate_mode("2g").unwrap(), RateMode::Bps(2_000_000_000));
    assert!(parse_rate_mode("0").is_err());
}

#[test]
fn parse_stream_list_consistent() {
    assert_eq!(parse_streams_list("1,2,8").unwrap(), vec![1, 2, 8]);
    assert!(parse_streams_list("0,1").is_err());
}

#[test]
fn parse_rates_list_consistent() {
    assert_eq!(
        parse_rates_list("auto,100m").unwrap(),
        vec![RateMode::Auto, RateMode::Bps(100_000_000)]
    );
}

#[test]
fn every_unit_of_a_rate_is_read() {
    assert_eq!(parse_rate_mode("7").unwrap(), RateMode::Bps(7));
    assert_eq!(parse_rate_mode("7bps").unwrap(), RateMode::Bps(7));
    assert_eq!(parse_rate_mode("7kbps").unwrap(), RateMode::Bps(7_000));
    assert_eq!(parse_rate_mode("7Mbps").unwrap(), RateMode::Bps(7_000_000));
    assert_eq!(parse_rate_mode("7GBPS").unwrap(), RateMode::Bps(7_000_000_000));
    assert_eq!(parse_rate_mode("7t").unwrap(), RateMode::Bps(7_000_000_000_000));
    assert_eq!(parse_rate_mode("7tbps").unwrap(), RateMode::Bps(7_000_000_000_000));
    assert_eq!(parse_rate_mode("  AUTO \t").unwrap(), RateMode::Auto);
    assert_eq!(parse_rate_mode("\u{a0}+5m\u{3000}").unwrap(), RateMode::Bps(5_000_000));
}

#[test]
fn wrong_rates_say_why() {
    assert_eq!(parse_rate_mode("0").unwrap_err(), "rate must be > 0");
    assert_eq!(parse_rate_mode("0g").unwrap_err(), "rate must be > 0");
    assert_eq!(
        parse_rate_mode(" 99999999999t").unwrap_err(),
        "rate ` 99999999999t` is too large"
    );
    assert_eq!(
        parse_rate_mode("").unwrap_err(),
        "invalid rate ``: cannot parse integer from empty string"
    );
    assert_eq!(
        parse_rate_mode("k").unwrap_err(),
        "invalid rate `k`: cannot parse integer from empty string"
    );
    assert_eq!(
        parse_rate_mode("fast").unwrap_err(),
        "invalid rate `fast`: invalid digit found in string"
    );
    assert_eq!(
        parse_rate_mode("1 m").unwrap_err(),
        "invalid rate `1 m`: invalid digit found in string"
    );
    assert_eq!(
        parse_rate_mode("18446744073709551616").unwrap_err(),
        "invalid rate `18446744073709551616`: number too large to fit in target type"
    );
}

#[test]
fn wrong_lists_say_why() {
    assert_eq!(parse_streams_list("1,0").unwrap_err(), "stream count must be >= 1");
    assert_eq!(
        parse_streams_list("1, x").unwrap_err(),
        "invalid stream count ` x`: invalid digit found in string"
    );
    assert_eq!(
        parse_streams_list("").unwrap_err(),
        "invalid stream count ``: cannot parse integer from empty string"
    );
    assert_eq!(
        parse_streams_list("65536").unwrap_err(),
        "invalid stream count `65536`: number too large to fit in target type"
    );
    assert_eq!(parse_streams_list(" 3 ,\t65535").unwrap(), vec![3, 65535]);
    assert_eq!(
        parse_rates_list("1m, ,2m").unwrap_err(),
        "invalid rate ``: cannot parse integer from empty string"
    );
}

#[test]
fn numbers_are_read_as_the_standard_library_reads_them() {
    let samples = [
        "", "+", "-", "-1", "+1", "0", "00", "007", "12", "1 2", " 1", "255", "256", "65535",
        "65536", "99999", "18446744073709551615", "18446744073709551616",
        "018446744073709551615", "\u{664}", "1_000", "++1", "1+",
    ];
    for s in samples {
        let chars = chars_of(s);
        match (parse_number(&chars, u64::MAX), s.parse::<u64>()) {
            (Ok(a), Ok(b)) => assert_eq!(a, b),
            (Err(a), Err(b)) => assert_eq!(a.text(), b.to_string()),
            (a, b) => panic!("{s:?}: {a:?} {b:?}"),
        }
        match (parse_number(&chars, 65535), s.parse::<u16>()) {
            (Ok(a), Ok(b)) => assert_eq!(a, b as u64),
            (Err(a), Err(b)) => assert_eq!(a.text(), b.to_string()),
            (a, b) => panic!("{s:?}: {a:?} {b:?}"),
        }
    }
    assert!(matches!(parse_number(&[], 9), Err(NumberError::Empty)));
    assert!(matches!(parse_number(&['x'], 9), Err(NumberError::InvalidDigit)));
    assert!(matches!(parse_number(&['1', '0'], 9), Err(NumberError::TooLarge)));
}

#[test]
fn rate_labels_read_back() {
    for rate in [RateMode::Auto, RateMode::Bps(1), RateMode::Bps(u64::MAX)] {
        assert_eq!(parse_rate_mode(&rate_label(rate)).unwrap(), rate);
    }
    assert_eq!(rate_label(RateMode::Bps(1200)), "1200");
    assert_eq!(RateMode::Bps(9).as_bps(), Some(9));
    assert_eq!(RateMode::Auto.as_bps(), None);
    assert!(RateMode::Auto.is_auto());
    assert!(!RateMode::Bps(9).is_auto());
}

#[test]
fn transport_names_read_back() {
    for t in [Transport::Tcp, Transport::Udp, Transport::Quic] {
        assert_eq!(Transport::from_str(&t.to_string()).unwrap(), t);
    }
    assert_eq!(Transport::from_str("QuIc").unwrap(), Transport::Quic);
    assert_eq!(Transport::from_str("Sctp").unwrap_err(), "unsupported transport: Sctp");
    assert_eq!(default_payload_size(Transport::Tcp), 262_144);
    assert_eq!(default_payload_size(Transport::Udp), 1200);
    assert_eq!(default_payload_size(Transport::Quic), 1200);
}

#[test]
fn durations_are_read_and_written() {
    assert_eq!(parse_duration("10s").unwrap(), 10_000_000_000);
    assert_eq!(parse_duration("100ms").unwrap(), 100_000_000);
    assert_eq!(parse_duration("1h 30min").unwrap(), 5_400_000_000_000);
    assert_eq!(parse_duration("0").unwrap(), 0);
    assert!(parse_duration("ten").is_err());
    assert_eq!(count_digits("1h 30min"), 3);
    assert_eq!(count_digits("0"), 1);
    assert_eq!(count_digits("00s"), 1);
    assert_eq!(count_digits("0010s 05ms"), 4);
    assert_eq!(count_digits(""), 0);
    assert_eq!(count_digits("00000000000000000030s"), 2);
    assert_eq!(parse_duration("00000000000000000030s").unwrap(), 30_000_000_000);
    // One part is read however long it is, and several are if they are short.
    assert!(can_parse_duration("10000000000000000ns"));
    assert_eq!(parse_duration("10000000000000000ns").unwrap(), 10_000_000_000_000_000);
    assert!(can_parse_duration("18446744073709551615s"));
    assert_eq!(
        parse_duration("18446744073709551615s").unwrap(),
        18_446_744_073_709_551_615_000_000_000
    );
    assert!(can_parse_duration("307445734561825860.25 min"));
    assert_eq!(
        parse_duration("307445734561825860.25 min").unwrap(),
        18_446_744_073_709_551_615_000_000_000
    );
    assert!(can_parse_duration("12345678901234567\u{b5}s"));
    assert!(can_parse_duration(""));
    assert!(can_parse_duration("1h 30min"));
    assert!(can_parse_duration("12345678s 12345678ns"));
    assert!(!can_parse_duration("123456789s 12345678ns"));
    assert!(!can_parse_duration("18446744073709551614s 999ms 1001ms"));
    assert_eq!(format_duration(90_000_000_000), "1m 30s");
    assert_eq!(format_duration(2_500_000_000), "2s 500ms");
    assert_eq!(format_duration(0), "0s");
}
