use ground_station::clock::{ClockError, GpsTime, MissionTime, Timestamp, NO_CENTISECONDS};

#[test]
fn test_misstion_time_fromstr_invalid() {
    let s = "24:34:56";
    let ts = GpsTime::parse(s);
    ts.unwrap_err();

    let s = "12:60:56";
    let ts = GpsTime::parse(s);
    ts.unwrap_err();

    let s = "12:34:60";
    let ts = GpsTime::parse(s);
    ts.unwrap_err();
}

#[test]
fn test_misstion_time_display_low_numbers() {
    let gt = GpsTime { h: 1, m: 2, s: 3 };

    assert_eq!(gt.format(), "01:02:03".to_string())
}

#[test]
fn test_mission_time_fromstr_invalid() {
    let s = "24:34:56.78";
    let ts = MissionTime::parse(s);
    ts.unwrap_err();

    let s = "12:60:56.78";
    let ts = MissionTime::parse(s);
    ts.unwrap_err();

    let s = "12:34:60.78";
    let ts = MissionTime::parse(s);
    ts.unwrap_err();

    let s = "12:34:56.100";
    let ts = MissionTime::parse(s);
    ts.unwrap_err();
}

#[test]
fn test_mission_time_fromstr_no_cs() {
    let s = "14:58:56";
    let ts = MissionTime::parse(s).unwrap();
    assert_eq!(
        MissionTime {
            h: 14,
            m: 58,
            s: 56,
            cs: u8::MAX,
        },
        ts
    );
    assert_eq!(ts.format(), s);
}

#[test]
fn test_mission_time_display_low_numbers() {
    let mt = MissionTime {
        h: 1,
        m: 2,
        s: 3,
        cs: 4,
    };

    assert_eq!(mt.format(), "01:02:03.04".to_string())
}

#[test]
fn test_timestamp_fromstr_invalid() {
    let s = "24:34:56.78";
    let ts = Timestamp::parse(s);
    ts.unwrap_err();

    let s = "12:60:56.78";
    let ts = Timestamp::parse(s);
    ts.unwrap_err();

    let s = "12:34:60.78";
    let ts = Timestamp::parse(s);
    ts.unwrap_err();

    let s = "12:34:56.100";
    let ts = Timestamp::parse(s);
    ts.unwrap_err();
}

#[test]
fn test_timestamp_display_low_numbers() {
    let ts = Timestamp {
        h: 1,
        m: 2,
        s: 3,
        cs: 4,
    };

    assert_eq!(ts.format(), "01:02:03.04".to_string())
}

#[test]
fn clock_errors_tell_malformed_from_out_of_range() {
    assert_eq!(GpsTime::parse("12:34"), Err(ClockError::Malformed));
    assert_eq!(GpsTime::parse("12:3a:00"), Err(ClockError::Malformed));
    assert_eq!(GpsTime::parse("12:34:99"), Err(ClockError::OutOfRange));
    assert_eq!(Timestamp::parse("12:34:56"), Err(ClockError::Malformed));
    assert_eq!(MissionTime::parse("12:34:56."), Err(ClockError::Malformed));
    assert_eq!(MissionTime::parse("300:00:00"), Err(ClockError::Malformed));
}

#[test]
fn clock_values_round_trip() {
    let mt = MissionTime::parse("23:59:59.00").unwrap();
    assert_eq!(mt, MissionTime { h: 23, m: 59, s: 59, cs: 0 });
    assert_eq!(mt.format(), "23:59:59.00");
    let mt = MissionTime::parse("0:0:0").unwrap();
    assert_eq!(mt.cs, NO_CENTISECONDS);
    assert_eq!(mt.format(), "00:00:00");
    let gt = GpsTime::parse("15:12:03").unwrap();
    assert_eq!(gt, GpsTime { h: 15, m: 12, s: 3 });
    assert_eq!(GpsTime::parse(&gt.format()), Ok(gt));
    assert_eq!(Timestamp::new(1, 2, 3, 100), Err(ClockError::OutOfRange));
    assert_eq!(MissionTime::new(1, 2, 3, u8::MAX), Ok(MissionTime { h: 1, m: 2, s: 3, cs: u8::MAX }));
}

#[test]
fn mission_time_centiseconds() {
    let mt = MissionTime { h: 15, m: 12, s: 2, cs: 99 };
    assert_eq!(mt.as_centiseconds(), 15 * 360000 + 12 * 6000 + 2 * 100 + 99);
    assert_eq!(MissionTime::from_centiseconds(mt.as_centiseconds()), mt);
    let no_cs = MissionTime { h: 1, m: 0, s: 0, cs: u8::MAX };
    assert_eq!(no_cs.as_centiseconds(), 360000);
    assert_eq!(MissionTime::from_centiseconds(8_639_999), MissionTime { h: 23, m: 59, s: 59, cs: 99 });
}

#[test]
fn timestamp_centiseconds() {
    let ts = Timestamp { h: 1, m: 2, s: 3, cs: 4 };
    assert_eq!(ts.as_centiseconds(), 360000 + 12000 + 300 + 4);
}
