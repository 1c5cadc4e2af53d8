use ground_station::clock::{GpsTime, MissionTime};
use ground_station::codes::{
    HsDeployed, MastRaised, Mode, PacketType, PcDeployed, SoftwareState, TpReleased, TpSoftwareState,
};
use ground_station::telemetry::{State, Telemetry, TelemetryError, TelemetryField};

const LINE: &str = "1047,15:12:02.99,123,F,YEETED,356.2,P,C,N,37.8,5.1,15:12:03,1623.3,37.2249,-80.4249,14,2.36,-5.49,CXON";

#[test]
fn test_telemetry_parse() {
    let s = LINE;
    let telem = Telemetry::parse(s);
    assert_eq!(
        telem,
        Ok(Telemetry {
            team_id: 1047,
            mission_time: MissionTime {
                h: 15,
                m: 12,
                s: 2,
                cs: 99
            },
            packet_count: 123,
            mode: Mode::Flight,
            state: State::Yeeted,
            altitude: 3562,
            hs_deployed: HsDeployed::Deployed,
            pc_deployed: PcDeployed::Deployed,
            mast_raised: MastRaised::NotRaised,
            temperature: 378,
            voltage: 51,
            gps_time: GpsTime { h: 15, m: 12, s: 3 },
            gps_altitude: 16233,
            gps_latitude: 372249,
            gps_longitude: -804249,
            gps_sats: 14,
            tilt_x: 236,
            tilt_y: -549,
            cmd_echo: "CXON".to_string(),
        })
    );
}

#[test]
fn test_telemetry_parse_fmt_identical() {
    let s = LINE;
    let telem = Telemetry::parse(s).unwrap();
    assert_eq!(telem.format(), s.to_string());
}

#[test]
fn telemetry_field_errors() {
    assert_eq!(Telemetry::parse("1047,15:12:02.99,123"), Err(TelemetryError::FieldCountMismatch));
    let bad_team = LINE.replacen("1047", "70000", 1);
    assert_eq!(Telemetry::parse(&bad_team), Err(TelemetryError::FieldParseError { index: 0 }));
    let bad_mode = LINE.replacen(",F,", ",X,", 1);
    assert_eq!(
        Telemetry::parse(&bad_mode),
        Err(TelemetryError::InvalidEnumCode { index: 3, value: b'X' })
    );
    let long_mode = LINE.replacen(",F,", ",FF,", 1);
    assert_eq!(Telemetry::parse(&long_mode), Err(TelemetryError::FieldParseError { index: 3 }));
    let bad_altitude = LINE.replacen("356.2", "356.25", 1);
    assert_eq!(Telemetry::parse(&bad_altitude), Err(TelemetryError::FieldParseError { index: 5 }));
    let bad_clock = LINE.replacen("15:12:03", "25:12:03", 1);
    assert_eq!(Telemetry::parse(&bad_clock), Err(TelemetryError::FieldParseError { index: 11 }));
}

#[test]
fn telemetry_other_state_and_echo_with_commas() {
    let line = "1047,15:12:02,7,S,ASCENT,-0.5,N,N,M,-12.0,4.9,00:00:00,0.0,0.0000,0.0001,0,0.00,10.00,SIMP,101325";
    let t = Telemetry::parse(line).unwrap();
    assert_eq!(t.state, State::Other("ASCENT".to_string()));
    assert_eq!(t.mode, Mode::Simulation);
    assert_eq!(t.altitude, -5);
    assert_eq!(t.mission_time.cs, u8::MAX);
    assert_eq!(t.gps_longitude, 1);
    assert_eq!(t.cmd_echo, "SIMP,101325");
    assert_eq!(t.format(), line);
}

#[test]
fn telemetry_fields_read_one_by_one() {
    let t = Telemetry::parse(LINE).unwrap();
    assert_eq!(t.get_field(TelemetryField::TeamId), "1047");
    assert_eq!(t.get_field(TelemetryField::MissionTime), "15:12:02.99");
    assert_eq!(t.get_field(TelemetryField::State), "YEETED");
    assert_eq!(t.get_field(TelemetryField::GpsLongitude), "-80.4249");
    assert_eq!(t.get_field(TelemetryField::TiltY), "-5.49");
    assert_eq!(t.get_field(TelemetryField::CmdEcho), "CXON");
    assert_eq!(TelemetryField::GpsSats.as_str(), "GPS_SATS");
}

#[test]
fn code_tables() {
    assert_eq!(Mode::from_code(b'F'), Some(Mode::Flight));
    assert_eq!(Mode::from_code(b'Q'), None);
    assert_eq!(PacketType::TetheredPayload.code(), b'T');
    assert_eq!(TpReleased::from_code(b'R'), Some(TpReleased::Released));
    assert_eq!(SoftwareState::DescentPar2.as_str(), "DP2");
    assert_eq!(TpSoftwareState::Released.as_str(), "RELEASED");
    assert_eq!(MastRaised::Raised.code(), b'M');
}
