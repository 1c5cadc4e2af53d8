//! One line of telemetry: nineteen comma-separated fields.
use vstd::prelude::*;
use vstd::string::StringSliceAdditionalSpecFns;
use vstd::utf8::{encode_utf8, valid_utf8};

use crate::clock::{split_at_byte, split_once, GpsTime, MissionTime};
use crate::codes::{HsDeployed, MastRaised, Mode, PcDeployed};
use crate::fixed::{fixed_text, parse_fixed, parse_fixed_spec, write_fixed, FIXED_MAX};
use crate::text::{
    bytes_eq, copy_bytes, decimal, parse_uint, parse_uint_spec, pow10, push_all, push_decimal,
    string_from_utf8,
};

verus! {

pub const COMMA: u8 = 0x2C;

/// The number of commas that separate the fields of a line.
pub const SEPARATORS: usize = 18;

/// Why a line could not be read as telemetry.
#[derive(Debug, Clone, Copy, PartialEq, Eq, Structural)]
pub enum TelemetryError {
    /// The line has fewer fields than a record.
    FieldCountMismatch,
    /// The field at `index` does not read as its type.
    FieldParseError { index: usize },
    /// The single-letter field at `index` holds a letter that is no code of its type.
    InvalidEnumCode { index: usize, value: u8 },
}

/// STATE: the operating state of the flight software.
#[derive(Debug, Clone, PartialEq, Eq)]
pub enum State {
    Yeeted,
    Other(String),
}

/// A state as the bytes of its text.
pub enum StateView {
    Yeeted,
    Other(Seq<u8>),
}

impl View for State {
    type V = StateView;

    open spec fn view(&self) -> StateView {
        match self {
            State::Yeeted => StateView::Yeeted,
            State::Other(s) => StateView::Other(encode_utf8(s@)),
        }
    }
}

/// The text of the `Yeeted` state.
pub open spec fn yeeted_text() -> Seq<u8> {
    seq![0x59u8, 0x45u8, 0x45u8, 0x54u8, 0x45u8, 0x44u8]
}

/// A record of container telemetry. Measurements are held in fixed point: the
/// altitudes, temperature and voltage in tenths, the coordinates in
/// ten-thousandths of a degree, and the tilts in hundredths of a degree.
#[derive(Debug, Clone, PartialEq, Eq)]
pub struct Telemetry {
    pub team_id: u16,
    pub mission_time: MissionTime,
    pub packet_count: u32,
    pub mode: Mode,
    pub state: State,
    /// Metres relative to the launch site, in tenths.
    pub altitude: i32,
    pub hs_deployed: HsDeployed,
    pub pc_deployed: PcDeployed,
    pub mast_raised: MastRaised,
    /// Degrees Celsius, in tenths.
    pub temperature: i32,
    /// Volts, in tenths.
    pub voltage: i32,
    pub gps_time: GpsTime,
    /// Metres above sea level, in tenths.
    pub gps_altitude: i32,
    /// Degrees north, in ten-thousandths.
    pub gps_latitude: i32,
    /// Degrees west, in ten-thousandths.
    pub gps_longitude: i32,
    pub gps_sats: u8,
    /// Degrees, in hundredths.
    pub tilt_x: i32,
    /// Degrees, in hundredths.
    pub tilt_y: i32,
    /// The last command that the payload received.
    pub cmd_echo: String,
}

/// A record with its text fields as bytes.
pub struct TelemetryView {
    pub team_id: u16,
    pub mission_time: MissionTime,
    pub packet_count: u32,
    pub mode: Mode,
    pub state: StateView,
    pub altitude: i32,
    pub hs_deployed: HsDeployed,
    pub pc_deployed: PcDeployed,
    pub mast_raised: MastRaised,
    pub temperature: i32,
    pub voltage: i32,
    pub gps_time: GpsTime,
    pub gps_altitude: i32,
    pub gps_latitude: i32,
    pub gps_longitude: i32,
    pub gps_sats: u8,
    pub tilt_x: i32,
    pub tilt_y: i32,
    pub cmd_echo: Seq<u8>,
}

impl View for Telemetry {
    type V = TelemetryView;

    open spec fn view(&self) -> TelemetryView {
        TelemetryView {
            team_id: self.team_id,
            mission_time: self.mission_time,
            packet_count: self.packet_count,
            mode: self.mode,
            state: self.state@,
            altitude: self.altitude,
            hs_deployed: self.hs_deployed,
            pc_deployed: self.pc_deployed,
            mast_raised: self.mast_raised,
            temperature: self.temperature,
            voltage: self.voltage,
            gps_time: self.gps_time,
            gps_altitude: self.gps_altitude,
            gps_latitude: self.gps_latitude,
            gps_longitude: self.gps_longitude,
            gps_sats: self.gps_sats,
            tilt_x: self.tilt_x,
            tilt_y: self.tilt_y,
            cmd_echo: encode_utf8(self.cmd_echo@),
        }
    }
}

/// A field of a telemetry record, in the order of the line.
#[derive(Debug, Clone, Copy, PartialEq, Eq, Structural)]
pub enum TelemetryField {
    TeamId,
    MissionTime,
    PacketCount,
    Mode,
    State,
    Altitude,
    HsDeployed,
    PcDeployed,
    MastRaised,
    Temperature,
    Voltage,
    GpsTime,
    GpsAltitude,
    GpsLatitude,
    GpsLongitude,
    GpsSats,
    TiltX,
    TiltY,
    CmdEcho,
}

impl TelemetryField {
    /// The position of each field in the line.
    pub open spec fn position(self) -> int {
        match self {
            TelemetryField::TeamId => 0,
            TelemetryField::MissionTime => 1,
            TelemetryField::PacketCount => 2,
            TelemetryField::Mode => 3,
            TelemetryField::State => 4,
            TelemetryField::Altitude => 5,
            TelemetryField::HsDeployed => 6,
            TelemetryField::PcDeployed => 7,
            TelemetryField::MastRaised => 8,
            TelemetryField::Temperature => 9,
            TelemetryField::Voltage => 10,
            TelemetryField::GpsTime => 11,
            TelemetryField::GpsAltitude => 12,
            TelemetryField::GpsLatitude => 13,
            TelemetryField::GpsLongitude => 14,
            TelemetryField::GpsSats => 15,
            TelemetryField::TiltX => 16,
            TelemetryField::TiltY => 17,
            TelemetryField::CmdEcho => 18,
        }
    }

    /// The name of each field.
    pub open spec fn name(self) -> Seq<char> {
        match self {
            TelemetryField::TeamId => "TEAM_ID"@,
            TelemetryField::MissionTime => "MISSION_TIME"@,
            TelemetryField::PacketCount => "PACKET_COUNT"@,
            TelemetryField::Mode => "MODE"@,
            TelemetryField::State => "STATE"@,
            TelemetryField::Altitude => "ALTITUDE"@,
            TelemetryField::HsDeployed => "HS_DEPLOYED"@,
            TelemetryField::PcDeployed => "PC_DEPLOYED"@,
            TelemetryField::MastRaised => "MAST_RAISED"@,
            TelemetryField::Temperature => "TEMPERATURE"@,
            TelemetryField::Voltage => "VOLTAGE"@,
            TelemetryField::GpsTime => "GPS_TIME"@,
            TelemetryField::GpsAltitude => "GPS_ALTITUDE"@,
            TelemetryField::GpsLatitude => "GPS_LATITUDE"@,
            TelemetryField::GpsLongitude => "GPS_LONGITUDE"@,
            TelemetryField::GpsSats => "GPS_SATS"@,
            TelemetryField::TiltX => "TILT_X"@,
            TelemetryField::TiltY => "TILT_Y"@,
            TelemetryField::CmdEcho => "CMD_ECHO"@,
        }
    }

    /// The name of this field.
    pub fn as_str(&self) -> (r: &'static str)
        ensures
            r@ == self.name(),
    {
        match self {
            TelemetryField::TeamId => "TEAM_ID",
            TelemetryField::MissionTime => "MISSION_TIME",
            TelemetryField::PacketCount => "PACKET_COUNT",
            TelemetryField::Mode => "MODE",
            TelemetryField::State => "STATE",
            TelemetryField::Altitude => "ALTITUDE",
            TelemetryField::HsDeployed => "HS_DEPLOYED",
            TelemetryField::PcDeployed => "PC_DEPLOYED",
            TelemetryField::MastRaised => "MAST_RAISED",
            TelemetryField::Temperature => "TEMPERATURE",
            TelemetryField::Voltage => "VOLTAGE",
            TelemetryField::GpsTime => "GPS_TIME",
            TelemetryField::GpsAltitude => "GPS_ALTITUDE",
            TelemetryField::GpsLatitude => "GPS_LATITUDE",
            TelemetryField::GpsLongitude => "GPS_LONGITUDE",
            TelemetryField::GpsSats => "GPS_SATS",
            TelemetryField::TiltX => "TILT_X",
            TelemetryField::TiltY => "TILT_Y",
            TelemetryField::CmdEcho => "CMD_ECHO",
        }
    }
}

/// The bytes between the first `n` commas, and after the last of them.
pub open spec fn split_fields(s: Seq<u8>, n: nat) -> Option<Seq<Seq<u8>>>
    decreases n,
{
    if n == 0 {
        Some(seq![s])
    } else {
        match split_at_byte(s, COMMA) {
            None => None,
            Some((a, b)) => match split_fields(b, (n - 1) as nat) {
                None => None,
                Some(rest) => Some(seq![a] + rest),
            },
        }
    }
}

/// The fields joined with commas.
pub open spec fn join_fields(fs: Seq<Seq<u8>>) -> Seq<u8>
    decreases fs.len(),
{
    if fs.len() <= 1 {
        if fs.len() == 1 {
            fs[0]
        } else {
            Seq::empty()
        }
    } else {
        fs[0] + seq![COMMA] + join_fields(fs.drop_first())
    }
}

pub proof fn lemma_split_fields_len(s: Seq<u8>, n: nat)
    ensures
        split_fields(s, n) matches Some(fs) ==> fs.len() == n + 1,
    decreases n,
{
    if n > 0 {
        match split_at_byte(s, COMMA) {
            None => {},
            Some((a, b)) => lemma_split_fields_len(b, (n - 1) as nat),
        }
    }
}


pub open spec fn slice_views(v: Seq<&[u8]>) -> Seq<Seq<u8>> {
    Seq::new(v.len(), |i: int| v[i]@)
}

/// The error of a single-letter field, if any.
pub open spec fn code_error(f: Seq<u8>, index: usize, known: bool) -> Option<TelemetryError> {
    if f.len() != 1 {
        Some(TelemetryError::FieldParseError { index })
    } else if !known {
        Some(TelemetryError::InvalidEnumCode { index, value: f[0] })
    } else {
        None
    }
}

pub open spec fn field_parse_error(index: usize) -> Option<TelemetryError> {
    Some(TelemetryError::FieldParseError { index })
}

/// The error of the first field that does not read as its type, if any.
pub open spec fn fields_error(fs: Seq<Seq<u8>>) -> Option<TelemetryError> {
    if parse_uint_spec(fs[0], 0xFFFF) is None {
        field_parse_error(0)
    } else if MissionTime::parse_spec(fs[1]) is Err {
        field_parse_error(1)
    } else if parse_uint_spec(fs[2], 0xFFFF_FFFF) is None {
        field_parse_error(2)
    } else if code_error(fs[3], 3, Mode::from_code_spec(fs[3][0]) is Some) is Some {
        code_error(fs[3], 3, Mode::from_code_spec(fs[3][0]) is Some)
    } else if fs[4] != yeeted_text() && !valid_utf8(fs[4]) {
        field_parse_error(4)
    } else if parse_fixed_spec(fs[5], 1) is None {
        field_parse_error(5)
    } else if code_error(fs[6], 6, HsDeployed::from_code_spec(fs[6][0]) is Some) is Some {
        code_error(fs[6], 6, HsDeployed::from_code_spec(fs[6][0]) is Some)
    } else if code_error(fs[7], 7, PcDeployed::from_code_spec(fs[7][0]) is Some) is Some {
        code_error(fs[7], 7, PcDeployed::from_code_spec(fs[7][0]) is Some)
    } else if code_error(fs[8], 8, MastRaised::from_code_spec(fs[8][0]) is Some) is Some {
        code_error(fs[8], 8, MastRaised::from_code_spec(fs[8][0]) is Some)
    } else if parse_fixed_spec(fs[9], 1) is None {
        field_parse_error(9)
    } else if parse_fixed_spec(fs[10], 1) is None {
        field_parse_error(10)
    } else if GpsTime::parse_spec(fs[11]) is Err {
        field_parse_error(11)
    } else if parse_fixed_spec(fs[12], 1) is None {
        field_parse_error(12)
    } else if parse_fixed_spec(fs[13], 4) is None {
        field_parse_error(13)
    } else if parse_fixed_spec(fs[14], 4) is None {
        field_parse_error(14)
    } else if parse_uint_spec(fs[15], 0xFF) is None {
        field_parse_error(15)
    } else if parse_fixed_spec(fs[16], 2) is None {
        field_parse_error(16)
    } else if parse_fixed_spec(fs[17], 2) is None {
        field_parse_error(17)
    } else if !valid_utf8(fs[18]) {
        field_parse_error(18)
    } else {
        None
    }
}

pub open spec fn some_nat(o: Option<nat>) -> nat {
    match o {
        Some(v) => v,
        None => 0,
    }
}

pub open spec fn some_int(o: Option<int>) -> int {
    match o {
        Some(v) => v,
        None => 0,
    }
}

pub open spec fn ok_mission_time(r: Result<MissionTime, crate::clock::ClockError>) -> MissionTime {
    match r {
        Ok(t) => t,
        Err(_) => MissionTime { h: 0, m: 0, s: 0, cs: 0 },
    }
}

pub open spec fn ok_gps_time(r: Result<GpsTime, crate::clock::ClockError>) -> GpsTime {
    match r {
        Ok(t) => t,
        Err(_) => GpsTime { h: 0, m: 0, s: 0 },
    }
}

/// The record that fields without errors read as.
pub open spec fn record_of(fs: Seq<Seq<u8>>) -> TelemetryView {
    TelemetryView {
        team_id: some_nat(parse_uint_spec(fs[0], 0xFFFF)) as u16,
        mission_time: ok_mission_time(MissionTime::parse_spec(fs[1])),
        packet_count: some_nat(parse_uint_spec(fs[2], 0xFFFF_FFFF)) as u32,
        mode: Mode::from_code_spec(fs[3][0]).unwrap(),
        state: if fs[4] == yeeted_text() {
            StateView::Yeeted
        } else {
            StateView::Other(fs[4])
        },
        altitude: some_int(parse_fixed_spec(fs[5], 1)) as i32,
        hs_deployed: HsDeployed::from_code_spec(fs[6][0]).unwrap(),
        pc_deployed: PcDeployed::from_code_spec(fs[7][0]).unwrap(),
        mast_raised: MastRaised::from_code_spec(fs[8][0]).unwrap(),
        temperature: some_int(parse_fixed_spec(fs[9], 1)) as i32,
        voltage: some_int(parse_fixed_spec(fs[10], 1)) as i32,
        gps_time: ok_gps_time(GpsTime::parse_spec(fs[11])),
        gps_altitude: some_int(parse_fixed_spec(fs[12], 1)) as i32,
        gps_latitude: some_int(parse_fixed_spec(fs[13], 4)) as i32,
        gps_longitude: some_int(parse_fixed_spec(fs[14], 4)) as i32,
        gps_sats: some_nat(parse_uint_spec(fs[15], 0xFF)) as u8,
        tilt_x: some_int(parse_fixed_spec(fs[16], 2)) as i32,
        tilt_y: some_int(parse_fixed_spec(fs[17], 2)) as i32,
        cmd_echo: fs[18],
    }
}

impl TelemetryView {
    /// What a line reads as.
    pub open spec fn parse_spec(line: Seq<u8>) -> Result<TelemetryView, TelemetryError> {
        match split_fields(line, SEPARATORS as nat) {
            None => Err(TelemetryError::FieldCountMismatch),
            Some(fs) => match fields_error(fs) {
                Some(e) => Err(e),
                None => Ok(record_of(fs)),
            },
        }
    }

    pub open spec fn state_text(self) -> Seq<u8> {
        match self.state {
            StateView::Yeeted => yeeted_text(),
            StateView::Other(b) => b,
        }
    }

    /// The text of each field.
    pub open spec fn fields(self) -> Seq<Seq<u8>> {
        seq![
            decimal(self.team_id as nat),
            self.mission_time.text_spec(),
            decimal(self.packet_count as nat),
            seq![self.mode.code_spec()],
            self.state_text(),
            fixed_text(self.altitude as int, 1),
            seq![self.hs_deployed.code_spec()],
            seq![self.pc_deployed.code_spec()],
            seq![self.mast_raised.code_spec()],
            fixed_text(self.temperature as int, 1),
            fixed_text(self.voltage as int, 1),
            self.gps_time.text_spec(),
            fixed_text(self.gps_altitude as int, 1),
            fixed_text(self.gps_latitude as int, 4),
            fixed_text(self.gps_longitude as int, 4),
            decimal(self.gps_sats as nat),
            fixed_text(self.tilt_x as int, 2),
            fixed_text(self.tilt_y as int, 2),
            self.cmd_echo,
        ]
    }

    /// The line of this record.
    pub open spec fn text_spec(self) -> Seq<u8> {
        join_fields(self.fields())
    }
}

impl TelemetryView {
    /// Field values that a line can carry: clocks in range, measurements of
    /// magnitude at most `FIXED_MAX`, text that is UTF-8, and a state text that
    /// is not `YEETED` and holds no comma.
    pub open spec fn valid(self) -> bool {
        &&& self.mission_time.valid()
        &&& self.gps_time.valid()
        &&& self.altitude != i32::MIN
        &&& self.temperature != i32::MIN
        &&& self.voltage != i32::MIN
        &&& self.gps_altitude != i32::MIN
        &&& self.gps_latitude != i32::MIN
        &&& self.gps_longitude != i32::MIN
        &&& self.tilt_x != i32::MIN
        &&& self.tilt_y != i32::MIN
        &&& (self.state matches StateView::Other(b) ==> b != yeeted_text() && valid_utf8(b)
            && crate::text::lacks(b, COMMA))
        &&& valid_utf8(self.cmd_echo)
    }
}

impl TelemetryView {
    /// The field texts one by one.
    pub proof fn lemma_fields_index(self)
        ensures
            self.fields().len() == 19,
            self.fields()[0] == decimal(self.team_id as nat),
            self.fields()[1] == self.mission_time.text_spec(),
            self.fields()[2] == decimal(self.packet_count as nat),
            self.fields()[3] == seq![self.mode.code_spec()],
            self.fields()[4] == self.state_text(),
            self.fields()[5] == fixed_text(self.altitude as int, 1),
            self.fields()[6] == seq![self.hs_deployed.code_spec()],
            self.fields()[7] == seq![self.pc_deployed.code_spec()],
            self.fields()[8] == seq![self.mast_raised.code_spec()],
            self.fields()[9] == fixed_text(self.temperature as int, 1),
            self.fields()[10] == fixed_text(self.voltage as int, 1),
            self.fields()[11] == self.gps_time.text_spec(),
            self.fields()[12] == fixed_text(self.gps_altitude as int, 1),
            self.fields()[13] == fixed_text(self.gps_latitude as int, 4),
            self.fields()[14] == fixed_text(self.gps_longitude as int, 4),
            self.fields()[15] == decimal(self.gps_sats as nat),
            self.fields()[16] == fixed_text(self.tilt_x as int, 2),
            self.fields()[17] == fixed_text(self.tilt_y as int, 2),
            self.fields()[18] == self.cmd_echo,
    {
    }
}

/// Joined fields split back at the first commas when those fields hold none.
pub proof fn lemma_split_join_fields(fs: Seq<Seq<u8>>, n: nat)
    requires
        fs.len() == n + 1,
        forall|i: int| 0 <= i < n ==> crate::text::lacks(#[trigger] fs[i], COMMA),
    ensures
        split_fields(join_fields(fs), n) == Some(fs),
    decreases n,
{
    if n == 0 {
        assert(seq![fs[0]] =~= fs);
    } else {
        let rest = fs.drop_first();
        assert forall|i: int| 0 <= i < n - 1 implies crate::text::lacks(#[trigger] rest[i], COMMA) by {
            assert(rest[i] == fs[i + 1]);
        }
        lemma_split_join_fields(rest, (n - 1) as nat);
        assert(crate::text::lacks(fs[0], COMMA));
        crate::clock::lemma_split_join(fs[0], COMMA, join_fields(rest));
        assert(seq![fs[0]] + rest =~= fs);
    }
}

/// Joined fields are UTF-8 when each of them is.
pub proof fn lemma_join_valid_utf8(fs: Seq<Seq<u8>>)
    requires
        forall|i: int| 0 <= i < fs.len() ==> valid_utf8(#[trigger] fs[i]),
    ensures
        valid_utf8(join_fields(fs)),
    decreases fs.len(),
{
    if fs.len() == 0 {
        crate::text::lemma_ascii_valid_utf8(Seq::<u8>::empty());
    } else if fs.len() > 1 {
        let rest = fs.drop_first();
        assert forall|i: int| 0 <= i < rest.len() implies valid_utf8(#[trigger] rest[i]) by {
            assert(rest[i] == fs[i + 1]);
        }
        lemma_join_valid_utf8(rest);
        assert(valid_utf8(fs[0]));
        crate::text::lemma_ascii_valid_utf8(seq![COMMA]);
        vstd::utf8::valid_utf8_concat(fs[0], seq![COMMA]);
        vstd::utf8::valid_utf8_concat(fs[0] + seq![COMMA], join_fields(rest));
    }
}

proof fn lemma_decimal_field(n: nat, max: nat)
    requires
        n <= max,
    ensures
        parse_uint_spec(decimal(n), max) == Some(n),
        crate::text::lacks(decimal(n), COMMA),
        valid_utf8(decimal(n)),
{
    crate::text::lemma_decimal(n);
    crate::text::lemma_digits_lack(decimal(n), COMMA);
    crate::text::lemma_ascii_valid_utf8(decimal(n));
}

proof fn lemma_fixed_field(v: i32, places: nat)
    requires
        v != i32::MIN,
        places >= 1,
    ensures
        parse_fixed_spec(fixed_text(v as int, places), places) == Some(v as int),
        crate::text::lacks(fixed_text(v as int, places), COMMA),
        valid_utf8(fixed_text(v as int, places)),
{
    crate::fixed::lemma_fixed_round_trip(v as int, places);
    crate::fixed::lemma_fixed_ascii(v as int, places);
    crate::text::lemma_ascii_valid_utf8(fixed_text(v as int, places));
}

proof fn lemma_code_field(c: u8)
    requires
        c < 128,
        c != COMMA,
    ensures
        crate::text::lacks(seq![c], COMMA),
        valid_utf8(seq![c]),
{
    crate::text::lemma_ascii_valid_utf8(seq![c]);
}

impl TelemetryView {
    /// Each field text of a record whose text fields are UTF-8 is UTF-8.
    pub proof fn lemma_fields_valid_utf8(self)
        requires
            self.state matches StateView::Other(b) ==> valid_utf8(b),
            valid_utf8(self.cmd_echo),
        ensures
            forall|i: int| 0 <= i < self.fields().len() ==> valid_utf8(#[trigger] self.fields()[i]),
    {
        let t = self;
        let fs = t.fields();
        t.lemma_fields_index();
        lemma_decimal_field(t.team_id as nat, 0xFFFF);
        t.mission_time.lemma_text_lacks(COMMA);
        crate::text::lemma_ascii_valid_utf8(t.mission_time.text_spec());
        lemma_decimal_field(t.packet_count as nat, 0xFFFF_FFFF);
        lemma_code_field(t.mode.code_spec());
        crate::fixed::lemma_fixed_ascii(t.altitude as int, 1);
        crate::fixed::lemma_fixed_ascii(t.temperature as int, 1);
        crate::fixed::lemma_fixed_ascii(t.voltage as int, 1);
        crate::fixed::lemma_fixed_ascii(t.gps_altitude as int, 1);
        crate::fixed::lemma_fixed_ascii(t.gps_latitude as int, 4);
        crate::fixed::lemma_fixed_ascii(t.gps_longitude as int, 4);
        crate::fixed::lemma_fixed_ascii(t.tilt_x as int, 2);
        crate::fixed::lemma_fixed_ascii(t.tilt_y as int, 2);
        crate::text::lemma_ascii_valid_utf8(fixed_text(t.altitude as int, 1));
        crate::text::lemma_ascii_valid_utf8(fixed_text(t.temperature as int, 1));
        crate::text::lemma_ascii_valid_utf8(fixed_text(t.voltage as int, 1));
        crate::text::lemma_ascii_valid_utf8(fixed_text(t.gps_altitude as int, 1));
        crate::text::lemma_ascii_valid_utf8(fixed_text(t.gps_latitude as int, 4));
        crate::text::lemma_ascii_valid_utf8(fixed_text(t.gps_longitude as int, 4));
        crate::text::lemma_ascii_valid_utf8(fixed_text(t.tilt_x as int, 2));
        crate::text::lemma_ascii_valid_utf8(fixed_text(t.tilt_y as int, 2));
        lemma_code_field(t.hs_deployed.code_spec());
        lemma_code_field(t.pc_deployed.code_spec());
        lemma_code_field(t.mast_raised.code_spec());
        t.gps_time.lemma_text_lacks(COMMA);
        crate::text::lemma_ascii_valid_utf8(t.gps_time.text_spec());
        lemma_decimal_field(t.gps_sats as nat, 0xFF);
        crate::text::lemma_ascii_valid_utf8(yeeted_text());
        assert forall|i: int| 0 <= i < fs.len() implies valid_utf8(#[trigger] fs[i]) by {}
    }
}

/// Formatting a valid record and reading the line back gives the same record.
#[verifier::rlimit(100)]
pub proof fn lemma_telemetry_round_trip(v: TelemetryView)
    requires
        v.valid(),
    ensures
        TelemetryView::parse_spec(v.text_spec()) == Ok::<TelemetryView, TelemetryError>(v),
{
    let fs = v.fields();
    v.lemma_fields_index();
    lemma_decimal_field(v.team_id as nat, 0xFFFF);
    v.mission_time.lemma_round_trip();
    v.mission_time.lemma_text_lacks(COMMA);
    lemma_decimal_field(v.packet_count as nat, 0xFFFF_FFFF);
    lemma_code_field(v.mode.code_spec());
    lemma_fixed_field(v.altitude, 1);
    lemma_code_field(v.hs_deployed.code_spec());
    lemma_code_field(v.pc_deployed.code_spec());
    lemma_code_field(v.mast_raised.code_spec());
    lemma_fixed_field(v.temperature, 1);
    lemma_fixed_field(v.voltage, 1);
    v.gps_time.lemma_round_trip();
    v.gps_time.lemma_text_lacks(COMMA);
    lemma_fixed_field(v.gps_altitude, 1);
    lemma_fixed_field(v.gps_latitude, 4);
    lemma_fixed_field(v.gps_longitude, 4);
    lemma_decimal_field(v.gps_sats as nat, 0xFF);
    lemma_fixed_field(v.tilt_x, 2);
    lemma_fixed_field(v.tilt_y, 2);
    if v.state is Yeeted {
        assert(crate::text::lacks(yeeted_text(), COMMA));
    }
    assert forall|i: int| 0 <= i < SEPARATORS as int implies crate::text::lacks(
        #[trigger] fs[i],
        COMMA,
    ) by {}
    lemma_split_join_fields(fs, SEPARATORS as nat);
    assert(fields_error(fs) is None);
    assert(record_of(fs) == v);
}


/// Joining one more field appends a comma and the field.
pub proof fn lemma_join_snoc(fs: Seq<Seq<u8>>, k: int)
    requires
        1 <= k < fs.len(),
    ensures
        join_fields(fs.take(k + 1)) == join_fields(fs.take(k)) + seq![COMMA] + fs[k],
    decreases k,
{
    if k == 1 {
        assert(fs.take(2).drop_first() =~= seq![fs[1]]);
        assert(join_fields(seq![fs[1]]) == fs[1]);
        assert(join_fields(fs.take(1)) == fs[0]);
        assert(join_fields(fs.take(2)) == fs[0] + seq![COMMA] + fs[1]);
    } else {
        let rest = fs.drop_first();
        lemma_join_snoc(rest, k - 1);
        assert(fs.take(k + 1).drop_first() =~= rest.take(k));
        assert(fs.take(k).drop_first() =~= rest.take(k - 1));
        assert(rest[k - 1] == fs[k]);
        assert(fs.take(k)[0] == fs[0]);
        assert(join_fields(fs.take(k + 1)) == fs[0] + seq![COMMA] + join_fields(rest.take(k)));
        assert(join_fields(fs.take(k)) == fs[0] + seq![COMMA] + join_fields(rest.take(k - 1)));
        assert(join_fields(fs.take(k + 1)) =~= join_fields(fs.take(k)) + seq![COMMA] + fs[k]);
    }
}


fn split_fields_exec<'a>(s: &'a [u8], n: usize) -> (r: Option<Vec<&'a [u8]>>)
    ensures
        match split_fields(s@, n as nat) {
            Some(fs) => r matches Some(v) && slice_views(v@) == fs,
            None => r is None,
        },
{
    let mut v: Vec<&'a [u8]> = Vec::new();
    let mut rest: &'a [u8] = s;
    let mut k: usize = 0;
    while k < n
        invariant
            k <= n,
            match split_fields(rest@, (n - k) as nat) {
                Some(t) => split_fields(s@, n as nat) == Some(slice_views(v@) + t),
                None => split_fields(s@, n as nat) is None,
            },
        decreases n - k,
    {
        match split_once(rest, COMMA) {
            None => {
                return None;
            },
            Some((a, b)) => {
                proof {
                    let ghost old_v = slice_views(v@);
                    match split_fields(b@, (n - k - 1) as nat) {
                        Some(t) => {
                            assert(slice_views(v@.push(a)) =~= old_v + seq![a@]);
                            assert(old_v + (seq![a@] + t) =~= old_v + seq![a@] + t);
                        },
                        None => {},
                    }
                }
                v.push(a);
                rest = b;
            },
        }
        k += 1;
    }
    proof {
        assert(slice_views(v@.push(rest)) =~= slice_views(v@) + seq![rest@]);
    }
    v.push(rest);
    Some(v)
}

impl Telemetry {
    /// The text fields of a record are UTF-8.
    pub proof fn lemma_text_fields_utf8(&self)
        ensures
            self@.state matches StateView::Other(b) ==> valid_utf8(b),
            valid_utf8(self@.cmd_echo),
    {
        vstd::utf8::encode_utf8_valid_utf8(self.cmd_echo@);
        match &self.state {
            State::Other(s) => vstd::utf8::encode_utf8_valid_utf8(s@),
            State::Yeeted => {},
        }
    }

    /// Reads one line of telemetry.
    pub fn parse_bytes(line: &[u8]) -> (r: Result<Telemetry, TelemetryError>)
        ensures
            match TelemetryView::parse_spec(line@) {
                Ok(v) => r matches Ok(t) && t@ == v,
                Err(e) => r == Err::<Telemetry, TelemetryError>(e),
            },
    {
        let fs = match split_fields_exec(line, SEPARATORS) {
            None => return Err(TelemetryError::FieldCountMismatch),
            Some(fs) => fs,
        };
        let ghost sv = slice_views(fs@);
        proof {
            lemma_split_fields_len(line@, SEPARATORS as nat);
            reveal_with_fuel(pow10, 5);
        }
        assert(sv.len() == 19);
        assert(forall|i: int| 0 <= i < 19 ==> #[trigger] sv[i] == fs@[i]@);
        let team_id = match parse_uint(fs[0], 0xFFFF) {
            Some(v) => v as u16,
            None => return Err(TelemetryError::FieldParseError { index: 0 }),
        };
        let mission_time = match MissionTime::parse_bytes(fs[1]) {
            Ok(t) => t,
            Err(_) => return Err(TelemetryError::FieldParseError { index: 1 }),
        };
        let packet_count = match parse_uint(fs[2], 0xFFFF_FFFF) {
            Some(v) => v,
            None => return Err(TelemetryError::FieldParseError { index: 2 }),
        };
        if fs[3].len() != 1 {
            return Err(TelemetryError::FieldParseError { index: 3 });
        }
        let mode = match Mode::from_code(fs[3][0]) {
            Some(m) => m,
            None => return Err(TelemetryError::InvalidEnumCode { index: 3, value: fs[3][0] }),
        };
        let yeeted: Vec<u8> = vec![0x59u8, 0x45u8, 0x45u8, 0x54u8, 0x45u8, 0x44u8];
        assert(yeeted@ =~= yeeted_text());
        let state = if bytes_eq(fs[4], yeeted.as_slice()) {
            State::Yeeted
        } else {
            match string_from_utf8(copy_bytes(fs[4])) {
                Some(s) => State::Other(s),
                None => return Err(TelemetryError::FieldParseError { index: 4 }),
            }
        };
        let altitude = match parse_fixed(fs[5], 1, 10) {
            Some(v) => v,
            None => return Err(TelemetryError::FieldParseError { index: 5 }),
        };
        if fs[6].len() != 1 {
            return Err(TelemetryError::FieldParseError { index: 6 });
        }
        let hs_deployed = match HsDeployed::from_code(fs[6][0]) {
            Some(m) => m,
            None => return Err(TelemetryError::InvalidEnumCode { index: 6, value: fs[6][0] }),
        };
        if fs[7].len() != 1 {
            return Err(TelemetryError::FieldParseError { index: 7 });
        }
        let pc_deployed = match PcDeployed::from_code(fs[7][0]) {
            Some(m) => m,
            None => return Err(TelemetryError::InvalidEnumCode { index: 7, value: fs[7][0] }),
        };
        if fs[8].len() != 1 {
            return Err(TelemetryError::FieldParseError { index: 8 });
        }
        let mast_raised = match MastRaised::from_code(fs[8][0]) {
            Some(m) => m,
            None => return Err(TelemetryError::InvalidEnumCode { index: 8, value: fs[8][0] }),
        };
        let temperature = match parse_fixed(fs[9], 1, 10) {
            Some(v) => v,
            None => return Err(TelemetryError::FieldParseError { index: 9 }),
        };
        let voltage = match parse_fixed(fs[10], 1, 10) {
            Some(v) => v,
            None => return Err(TelemetryError::FieldParseError { index: 10 }),
        };
        let gps_time = match GpsTime::parse_bytes(fs[11]) {
            Ok(t) => t,
            Err(_) => return Err(TelemetryError::FieldParseError { index: 11 }),
        };
        let gps_altitude = match parse_fixed(fs[12], 1, 10) {
            Some(v) => v,
            None => return Err(TelemetryError::FieldParseError { index: 12 }),
        };
        let gps_latitude = match parse_fixed(fs[13], 4, 10000) {
            Some(v) => v,
            None => return Err(TelemetryError::FieldParseError { index: 13 }),
        };
        let gps_longitude = match parse_fixed(fs[14], 4, 10000) {
            Some(v) => v,
            None => return Err(TelemetryError::FieldParseError { index: 14 }),
        };
        let gps_sats = match parse_uint(fs[15], 0xFF) {
            Some(v) => v as u8,
            None => return Err(TelemetryError::FieldParseError { index: 15 }),
        };
        let tilt_x = match parse_fixed(fs[16], 2, 100) {
            Some(v) => v,
            None => return Err(TelemetryError::FieldParseError { index: 16 }),
        };
        let tilt_y = match parse_fixed(fs[17], 2, 100) {
            Some(v) => v,
            None => return Err(TelemetryError::FieldParseError { index: 17 }),
        };
        let cmd_echo = match string_from_utf8(copy_bytes(fs[18])) {
            Some(s) => s,
            None => return Err(TelemetryError::FieldParseError { index: 18 }),
        };
        let t = Telemetry {
            team_id,
            mission_time,
            packet_count,
            mode,
            state,
            altitude,
            hs_deployed,
            pc_deployed,
            mast_raised,
            temperature,
            voltage,
            gps_time,
            gps_altitude,
            gps_latitude,
            gps_longitude,
            gps_sats,
            tilt_x,
            tilt_y,
            cmd_echo,
        };
        assert(t@ == record_of(sv));
        Ok(t)
    }

    /// Reads one line of telemetry.
    pub fn parse(line: &str) -> (r: Result<Telemetry, TelemetryError>)
        ensures
            match TelemetryView::parse_spec(line.spec_bytes()) {
                Ok(v) => r matches Ok(t) && t@ == v,
                Err(e) => r == Err::<Telemetry, TelemetryError>(e),
            },
    {
        Self::parse_bytes(line.as_bytes())
    }
    #[verifier::rlimit(100)]
    fn write_head(&self, buf: &mut Vec<u8>, Ghost(base): Ghost<Seq<u8>>)
        requires
            old(buf)@ == base,
        ensures
            final(buf)@ == base + join_fields(self@.fields().take(7)),
    {
        proof {
            reveal_with_fuel(pow10, 5);
            self@.lemma_fields_index();
        }
        let ghost fs = self@.fields();
        push_decimal(buf, self.team_id as u64);
        assert(buf@ =~= base + join_fields(fs.take(1)));
        buf.push(COMMA);
        self.mission_time.write_to(buf);
        proof {
            lemma_join_snoc(fs, 1);
            assert(buf@ =~= base + join_fields(fs.take(2)));
        }
        buf.push(COMMA);
        push_decimal(buf, self.packet_count as u64);
        proof {
            lemma_join_snoc(fs, 2);
            assert(buf@ =~= base + join_fields(fs.take(3)));
        }
        buf.push(COMMA);
        buf.push(self.mode.code());
        proof {
            lemma_join_snoc(fs, 3);
            assert(buf@ =~= base + join_fields(fs.take(4)));
        }
        buf.push(COMMA);
        match &self.state {
            State::Yeeted => {
                let yeeted: Vec<u8> = vec![0x59u8, 0x45u8, 0x45u8, 0x54u8, 0x45u8, 0x44u8];
                assert(yeeted@ =~= yeeted_text());
                push_all(buf, yeeted.as_slice());
            },
            State::Other(s) => {
                push_all(buf, s.as_str().as_bytes());
            },
        }
        proof {
            lemma_join_snoc(fs, 4);
            assert(buf@ =~= base + join_fields(fs.take(5)));
        }
        buf.push(COMMA);
        write_fixed(buf, self.altitude, 1, 10);
        proof {
            lemma_join_snoc(fs, 5);
            assert(buf@ =~= base + join_fields(fs.take(6)));
        }
        buf.push(COMMA);
        buf.push(self.hs_deployed.code());
        proof {
            lemma_join_snoc(fs, 6);
            assert(buf@ =~= base + join_fields(fs.take(7)));
        }
    }

    #[verifier::rlimit(100)]
    fn write_middle(&self, buf: &mut Vec<u8>, Ghost(base): Ghost<Seq<u8>>)
        requires
            old(buf)@ == base + join_fields(self@.fields().take(7)),
        ensures
            final(buf)@ == base + join_fields(self@.fields().take(13)),
    {
        proof {
            reveal_with_fuel(pow10, 5);
            self@.lemma_fields_index();
        }
        let ghost fs = self@.fields();
        buf.push(COMMA);
        buf.push(self.pc_deployed.code());
        proof {
            lemma_join_snoc(fs, 7);
            assert(buf@ =~= base + join_fields(fs.take(8)));
        }
        buf.push(COMMA);
        buf.push(self.mast_raised.code());
        proof {
            lemma_join_snoc(fs, 8);
            assert(buf@ =~= base + join_fields(fs.take(9)));
        }
        buf.push(COMMA);
        write_fixed(buf, self.temperature, 1, 10);
        proof {
            lemma_join_snoc(fs, 9);
            assert(buf@ =~= base + join_fields(fs.take(10)));
        }
        buf.push(COMMA);
        write_fixed(buf, self.voltage, 1, 10);
        proof {
            lemma_join_snoc(fs, 10);
            assert(buf@ =~= base + join_fields(fs.take(11)));
        }
        buf.push(COMMA);
        self.gps_time.write_to(buf);
        proof {
            lemma_join_snoc(fs, 11);
            assert(buf@ =~= base + join_fields(fs.take(12)));
        }
        buf.push(COMMA);
        write_fixed(buf, self.gps_altitude, 1, 10);
        proof {
            lemma_join_snoc(fs, 12);
            assert(buf@ =~= base + join_fields(fs.take(13)));
        }
    }

    #[verifier::rlimit(100)]
    fn write_tail(&self, buf: &mut Vec<u8>, Ghost(base): Ghost<Seq<u8>>)
        requires
            old(buf)@ == base + join_fields(self@.fields().take(13)),
        ensures
            final(buf)@ == base + join_fields(self@.fields().take(19)),
    {
        proof {
            reveal_with_fuel(pow10, 5);
            self@.lemma_fields_index();
        }
        let ghost fs = self@.fields();
        buf.push(COMMA);
        write_fixed(buf, self.gps_latitude, 4, 10000);
        proof {
            lemma_join_snoc(fs, 13);
            assert(buf@ =~= base + join_fields(fs.take(14)));
        }
        buf.push(COMMA);
        write_fixed(buf, self.gps_longitude, 4, 10000);
        proof {
            lemma_join_snoc(fs, 14);
            assert(buf@ =~= base + join_fields(fs.take(15)));
        }
        buf.push(COMMA);
        push_decimal(buf, self.gps_sats as u64);
        proof {
            lemma_join_snoc(fs, 15);
            assert(buf@ =~= base + join_fields(fs.take(16)));
        }
        buf.push(COMMA);
        write_fixed(buf, self.tilt_x, 2, 100);
        proof {
            lemma_join_snoc(fs, 16);
            assert(buf@ =~= base + join_fields(fs.take(17)));
        }
        buf.push(COMMA);
        write_fixed(buf, self.tilt_y, 2, 100);
        proof {
            lemma_join_snoc(fs, 17);
            assert(buf@ =~= base + join_fields(fs.take(18)));
        }
        buf.push(COMMA);
        push_all(buf, self.cmd_echo.as_str().as_bytes());
        proof {
            lemma_join_snoc(fs, 18);
            assert(buf@ =~= base + join_fields(fs.take(19)));
        }
    }

    /// Appends the line of this record.
    pub fn write_to(&self, buf: &mut Vec<u8>)
        ensures
            final(buf)@ == old(buf)@ + self@.text_spec(),
    {
        let ghost base = buf@;
        self.write_head(buf, Ghost(base));
        self.write_middle(buf, Ghost(base));
        self.write_tail(buf, Ghost(base));
        assert(self@.fields().take(19) =~= self@.fields());
    }

    /// The line of this record.
    pub fn format(&self) -> (r: String)
        ensures
            encode_utf8(r@) == self@.text_spec(),
    {
        let mut v: Vec<u8> = Vec::new();
        self.write_to(&mut v);
        proof {
            self.lemma_text_fields_utf8();
            self@.lemma_fields_valid_utf8();
            lemma_join_valid_utf8(self@.fields());
        }
        match string_from_utf8(v) {
            Some(s) => s,
            None => String::new(),
        }
    }
    /// The text of one field, as it stands in the line.
    pub fn get_field(&self, field: TelemetryField) -> (r: String)
        ensures
            encode_utf8(r@) == self@.fields()[field.position()],
    {
        proof {
            reveal_with_fuel(pow10, 5);
            self@.lemma_fields_index();
            self.lemma_text_fields_utf8();
            self@.lemma_fields_valid_utf8();
        }
        let mut v: Vec<u8> = Vec::new();
        match field {
            TelemetryField::TeamId => {
                push_decimal(&mut v, self.team_id as u64);
            },
            TelemetryField::MissionTime => {
                self.mission_time.write_to(&mut v);
            },
            TelemetryField::PacketCount => {
                push_decimal(&mut v, self.packet_count as u64);
            },
            TelemetryField::Mode => {
                v.push(self.mode.code());
            },
            TelemetryField::State => {
                match &self.state {
                    State::Yeeted => {
                        let yeeted: Vec<u8> = vec![0x59u8, 0x45u8, 0x45u8, 0x54u8, 0x45u8, 0x44u8];
                        assert(yeeted@ =~= yeeted_text());
                        push_all(&mut v, yeeted.as_slice());
                    },
                    State::Other(s) => push_all(&mut v, s.as_str().as_bytes()),
                }
            },
            TelemetryField::Altitude => {
                write_fixed(&mut v, self.altitude, 1, 10);
            },
            TelemetryField::HsDeployed => {
                v.push(self.hs_deployed.code());
            },
            TelemetryField::PcDeployed => {
                v.push(self.pc_deployed.code());
            },
            TelemetryField::MastRaised => {
                v.push(self.mast_raised.code());
            },
            TelemetryField::Temperature => {
                write_fixed(&mut v, self.temperature, 1, 10);
            },
            TelemetryField::Voltage => {
                write_fixed(&mut v, self.voltage, 1, 10);
            },
            TelemetryField::GpsTime => {
                self.gps_time.write_to(&mut v);
            },
            TelemetryField::GpsAltitude => {
                write_fixed(&mut v, self.gps_altitude, 1, 10);
            },
            TelemetryField::GpsLatitude => {
                write_fixed(&mut v, self.gps_latitude, 4, 10000);
            },
            TelemetryField::GpsLongitude => {
                write_fixed(&mut v, self.gps_longitude, 4, 10000);
            },
            TelemetryField::GpsSats => {
                push_decimal(&mut v, self.gps_sats as u64);
            },
            TelemetryField::TiltX => {
                write_fixed(&mut v, self.tilt_x, 2, 100);
            },
            TelemetryField::TiltY => {
                write_fixed(&mut v, self.tilt_y, 2, 100);
            },
            TelemetryField::CmdEcho => {
                push_all(&mut v, self.cmd_echo.as_str().as_bytes());
            },
        }
        assert(v@ =~= self@.fields()[field.position()]);
        match string_from_utf8(v) {
            Some(s) => s,
            None => String::new(),
        }
    }
}

} // verus!
