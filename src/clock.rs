//! Clock fields of telemetry: `hh:mm:ss`, optionally followed by `.cc`.
use vstd::prelude::*;
use vstd::string::StringSliceAdditionalSpecFns;
use vstd::utf8::encode_utf8;

use crate::text::{
    find_byte, index_of, is_ascii_bytes, lemma_ascii_concat, lemma_ascii_valid_utf8, lemma_index_of_bounds,
    lemma_index_of_split, lemma_padded, lemma_parse_padded, padded, parse_uint, parse_uint_spec,
    push_padded, string_from_utf8,
};

verus! {

pub const COLON: u8 = 0x3A;

pub const DOT: u8 = 0x2E;

/// The centisecond value of a mission time whose centiseconds are not known.
pub const NO_CENTISECONDS: u8 = 255;

/// Why a clock field could not be read.
#[derive(Debug, Clone, Copy, PartialEq, Eq, Structural)]
pub enum ClockError {
    /// The text is not made of the expected numbers and separators.
    Malformed,
    /// A number is out of range for its place.
    OutOfRange,
}

/// The bytes before and after the first `c`, if there is one.
pub open spec fn split_at_byte(s: Seq<u8>, c: u8) -> Option<(Seq<u8>, Seq<u8>)> {
    let i = index_of(s, c);
    if i < s.len() {
        Some((s.subrange(0, i), s.subrange(i + 1, s.len() as int)))
    } else {
        None
    }
}

/// The bytes before and after the first `c`, if there is one.
pub fn split_once(s: &[u8], c: u8) -> (r: Option<(&[u8], &[u8])>)
    ensures
        match split_at_byte(s@, c) {
            Some((a, b)) => r matches Some((x, y)) && x@ == a && y@ == b,
            None => r is None,
        },
{
    let i = find_byte(s, c);
    proof {
        lemma_index_of_bounds(s@, c);
    }
    if i < s.len() {
        Some((&s[0..i], &s[i + 1..s.len()]))
    } else {
        None
    }
}

/// Splitting `a`, `c`, `b` at the first `c` gives `a` and `b` back when `a` holds no `c`.
pub proof fn lemma_split_join(a: Seq<u8>, c: u8, b: Seq<u8>)
    requires
        forall|j: int| 0 <= j < a.len() ==> a[j] != c,
    ensures
        split_at_byte(a + seq![c] + b, c) == Some((a, b)),
{
    let s = a + seq![c] + b;
    assert(s =~= a + (seq![c] + b));
    lemma_index_of_split(a, seq![c] + b, c);
    assert(index_of(seq![c] + b, c) == 0);
    assert(s.subrange(0, a.len() as int) =~= a);
    assert(s.subrange(a.len() as int + 1, s.len() as int) =~= b);
}

proof fn lemma_digits_hold_no(s: Seq<u8>, c: u8)
    requires
        crate::text::all_digits(s),
        !crate::text::is_digit(c),
    ensures
        forall|j: int| 0 <= j < s.len() ==> s[j] != c,
{
    assert forall|j: int| 0 <= j < s.len() implies s[j] != c by {
        assert(crate::text::is_digit(s[j]));
    }
}

/// Hours, minutes and the text after the second colon.
pub open spec fn hm_rest(s: Seq<u8>) -> Result<(nat, nat, Seq<u8>), ClockError> {
    match split_at_byte(s, COLON) {
        None => Err(ClockError::Malformed),
        Some((hs, r1)) => match split_at_byte(r1, COLON) {
            None => Err(ClockError::Malformed),
            Some((ms, rest)) => match (parse_uint_spec(hs, 255), parse_uint_spec(ms, 255)) {
                (Some(h), Some(m)) => Ok((h, m, rest)),
                _ => Err(ClockError::Malformed),
            },
        },
    }
}

fn read_hm_rest(s: &[u8]) -> (r: Result<(u8, u8, &[u8]), ClockError>)
    ensures
        match hm_rest(s@) {
            Ok((h, m, rest)) => r matches Ok((x, y, z)) && x == h && y == m && z@ == rest,
            Err(e) => r == Err::<(u8, u8, &[u8]), ClockError>(e),
        },
{
    let (hs, r1) = match split_once(s, COLON) {
        Some(p) => p,
        None => return Err(ClockError::Malformed),
    };
    let (ms, rest) = match split_once(r1, COLON) {
        Some(p) => p,
        None => return Err(ClockError::Malformed),
    };
    let h = parse_uint(hs, 255);
    let m = parse_uint(ms, 255);
    match (h, m) {
        (Some(h), Some(m)) => Ok((h as u8, m as u8, rest)),
        _ => Err(ClockError::Malformed),
    }
}

/// `hh:mm:ss` of the given numbers, each with at least two digits.
pub open spec fn hms_text(h: u8, m: u8, s: u8) -> Seq<u8> {
    padded(h as nat, 2) + seq![COLON] + padded(m as nat, 2) + seq![COLON] + padded(s as nat, 2)
}

fn write_hms(buf: &mut Vec<u8>, h: u8, m: u8, s: u8)
    ensures
        final(buf)@ == old(buf)@ + hms_text(h, m, s),
{
    push_padded(buf, h as u64, 2);
    buf.push(COLON);
    push_padded(buf, m as u64, 2);
    buf.push(COLON);
    push_padded(buf, s as u64, 2);
    assert(buf@ =~= old(buf)@ + hms_text(h, m, s));
}

proof fn lemma_hms_ascii(h: u8, m: u8, s: u8)
    ensures
        is_ascii_bytes(hms_text(h, m, s)),
{
    lemma_padded(h as nat, 2);
    lemma_padded(m as nat, 2);
    lemma_padded(s as nat, 2);
    let t = hms_text(h, m, s);
    assert forall|i: int| 0 <= i < t.len() implies #[trigger] t[i] < 128 by {
        let a = padded(h as nat, 2);
        let b = padded(m as nat, 2);
        if i < a.len() {
            assert(t[i] == a[i]);
        } else if i == a.len() {
        } else if i < a.len() + 1 + b.len() {
            assert(t[i] == b[i - a.len() - 1]);
        } else if i == a.len() + 1 + b.len() {
        } else {
            assert(t[i] == padded(s as nat, 2)[i - a.len() - 2 - b.len()]);
        }
    }
}

proof fn lemma_hm_rest_of_text(h: u8, m: u8, rest: Seq<u8>)
    ensures
        hm_rest(padded(h as nat, 2) + seq![COLON] + padded(m as nat, 2) + seq![COLON] + rest)
            == Ok::<(nat, nat, Seq<u8>), ClockError>((h as nat, m as nat, rest)),
{
    let a = padded(h as nat, 2);
    let b = padded(m as nat, 2);
    lemma_padded(h as nat, 2);
    lemma_padded(m as nat, 2);
    lemma_digits_hold_no(a, COLON);
    lemma_digits_hold_no(b, COLON);
    let r1 = b + seq![COLON] + rest;
    assert(a + seq![COLON] + b + seq![COLON] + rest =~= a + seq![COLON] + r1);
    lemma_split_join(a, COLON, r1);
    lemma_split_join(b, COLON, rest);
    lemma_parse_padded(h as nat, 2, 255);
    lemma_parse_padded(m as nat, 2, 255);
}

/// ASCII bytes as a `String`.
fn ascii_string(v: Vec<u8>) -> (r: String)
    requires
        is_ascii_bytes(v@),
    ensures
        encode_utf8(r@) == v@,
{
    proof {
        lemma_ascii_valid_utf8(v@);
    }
    match string_from_utf8(v) {
        Some(s) => s,
        None => String::new(),
    }
}

/// Time from the GPS receiver, to the second.
#[derive(Debug, Clone, Copy, PartialEq, Eq, PartialOrd, Ord, Structural)]
pub struct GpsTime {
    pub h: u8,
    pub m: u8,
    pub s: u8,
}

impl GpsTime {
    pub open spec fn valid(self) -> bool {
        self.h < 24 && self.m < 60 && self.s < 60
    }

    /// What `hh:mm:ss` text reads as.
    pub open spec fn parse_spec(t: Seq<u8>) -> Result<GpsTime, ClockError> {
        match hm_rest(t) {
            Err(e) => Err(e),
            Ok((h, m, rest)) => match parse_uint_spec(rest, 255) {
                None => Err(ClockError::Malformed),
                Some(s) => if h < 24 && m < 60 && s < 60 {
                    Ok(GpsTime { h: h as u8, m: m as u8, s: s as u8 })
                } else {
                    Err(ClockError::OutOfRange)
                },
            },
        }
    }

    pub open spec fn text_spec(self) -> Seq<u8> {
        hms_text(self.h, self.m, self.s)
    }

    /// A GPS time of the given hours, minutes and seconds, if they are in range.
    pub fn new(h: u8, m: u8, s: u8) -> (r: Result<GpsTime, ClockError>)
        ensures
            r == (if (GpsTime { h, m, s }).valid() {
                Ok(GpsTime { h, m, s })
            } else {
                Err(ClockError::OutOfRange)
            }),
    {
        if h < 24 && m < 60 && s < 60 {
            Ok(GpsTime { h, m, s })
        } else {
            Err(ClockError::OutOfRange)
        }
    }

    pub fn parse_bytes(t: &[u8]) -> (r: Result<GpsTime, ClockError>)
        ensures
            r == Self::parse_spec(t@),
    {
        let (h, m, rest) = read_hm_rest(t)?;
        match parse_uint(rest, 255) {
            None => Err(ClockError::Malformed),
            Some(s) => Self::new(h, m, s as u8),
        }
    }

    pub fn parse(t: &str) -> (r: Result<GpsTime, ClockError>)
        ensures
            r == Self::parse_spec(t.spec_bytes()),
    {
        Self::parse_bytes(t.as_bytes())
    }

    pub fn write_to(&self, buf: &mut Vec<u8>)
        ensures
            final(buf)@ == old(buf)@ + self.text_spec(),
    {
        write_hms(buf, self.h, self.m, self.s);
    }

    /// `hh:mm:ss`.
    pub fn format(&self) -> (r: String)
        ensures
            encode_utf8(r@) == self.text_spec(),
    {
        let mut v: Vec<u8> = Vec::new();
        self.write_to(&mut v);
        proof {
            lemma_hms_ascii(self.h, self.m, self.s);
            assert(v@ =~= self.text_spec());
        }
        ascii_string(v)
    }

    /// Formatting a valid GPS time and reading the text back gives the same time.
    pub proof fn lemma_round_trip(self)
        requires
            self.valid(),
        ensures
            Self::parse_spec(self.text_spec()) == Ok::<GpsTime, ClockError>(self),
    {
        lemma_hm_rest_of_text(self.h, self.m, padded(self.s as nat, 2));
        lemma_parse_padded(self.s as nat, 2, 255);
    }
}

/// Mission time: `hh:mm:ss.cc`, where the centiseconds may be missing.
#[derive(Debug, Clone, Copy, PartialEq, Eq, PartialOrd, Ord, Structural)]
pub struct MissionTime {
    pub h: u8,
    pub m: u8,
    pub s: u8,
    /// Centiseconds, or `NO_CENTISECONDS` when they are not known.
    pub cs: u8,
}

impl MissionTime {
    pub open spec fn valid(self) -> bool {
        self.h < 24 && self.m < 60 && self.s < 60 && (self.cs < 100 || self.cs
            == NO_CENTISECONDS)
    }

    /// What `hh:mm:ss` or `hh:mm:ss.cc` text reads as.
    pub open spec fn parse_spec(t: Seq<u8>) -> Result<MissionTime, ClockError> {
        match hm_rest(t) {
            Err(e) => Err(e),
            Ok((h, m, rest)) => match split_at_byte(rest, DOT) {
                Some((ss, css)) => match (parse_uint_spec(ss, 255), parse_uint_spec(css, 255)) {
                    (Some(s), Some(cs)) => if h < 24 && m < 60 && s < 60 && cs < 100 {
                        Ok(MissionTime { h: h as u8, m: m as u8, s: s as u8, cs: cs as u8 })
                    } else {
                        Err(ClockError::OutOfRange)
                    },
                    _ => Err(ClockError::Malformed),
                },
                None => match parse_uint_spec(rest, 255) {
                    None => Err(ClockError::Malformed),
                    Some(s) => if h < 24 && m < 60 && s < 60 {
                        Ok(MissionTime { h: h as u8, m: m as u8, s: s as u8, cs: NO_CENTISECONDS })
                    } else {
                        Err(ClockError::OutOfRange)
                    },
                },
            },
        }
    }

    pub open spec fn text_spec(self) -> Seq<u8> {
        if self.cs < 100 {
            hms_text(self.h, self.m, self.s) + seq![DOT] + padded(self.cs as nat, 2)
        } else {
            hms_text(self.h, self.m, self.s)
        }
    }

    /// A mission time of the given fields, if they are in range.
    pub fn new(h: u8, m: u8, s: u8, cs: u8) -> (r: Result<MissionTime, ClockError>)
        ensures
            r == (if (MissionTime { h, m, s, cs }).valid() {
                Ok(MissionTime { h, m, s, cs })
            } else {
                Err(ClockError::OutOfRange)
            }),
    {
        if h < 24 && m < 60 && s < 60 && (cs < 100 || cs == NO_CENTISECONDS) {
            Ok(MissionTime { h, m, s, cs })
        } else {
            Err(ClockError::OutOfRange)
        }
    }

    pub fn parse_bytes(t: &[u8]) -> (r: Result<MissionTime, ClockError>)
        ensures
            r == Self::parse_spec(t@),
    {
        let (h, m, rest) = read_hm_rest(t)?;
        match split_once(rest, DOT) {
            Some((ss, css)) => match (parse_uint(ss, 255), parse_uint(css, 255)) {
                (Some(s), Some(cs)) => {
                    if cs < 100 {
                        Self::new(h, m, s as u8, cs as u8)
                    } else {
                        Err(ClockError::OutOfRange)
                    }
                },
                _ => Err(ClockError::Malformed),
            },
            None => match parse_uint(rest, 255) {
                None => Err(ClockError::Malformed),
                Some(s) => Self::new(h, m, s as u8, NO_CENTISECONDS),
            },
        }
    }

    pub fn parse(t: &str) -> (r: Result<MissionTime, ClockError>)
        ensures
            r == Self::parse_spec(t.spec_bytes()),
    {
        Self::parse_bytes(t.as_bytes())
    }

    pub fn write_to(&self, buf: &mut Vec<u8>)
        ensures
            final(buf)@ == old(buf)@ + self.text_spec(),
    {
        write_hms(buf, self.h, self.m, self.s);
        if self.cs < 100 {
            buf.push(DOT);
            push_padded(buf, self.cs as u64, 2);
        }
        assert(buf@ =~= old(buf)@ + self.text_spec());
    }

    /// `hh:mm:ss.cc`, or `hh:mm:ss` when the centiseconds are not known.
    pub fn format(&self) -> (r: String)
        ensures
            encode_utf8(r@) == self.text_spec(),
    {
        let mut v: Vec<u8> = Vec::new();
        self.write_to(&mut v);
        proof {
            lemma_hms_ascii(self.h, self.m, self.s);
            lemma_padded(self.cs as nat, 2);
            lemma_ascii_concat(hms_text(self.h, self.m, self.s), seq![DOT], padded(self.cs as nat, 2));
            assert(v@ =~= self.text_spec());
        }
        ascii_string(v)
    }

    /// Formatting a valid mission time and reading the text back gives the same time.
    pub proof fn lemma_round_trip(self)
        requires
            self.valid(),
        ensures
            Self::parse_spec(self.text_spec()) == Ok::<MissionTime, ClockError>(self),
    {
        let sp = padded(self.s as nat, 2);
        lemma_padded(self.s as nat, 2);
        lemma_parse_padded(self.s as nat, 2, 255);
        lemma_digits_hold_no(sp, DOT);
        if self.cs < 100 {
            let rest = sp + seq![DOT] + padded(self.cs as nat, 2);
            assert(self.text_spec() =~= padded(self.h as nat, 2) + seq![COLON] + padded(
                self.m as nat,
                2,
            ) + seq![COLON] + rest);
            lemma_hm_rest_of_text(self.h, self.m, rest);
            lemma_split_join(sp, DOT, padded(self.cs as nat, 2));
            lemma_parse_padded(self.cs as nat, 2, 255);
        } else {
            lemma_hm_rest_of_text(self.h, self.m, sp);
            lemma_index_of_split(sp, Seq::<u8>::empty(), DOT);
            assert(sp + Seq::<u8>::empty() =~= sp);
        }
    }
}

/// A time of day with centiseconds: `hh:mm:ss.cc`.
#[derive(Debug, Clone, Copy, PartialEq, Eq, PartialOrd, Ord, Structural)]
pub struct Timestamp {
    pub h: u8,
    pub m: u8,
    pub s: u8,
    pub cs: u8,
}

impl Timestamp {
    pub open spec fn valid(self) -> bool {
        self.h < 24 && self.m < 60 && self.s < 60 && self.cs < 100
    }

    /// What `hh:mm:ss.cc` text reads as.
    pub open spec fn parse_spec(t: Seq<u8>) -> Result<Timestamp, ClockError> {
        match hm_rest(t) {
            Err(e) => Err(e),
            Ok((h, m, rest)) => match split_at_byte(rest, DOT) {
                Some((ss, css)) => match (parse_uint_spec(ss, 255), parse_uint_spec(css, 255)) {
                    (Some(s), Some(cs)) => if h < 24 && m < 60 && s < 60 && cs < 100 {
                        Ok(Timestamp { h: h as u8, m: m as u8, s: s as u8, cs: cs as u8 })
                    } else {
                        Err(ClockError::OutOfRange)
                    },
                    _ => Err(ClockError::Malformed),
                },
                None => Err(ClockError::Malformed),
            },
        }
    }

    pub open spec fn text_spec(self) -> Seq<u8> {
        hms_text(self.h, self.m, self.s) + seq![DOT] + padded(self.cs as nat, 2)
    }

    /// A timestamp of the given fields, if they are in range.
    pub fn new(h: u8, m: u8, s: u8, cs: u8) -> (r: Result<Timestamp, ClockError>)
        ensures
            r == (if (Timestamp { h, m, s, cs }).valid() {
                Ok(Timestamp { h, m, s, cs })
            } else {
                Err(ClockError::OutOfRange)
            }),
    {
        if h < 24 && m < 60 && s < 60 && cs < 100 {
            Ok(Timestamp { h, m, s, cs })
        } else {
            Err(ClockError::OutOfRange)
        }
    }

    pub fn parse_bytes(t: &[u8]) -> (r: Result<Timestamp, ClockError>)
        ensures
            r == Self::parse_spec(t@),
    {
        let (h, m, rest) = read_hm_rest(t)?;
        match split_once(rest, DOT) {
            Some((ss, css)) => match (parse_uint(ss, 255), parse_uint(css, 255)) {
                (Some(s), Some(cs)) => Self::new(h, m, s as u8, cs as u8),
                _ => Err(ClockError::Malformed),
            },
            None => Err(ClockError::Malformed),
        }
    }

    pub fn parse(t: &str) -> (r: Result<Timestamp, ClockError>)
        ensures
            r == Self::parse_spec(t.spec_bytes()),
    {
        Self::parse_bytes(t.as_bytes())
    }

    /// `hh:mm:ss.cc`.
    pub fn format(&self) -> (r: String)
        ensures
            encode_utf8(r@) == self.text_spec(),
    {
        let mut v: Vec<u8> = Vec::new();
        write_hms(&mut v, self.h, self.m, self.s);
        v.push(DOT);
        push_padded(&mut v, self.cs as u64, 2);
        proof {
            lemma_hms_ascii(self.h, self.m, self.s);
            lemma_padded(self.cs as nat, 2);
            lemma_ascii_concat(hms_text(self.h, self.m, self.s), seq![DOT], padded(self.cs as nat, 2));
            assert(v@ =~= self.text_spec());
        }
        ascii_string(v)
    }

    /// Formatting a valid timestamp and reading the text back gives the same timestamp.
    pub proof fn lemma_round_trip(self)
        requires
            self.valid(),
        ensures
            Self::parse_spec(self.text_spec()) == Ok::<Timestamp, ClockError>(self),
    {
        let sp = padded(self.s as nat, 2);
        lemma_padded(self.s as nat, 2);
        lemma_parse_padded(self.s as nat, 2, 255);
        lemma_digits_hold_no(sp, DOT);
        let rest = sp + seq![DOT] + padded(self.cs as nat, 2);
        assert(self.text_spec() =~= padded(self.h as nat, 2) + seq![COLON] + padded(
            self.m as nat,
            2,
        ) + seq![COLON] + rest);
        lemma_hm_rest_of_text(self.h, self.m, rest);
        lemma_split_join(sp, DOT, padded(self.cs as nat, 2));
        lemma_parse_padded(self.cs as nat, 2, 255);
    }
}

/// The text of a clock holds only digits, colons and dots.
pub proof fn lemma_hms_lacks(h: u8, m: u8, s: u8, c: u8)
    requires
        !crate::text::is_digit(c),
        c != COLON,
    ensures
        crate::text::lacks(hms_text(h, m, s), c),
{
    lemma_padded(h as nat, 2);
    lemma_padded(m as nat, 2);
    lemma_padded(s as nat, 2);
    crate::text::lemma_digits_lack(padded(h as nat, 2), c);
    crate::text::lemma_digits_lack(padded(m as nat, 2), c);
    crate::text::lemma_digits_lack(padded(s as nat, 2), c);
    assert(crate::text::lacks(seq![COLON], c));
    crate::text::lemma_lacks_concat(padded(h as nat, 2), seq![COLON], c);
    crate::text::lemma_lacks_concat(padded(h as nat, 2) + seq![COLON], padded(m as nat, 2), c);
    crate::text::lemma_lacks_concat(
        padded(h as nat, 2) + seq![COLON] + padded(m as nat, 2),
        seq![COLON],
        c,
    );
    crate::text::lemma_lacks_concat(
        padded(h as nat, 2) + seq![COLON] + padded(m as nat, 2) + seq![COLON],
        padded(s as nat, 2),
        c,
    );
}

impl MissionTime {
    /// The text of a mission time holds only digits, colons and dots.
    pub proof fn lemma_text_lacks(self, c: u8)
        requires
            !crate::text::is_digit(c),
            c != COLON,
            c != DOT,
        ensures
            crate::text::lacks(self.text_spec(), c),
            crate::text::is_ascii_bytes(self.text_spec()),
    {
        lemma_hms_lacks(self.h, self.m, self.s, c);
        lemma_hms_ascii(self.h, self.m, self.s);
        if self.cs < 100 {
            lemma_padded(self.cs as nat, 2);
            crate::text::lemma_digits_lack(padded(self.cs as nat, 2), c);
            assert(crate::text::lacks(seq![DOT], c));
            crate::text::lemma_lacks_concat(hms_text(self.h, self.m, self.s), seq![DOT], c);
            crate::text::lemma_lacks_concat(
                hms_text(self.h, self.m, self.s) + seq![DOT],
                padded(self.cs as nat, 2),
                c,
            );
            lemma_ascii_concat(hms_text(self.h, self.m, self.s), seq![DOT], padded(self.cs as nat, 2));
        }
    }
}

impl GpsTime {
    /// The text of a GPS time holds only digits and colons.
    pub proof fn lemma_text_lacks(self, c: u8)
        requires
            !crate::text::is_digit(c),
            c != COLON,
        ensures
            crate::text::lacks(self.text_spec(), c),
            crate::text::is_ascii_bytes(self.text_spec()),
    {
        lemma_hms_lacks(self.h, self.m, self.s, c);
        lemma_hms_ascii(self.h, self.m, self.s);
    }
}

/// Centiseconds in a day.
pub const CENTISECONDS_PER_DAY: u32 = 8_640_000;

impl MissionTime {
    /// The time of day in centiseconds; unknown centiseconds count as zero.
    pub open spec fn centiseconds_spec(self) -> int {
        self.h * 360000 + self.m * 6000 + self.s * 100 + if self.cs < 100 {
            self.cs as int
        } else {
            0
        }
    }

    /// The time of day in centiseconds, for ordering samples in time; unknown
    /// centiseconds count as zero.
    pub fn as_centiseconds(&self) -> (r: u32)
        ensures
            r == self.centiseconds_spec(),
    {
        let cs: u32 = if self.cs < 100 {
            self.cs as u32
        } else {
            0
        };
        self.h as u32 * 360000 + self.m as u32 * 6000 + self.s as u32 * 100 + cs
    }

    /// The mission time of a time of day given in centiseconds.
    pub fn from_centiseconds(t: u32) -> (r: MissionTime)
        requires
            t < CENTISECONDS_PER_DAY,
        ensures
            r.valid(),
            r.cs < 100,
            r.centiseconds_spec() == t,
    {
        let h = t / 360000;
        let m = t % 360000 / 6000;
        let s = t % 6000 / 100;
        let cs = t % 100;
        assert(t == h * 360000 + m * 6000 + s * 100 + cs) by (nonlinear_arith)
            requires
                h == t / 360000,
                m == t % 360000 / 6000,
                s == t % 6000 / 100,
                cs == t % 100,
        ;
        MissionTime { h: h as u8, m: m as u8, s: s as u8, cs: cs as u8 }
    }

    /// A valid mission time with known centiseconds comes back from its count
    /// of centiseconds.
    pub proof fn lemma_centiseconds_round_trip(self)
        requires
            self.valid(),
            self.cs < 100,
        ensures
            0 <= self.centiseconds_spec() < CENTISECONDS_PER_DAY,
            ({
                let t = self.centiseconds_spec();
                &&& t / 360000 == self.h
                &&& t % 360000 / 6000 == self.m
                &&& t % 6000 / 100 == self.s
                &&& t % 100 == self.cs
            }),
    {
        let t = self.centiseconds_spec();
        let (h, m, s, cs) = (self.h as int, self.m as int, self.s as int, self.cs as int);
        assert(t / 360000 == h && t % 360000 / 6000 == m && t % 6000 / 100 == s && t % 100 == cs)
            by (nonlinear_arith)
            requires
                t == h * 360000 + m * 6000 + s * 100 + cs,
                0 <= h < 24,
                0 <= m < 60,
                0 <= s < 60,
                0 <= cs < 100,
        ;
    }
}

impl Timestamp {
    /// The time of day in centiseconds, for ordering samples in time.
    pub fn as_centiseconds(&self) -> (r: u32)
        ensures
            r == self.h * 360000 + self.m * 6000 + self.s * 100 + self.cs,
    {
        self.h as u32 * 360000 + self.m as u32 * 6000 + self.s as u32 * 100 + self.cs as u32
    }
}

} // verus!
