//! Recovery of telemetry lines from bytes that did not frame.
use vstd::prelude::*;

use crate::received::ReceivedPacket;
use crate::telemetry::{Telemetry, TelemetryView};
use crate::text::copy_bytes;

verus! {

/// The team identifier that every telemetry line starts with.
pub const TEAM_ID: u16 = 1047;

/// The text of the team identifier.
pub open spec fn team_id_text() -> Seq<u8> {
    seq![0x31u8, 0x30u8, 0x34u8, 0x37u8]
}

/// The runs of ASCII bytes of `s`, split at the bytes that are not ASCII; the
/// last run may be empty, no other is.
pub open spec fn ascii_runs(s: Seq<u8>) -> Seq<Seq<u8>>
    decreases s.len(),
{
    if s.len() == 0 {
        seq![Seq::empty()]
    } else {
        let r = ascii_runs(s.drop_last());
        let b = s.last();
        if b < 128 {
            r.update(r.len() - 1, r.last().push(b))
        } else if r.last().len() > 0 {
            r.push(Seq::empty())
        } else {
            r
        }
    }
}

/// The first position from `i` on where `pat` occurs in `s`, or `-1`.
pub open spec fn find_from(s: Seq<u8>, pat: Seq<u8>, i: int) -> int
    decreases s.len() + 1 - i,
{
    if i < 0 || i + pat.len() > s.len() {
        -1
    } else if s.subrange(i, i + pat.len()) == pat {
        i
    } else {
        find_from(s, pat, i + 1)
    }
}

/// The record that a run holds: the line from the first team identifier on,
/// if it reads as telemetry.
pub open spec fn record_in(run: Seq<u8>) -> Option<TelemetryView> {
    let k = find_from(run, team_id_text(), 0);
    if k < 0 {
        None
    } else {
        match TelemetryView::parse_spec(run.subrange(k, run.len() as int)) {
            Ok(t) => Some(t),
            Err(_) => None,
        }
    }
}

/// The records that the runs hold, in order.
pub open spec fn records_in(runs: Seq<Seq<u8>>) -> Seq<TelemetryView>
    decreases runs.len(),
{
    if runs.len() == 0 {
        Seq::empty()
    } else {
        let prev = records_in(runs.drop_last());
        match record_in(runs.last()) {
            Some(t) => prev.push(t),
            None => prev,
        }
    }
}

pub open spec fn vec_views(v: Seq<Vec<u8>>) -> Seq<Seq<u8>> {
    Seq::new(v.len(), |i: int| v[i]@)
}

pub open spec fn telemetry_views(v: Seq<Telemetry>) -> Seq<TelemetryView> {
    Seq::new(v.len(), |i: int| v[i]@)
}

proof fn lemma_runs_nonempty(s: Seq<u8>)
    ensures
        ascii_runs(s).len() >= 1,
    decreases s.len(),
{
    if s.len() > 0 {
        lemma_runs_nonempty(s.drop_last());
    }
}

fn split_ascii_runs(data: &[u8]) -> (r: Vec<Vec<u8>>)
    ensures
        vec_views(r@) == ascii_runs(data@),
{
    let mut closed: Vec<Vec<u8>> = Vec::new();
    let mut current: Vec<u8> = Vec::new();
    let mut i: usize = 0;
    while i < data.len()
        invariant
            i <= data@.len(),
            ascii_runs(data@.take(i as int)) == vec_views(closed@).push(current@),
        decreases data@.len() - i,
    {
        let b = data[i];
        proof {
            assert(data@.take(i + 1).drop_last() =~= data@.take(i as int));
            lemma_runs_nonempty(data@.take(i as int));
        }
        if b < 128 {
            current.push(b);
            assert(ascii_runs(data@.take(i + 1)) =~= vec_views(closed@).push(current@));
        } else if current.len() > 0 {
            closed.push(current);
            current = Vec::new();
            assert(ascii_runs(data@.take(i + 1)) =~= vec_views(closed@).push(current@));
        }
        i += 1;
    }
    assert(data@.take(i as int) =~= data@);
    closed.push(current);
    assert(vec_views(closed@) =~= ascii_runs(data@));
    closed
}

proof fn lemma_find_from_bounds(s: Seq<u8>, pat: Seq<u8>, i: int)
    ensures
        find_from(s, pat, i) == -1 || (i <= find_from(s, pat, i) && find_from(s, pat, i)
            + pat.len() <= s.len()),
    decreases s.len() + 1 - i,
{
    if !(i < 0 || i + pat.len() > s.len()) && s.subrange(i, i + pat.len()) != pat {
        lemma_find_from_bounds(s, pat, i + 1);
    }
}

/// The first position of the team identifier in `s`, if any.
fn find_team_id(s: &[u8]) -> (r: Option<usize>)
    ensures
        match r {
            Some(k) => k as int == find_from(s@, team_id_text(), 0) && k <= s@.len(),
            None => find_from(s@, team_id_text(), 0) == -1,
        },
{
    let pat: Vec<u8> = vec![0x31u8, 0x30u8, 0x34u8, 0x37u8];
    assert(pat@ =~= team_id_text());
    let mut i: usize = 0;
    while s.len() - i >= 4
        invariant
            i <= s@.len(),
            find_from(s@, team_id_text(), 0) == find_from(s@, team_id_text(), i as int),
            pat@ == team_id_text(),
        decreases s@.len() - i,
    {
        if crate::text::bytes_eq(&s[i..i + 4], pat.as_slice()) {
            return Some(i);
        }
        assert(s@.subrange(i as int, i + 4) != team_id_text());
        i += 1;
    }
    None
}

/// The telemetry records found in `data`: each run of ASCII bytes that holds
/// the team identifier is read from its first occurrence on, and the runs that
/// read as telemetry give their records, in order.
pub fn salvage_records(data: &[u8]) -> (r: Vec<Telemetry>)
    ensures
        telemetry_views(r@) == records_in(ascii_runs(data@)),
{
    let runs = split_ascii_runs(data);
    let mut out: Vec<Telemetry> = Vec::new();
    let mut j: usize = 0;
    while j < runs.len()
        invariant
            j <= runs@.len(),
            vec_views(runs@) == ascii_runs(data@),
            telemetry_views(out@) == records_in(vec_views(runs@).take(j as int)),
        decreases runs@.len() - j,
    {
        let run = runs[j].as_slice();
        proof {
            assert(vec_views(runs@).take(j + 1).drop_last() =~= vec_views(runs@).take(j as int));
            assert(vec_views(runs@).take(j + 1).last() == run@);
        }
        match find_team_id(run) {
            Some(k) => {
                match Telemetry::parse_bytes(&run[k..run.len()]) {
                    Ok(t) => {
                        out.push(t);
                        assert(telemetry_views(out@) =~= records_in(
                            vec_views(runs@).take(j + 1),
                        ));
                    },
                    Err(_) => {},
                }
            },
            None => {},
        }
        j += 1;
    }
    assert(vec_views(runs@).take(j as int) =~= vec_views(runs@));
    out
}

/// The telemetry that an `Invalid` event still holds; other events give none.
pub fn recover_telemetry(packet: &ReceivedPacket) -> (r: Vec<Telemetry>)
    ensures
        match packet {
            ReceivedPacket::Invalid(data) => telemetry_views(r@) == records_in(
                ascii_runs(data@),
            ),
            _ => r@.len() == 0,
        },
{
    match packet {
        ReceivedPacket::Invalid(data) => salvage_records(data.as_slice()),
        _ => Vec::new(),
    }
}

} // verus!
