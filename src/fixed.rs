//! Signed decimal numbers with a fixed number of decimal places, held as an
//! integer count of the smallest unit (`-80.4249` at four places is `-804249`).
use vstd::prelude::*;

use crate::clock::{split_at_byte, split_once, DOT};
use crate::text::{
    decimal, is_ascii_bytes, lemma_decimal, lemma_index_of_split, lemma_padded, lemma_parse_padded,
    padded, parse_uint, parse_uint_spec, pow10, push_decimal, push_padded,
};

verus! {

pub const MINUS: u8 = 0x2D;

/// The largest magnitude that a fixed-point field holds.
pub const FIXED_MAX: u32 = 0x7FFF_FFFF;

pub open spec fn abs(v: int) -> nat {
    if v < 0 {
        (-v) as nat
    } else {
        v as nat
    }
}

/// What a fixed-point field reads as: an optional `-`, one or more digits, a
/// dot, and exactly `places` digits, of magnitude at most `FIXED_MAX`.
pub open spec fn parse_fixed_spec(f: Seq<u8>, places: nat) -> Option<int> {
    let neg = f.len() > 0 && f[0] == MINUS;
    let body = if neg {
        f.drop_first()
    } else {
        f
    };
    match split_at_byte(body, DOT) {
        None => None,
        Some((ip, fp)) => if fp.len() != places {
            None
        } else {
            match (parse_uint_spec(ip, FIXED_MAX as nat), parse_uint_spec(fp, (pow10(places) - 1) as nat)) {
                (Some(a), Some(b)) => {
                    let mag = a * pow10(places) + b;
                    if mag <= FIXED_MAX {
                        Some(if neg {
                            -mag
                        } else {
                            mag as int
                        })
                    } else {
                        None
                    }
                },
                _ => None,
            }
        },
    }
}

/// `v` written with `places` decimal places.
pub open spec fn fixed_text(v: int, places: nat) -> Seq<u8> {
    let sign = if v < 0 {
        seq![MINUS]
    } else {
        Seq::<u8>::empty()
    };
    sign + decimal(abs(v) / pow10(places)) + seq![DOT] + padded(abs(v) % pow10(places), places)
}

pub fn parse_fixed(f: &[u8], places: usize, scale: u32) -> (r: Option<i32>)
    requires
        1 <= places <= 4,
        scale == pow10(places as nat),
    ensures
        match parse_fixed_spec(f@, places as nat) {
            Some(v) => r == Some(v as i32),
            None => r is None,
        },
{
    proof {
        reveal_with_fuel(pow10, 5);
    }
    let neg = f.len() > 0 && f[0] == MINUS;
    let body = if neg {
        &f[1..f.len()]
    } else {
        f
    };
    assert(neg ==> body@ =~= f@.drop_first());
    let (ip, fp) = match split_once(body, DOT) {
        None => return None,
        Some(p) => p,
    };
    if fp.len() != places {
        return None;
    }
    let a = parse_uint(ip, FIXED_MAX);
    let b = parse_uint(fp, scale - 1);
    match (a, b) {
        (Some(a), Some(b)) => {
            assert(a as u64 * scale as u64 <= 0x7FFF_FFFFu64 * 10000) by (nonlinear_arith)
                requires
                    a <= 0x7FFF_FFFFu32,
                    scale <= 10000,
            ;
            let mag: u64 = a as u64 * scale as u64 + b as u64;
            if mag <= FIXED_MAX as u64 {
                if neg {
                    Some(-(mag as i32))
                } else {
                    Some(mag as i32)
                }
            } else {
                None
            }
        },
        _ => None,
    }
}

pub fn write_fixed(buf: &mut Vec<u8>, v: i32, places: usize, scale: u32)
    requires
        1 <= places <= 4,
        scale == pow10(places as nat),
    ensures
        final(buf)@ == old(buf)@ + fixed_text(v as int, places as nat),
{
    proof {
        reveal_with_fuel(pow10, 5);
    }
    let mag: u64 = if v < 0 {
        buf.push(MINUS);
        (-(v as i64)) as u64
    } else {
        v as u64
    };
    push_decimal(buf, mag / scale as u64);
    buf.push(DOT);
    push_padded(buf, mag % scale as u64, places);
    assert(buf@ =~= old(buf)@ + fixed_text(v as int, places as nat));
}

pub proof fn lemma_fixed_ascii(v: int, places: nat)
    ensures
        is_ascii_bytes(fixed_text(v, places)),
        forall|i: int| 0 <= i < fixed_text(v, places).len() ==> #[trigger] fixed_text(v, places)[i]
            != 0x2C,
{
    let sign = if v < 0 {
        seq![MINUS]
    } else {
        Seq::<u8>::empty()
    };
    let d = decimal(abs(v) / pow10(places));
    let p = padded(abs(v) % pow10(places), places);
    lemma_decimal(abs(v) / pow10(places));
    lemma_padded(abs(v) % pow10(places), places);
    let t = fixed_text(v, places);
    assert forall|i: int| 0 <= i < t.len() implies #[trigger] t[i] < 128 && t[i] != 0x2C by {
        if i < sign.len() {
            assert(t[i] == sign[i]);
        } else if i < sign.len() + d.len() {
            assert(t[i] == d[i - sign.len()]);
            assert(crate::text::is_digit(d[i - sign.len()]));
        } else if i == sign.len() + d.len() {
        } else {
            assert(t[i] == p[i - sign.len() - d.len() - 1]);
            assert(crate::text::is_digit(p[i - sign.len() - d.len() - 1]));
        }
    }
}

proof fn lemma_pow10_positive(k: nat)
    ensures
        pow10(k) >= 1,
    decreases k,
{
    if k > 0 {
        lemma_pow10_positive((k - 1) as nat);
    }
}

/// Writing a value of magnitude at most `FIXED_MAX` and reading it back gives the value.
pub proof fn lemma_fixed_round_trip(v: int, places: nat)
    requires
        abs(v) <= FIXED_MAX,
        places >= 1,
    ensures
        parse_fixed_spec(fixed_text(v, places), places) == Some(v),
{
    let m = abs(v);
    lemma_pow10_positive(places);
    let q = m / pow10(places);
    let r = m % pow10(places);
    vstd::arithmetic::div_mod::lemma_fundamental_div_mod(m as int, pow10(places) as int);
    vstd::arithmetic::div_mod::lemma_mod_bound(m as int, pow10(places) as int);
    let d = decimal(q);
    let p = padded(r, places);
    lemma_decimal(q);
    lemma_padded(r, places);
    crate::text::lemma_decimal_len_bound(r, places);
    assert(p.len() == places);
    let body = d + seq![DOT] + p;
    let t = fixed_text(v, places);
    assert forall|j: int| 0 <= j < d.len() implies d[j] != DOT by {
        assert(crate::text::is_digit(d[j]));
    }
    crate::clock::lemma_split_join(d, DOT, p);
    lemma_parse_padded(r, places, (pow10(places) - 1) as nat);
    assert(q <= m) by {
        vstd::arithmetic::div_mod::lemma_div_is_ordered_by_denominator(m as int, 1, pow10(places) as int);
    }
    assert(q * pow10(places) + r == m) by (nonlinear_arith)
        requires
            m == pow10(places) * (m / pow10(places)) + m % pow10(places),
            q == m / pow10(places),
            r == m % pow10(places),
    ;
    assert(parse_uint_spec(d, FIXED_MAX as nat) == Some(q));
    assert(split_at_byte(body, DOT) == Some((d, p)));
    if v < 0 {
        assert(t =~= seq![MINUS] + body);
        assert(t.drop_first() =~= body);
    } else {
        assert(t =~= body);
        assert(t[0] == d[0]);
        assert(crate::text::is_digit(d[0]));
    }
}

} // verus!
