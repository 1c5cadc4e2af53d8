//! Recovery of frame boundaries from a byte stream that arrives in chunks of
//! any size and may hold noise between frames.
use vstd::prelude::*;

use crate::frame::{
    decode_spec, lemma_decode_depends_on_frame_bytes, lemma_decode_encode, DecodeError, FrameModel,
    XbeePacket, ESCAPED_LENGTH, START_BYTE,
};
use crate::received::{event_of, ReceivedPacket};
use crate::text::copy_bytes;

verus! {

/// The capacity of the working buffer.
pub const BUFFER_CAPACITY: usize = 4096;

/// The trailing window of a full buffer in which the start of the next frame is
/// looked for when nothing before it could be claimed.
pub const FRAME_WINDOW: usize = 256;

/// A stretch of the working buffer that one event covers.
pub enum Piece {
    /// Bytes between `start` and `end` that no frame claimed.
    Noise { start: int, end: int },
    /// A frame that takes the bytes between `start` and `end`.
    Frame { start: int, end: int },
}

/// The pieces found by scanning `b` from `i` on, where everything before
/// `parsed` has been claimed, and where the claimed part then ends.
pub open spec fn scan(b: Seq<u8>, i: int, parsed: int) -> (Seq<Piece>, int)
    decreases b.len() - i,
{
    if i >= b.len() || i < 0 {
        (Seq::empty(), parsed)
    } else if b[i] != START_BYTE {
        scan(b, i + 1, parsed)
    } else {
        match decode_spec(b.subrange(i, b.len() as int)) {
            Err(_) => scan(b, i + 1, parsed),
            Ok((_, n)) => {
                let rest = scan(b, i + n, i + n);
                let noise = if i != parsed {
                    seq![Piece::Noise { start: parsed, end: i }]
                } else {
                    Seq::empty()
                };
                (noise + seq![Piece::Frame { start: i, end: i + n }] + rest.0, rest.1)
            },
        }
    }
}

/// The position of the last start byte among those from `lo` up to `hi`, or
/// `-1` when there is none.
pub open spec fn last_start_in(b: Seq<u8>, lo: int, hi: int) -> int
    decreases hi - lo,
{
    if hi <= lo {
        -1
    } else if b[hi - 1] == START_BYTE {
        hi - 1
    } else {
        last_start_in(b, lo, hi - 1)
    }
}

/// Where the kept part of the buffer starts after a scan that claimed up to `parsed`.
pub open spec fn keep_from(b: Seq<u8>, parsed: int) -> int {
    if b.len() == BUFFER_CAPACITY && parsed <= BUFFER_CAPACITY - FRAME_WINDOW {
        let p = last_start_in(b, (BUFFER_CAPACITY - FRAME_WINDOW) as int, b.len() as int);
        if p < 0 {
            b.len() as int
        } else {
            p
        }
    } else {
        parsed
    }
}

/// `ev` is the event of piece `pc` of the buffer `b`.
pub open spec fn piece_event(b: Seq<u8>, pc: Piece, ev: ReceivedPacket) -> bool {
    match pc {
        Piece::Noise { start, end } => ev matches ReceivedPacket::Invalid(v) && v@ == b.subrange(
            start,
            end,
        ),
        Piece::Frame { start, end } => event_of(b.subrange(start, end), ev),
    }
}

pub open spec fn events_match(b: Seq<u8>, pieces: Seq<Piece>, evs: Seq<ReceivedPacket>) -> bool {
    &&& pieces.len() == evs.len()
    &&& forall|k: int| 0 <= k < pieces.len() ==> piece_event(b, #[trigger] pieces[k], evs[k])
}

/// What an event covers: whether it is a frame, and its bytes.
pub open spec fn piece_content(b: Seq<u8>, pc: Piece) -> (bool, Seq<u8>) {
    match pc {
        Piece::Noise { start, end } => (false, b.subrange(start, end)),
        Piece::Frame { start, end } => (true, b.subrange(start, end)),
    }
}

pub open spec fn contents(b: Seq<u8>, pieces: Seq<Piece>) -> Seq<(bool, Seq<u8>)> {
    Seq::new(pieces.len(), |k: int| piece_content(b, pieces[k]))
}

/// One push on the buffer's bytes: what its events cover, and the bytes kept.
pub open spec fn feed(buf: Seq<u8>, chunk: Seq<u8>) -> (Seq<(bool, Seq<u8>)>, Seq<u8>) {
    let b = buf + chunk;
    let (pieces, parsed) = scan(b, 0, 0);
    (contents(b, pieces), b.subrange(keep_from(b, parsed), b.len() as int))
}

/// `ev` is the event of what `c` covers.
pub open spec fn content_event(c: (bool, Seq<u8>), ev: ReceivedPacket) -> bool {
    if c.0 {
        event_of(c.1, ev)
    } else {
        ev matches ReceivedPacket::Invalid(v) && v@ == c.1
    }
}

/// The working buffer of the stream: bytes that arrived and were not yet
/// claimed by an event.
pub struct StreamResync {
    buf: Vec<u8>,
}

impl View for StreamResync {
    type V = Seq<u8>;

    closed spec fn view(&self) -> Seq<u8> {
        self.buf@
    }
}

proof fn lemma_events_push(
    b: Seq<u8>,
    done: Seq<Piece>,
    evs: Seq<ReceivedPacket>,
    pc: Piece,
    ev: ReceivedPacket,
)
    requires
        events_match(b, done, evs),
        piece_event(b, pc, ev),
    ensures
        events_match(b, done.push(pc), evs.push(ev)),
{
    assert forall|k: int| 0 <= k < done.len() + 1 implies piece_event(
        b,
        #[trigger] done.push(pc)[k],
        evs.push(ev)[k],
    ) by {
        if k < done.len() {
            assert(done.push(pc)[k] == done[k]);
            assert(evs.push(ev)[k] == evs[k]);
        }
    }
}

/// A frame found at `i` is decoded from exactly the bytes it takes.
proof fn lemma_frame_bytes(b: Seq<u8>, i: int)
    requires
        0 <= i < b.len(),
        decode_spec(b.subrange(i, b.len() as int)) is Ok,
    ensures
        ({
            let n = decode_spec(b.subrange(i, b.len() as int))->Ok_0.1;
            &&& i + n <= b.len()
            &&& decode_spec(b.subrange(i, i + n)) == decode_spec(b.subrange(i, b.len() as int))
        }),
{
    let tail = b.subrange(i, b.len() as int);
    let n = decode_spec(tail)->Ok_0.1;
    assert(tail.subrange(0, n) =~= b.subrange(i, i + n));
    assert(b.subrange(i, i + n).subrange(0, n) =~= tail.subrange(0, n));
    lemma_decode_depends_on_frame_bytes(tail, b.subrange(i, i + n));
}

/// One step of the scan over a frame found at `i`.
proof fn lemma_scan_frame(b: Seq<u8>, i: int, parsed: int, done: Seq<Piece>)
    requires
        0 <= parsed <= i < b.len(),
        b[i] == START_BYTE,
        decode_spec(b.subrange(i, b.len() as int)) is Ok,
        scan(b, 0, 0).0 == done + scan(b, i, parsed).0,
        scan(b, 0, 0).1 == scan(b, i, parsed).1,
    ensures
        ({
            let n = decode_spec(b.subrange(i, b.len() as int))->Ok_0.1;
            let noise = if i != parsed {
                seq![Piece::Noise { start: parsed, end: i }]
            } else {
                Seq::<Piece>::empty()
            };
            let fr = Piece::Frame { start: i, end: i + n };
            &&& scan(b, 0, 0).0 == (if i != parsed {
                done.push(Piece::Noise { start: parsed, end: i })
            } else {
                done
            }).push(fr) + scan(b, i + n, i + n).0
            &&& scan(b, 0, 0).1 == scan(b, i + n, i + n).1
        }),
{
    let n = decode_spec(b.subrange(i, b.len() as int))->Ok_0.1;
    let fr = Piece::Frame { start: i, end: i + n };
    let rest = scan(b, i + n, i + n);
    if i != parsed {
        assert(done + (seq![Piece::Noise { start: parsed, end: i }] + seq![fr] + rest.0)
            =~= done.push(Piece::Noise { start: parsed, end: i }).push(fr) + rest.0);
    } else {
        assert(done + (Seq::<Piece>::empty() + seq![fr] + rest.0) =~= done.push(fr) + rest.0);
    }
}


pub proof fn lemma_scan_skips(b: Seq<u8>, i: int, j: int, parsed: int)
    requires
        0 <= i <= j <= b.len(),
        forall|k: int| i <= k < j ==> b[k] != START_BYTE,
    ensures
        scan(b, i, parsed) == scan(b, j, parsed),
    decreases j - i,
{
    if i < j {
        lemma_scan_skips(b, i + 1, j, parsed);
    }
}

/// The scan over an encoded frame at `i`.
pub proof fn lemma_scan_at_frame(b: Seq<u8>, i: int, parsed: int, f: FrameModel)
    requires
        0 <= parsed <= i,
        f.valid(),
        f.encodable(),
        f.data.len() + 1 != ESCAPED_LENGTH,
        i + f.encode().len() <= b.len(),
        b.subrange(i, i + f.encode().len()) == f.encode(),
    ensures
        ({
            let n = f.encode().len() as int;
            let rest = scan(b, i + n, i + n);
            let noise = if i != parsed {
                seq![Piece::Noise { start: parsed, end: i }]
            } else {
                Seq::<Piece>::empty()
            };
            &&& scan(b, i, parsed) == (noise + seq![Piece::Frame { start: i, end: i + n }] + rest.0, rest.1)
            &&& decode_spec(b.subrange(i, i + n)) == Ok::<(FrameModel, int), DecodeError>((f, n))
        }),
{
    let n = f.encode().len() as int;
    lemma_decode_encode(f);
    let tail = b.subrange(i, b.len() as int);
    assert(tail.subrange(0, n) =~= f.encode().subrange(0, n));
    lemma_decode_depends_on_frame_bytes(f.encode(), tail);
    assert(b[i] == f.encode()[0]);
}

/// A valid frame with noise before it, then a second valid frame, noise, and a
/// third valid frame: when no noise byte is a start byte, the scan yields the
/// first noise, the three frames, each decoded as itself, with the second
/// noise between the second and third, in that order, and claims everything.
#[verifier::rlimit(100)]
pub proof fn lemma_noise_tolerance(
    noise1: Seq<u8>,
    f1: FrameModel,
    f2: FrameModel,
    noise2: Seq<u8>,
    f3: FrameModel,
)
    requires
        f1.valid() && f1.encodable() && f1.data.len() + 1 != ESCAPED_LENGTH,
        f2.valid() && f2.encodable() && f2.data.len() + 1 != ESCAPED_LENGTH,
        f3.valid() && f3.encodable() && f3.data.len() + 1 != ESCAPED_LENGTH,
        crate::text::lacks(noise1, START_BYTE),
        crate::text::lacks(noise2, START_BYTE),
    ensures
        ({
            let b = noise1 + f1.encode() + f2.encode() + noise2 + f3.encode();
            let a = noise1.len() as int;
            let c = a + f1.encode().len();
            let d = c + f2.encode().len();
            let e = d + noise2.len();
            let pieces = (if a > 0 {
                seq![Piece::Noise { start: 0, end: a }]
            } else {
                Seq::<Piece>::empty()
            }) + seq![Piece::Frame { start: a, end: c }, Piece::Frame { start: c, end: d }] + (
            if e > d {
                seq![Piece::Noise { start: d, end: e }]
            } else {
                Seq::<Piece>::empty()
            }) + seq![Piece::Frame { start: e, end: b.len() as int }];
            &&& scan(b, 0, 0) == (pieces, b.len() as int)
            &&& decode_spec(b.subrange(a, c)) == Ok::<(FrameModel, int), DecodeError>((f1, c - a))
            &&& decode_spec(b.subrange(c, d)) == Ok::<(FrameModel, int), DecodeError>((f2, d - c))
            &&& decode_spec(b.subrange(e, b.len() as int)) == Ok::<(FrameModel, int), DecodeError>(
                (f3, b.len() - e),
            )
        }),
{
    let e1 = f1.encode();
    let e2 = f2.encode();
    let e3 = f3.encode();
    let b = noise1 + e1 + e2 + noise2 + e3;
    let a = noise1.len() as int;
    let c = a + e1.len();
    let d = c + e2.len();
    let e = d + noise2.len();
    assert(b.subrange(a, c) =~= e1);
    assert(b.subrange(c, d) =~= e2);
    assert(b.subrange(e, b.len() as int) =~= e3);
    assert forall|k: int| 0 <= k < a implies b[k] != START_BYTE by {
        assert(b[k] == noise1[k]);
    }
    assert forall|k: int| d <= k < e implies b[k] != START_BYTE by {
        assert(b[k] == noise2[k - d]);
    }
    let n1 = if a > 0 {
        seq![Piece::Noise { start: 0, end: a }]
    } else {
        Seq::<Piece>::empty()
    };
    let n2 = if e > d {
        seq![Piece::Noise { start: d, end: e }]
    } else {
        Seq::<Piece>::empty()
    };
    let fr1 = Piece::Frame { start: a, end: c };
    let fr2 = Piece::Frame { start: c, end: d };
    let fr3 = Piece::Frame { start: e, end: b.len() as int };
    let r3 = scan(b, b.len() as int, b.len() as int);
    assert(r3 == (Seq::<Piece>::empty(), b.len() as int));
    lemma_scan_at_frame(b, e, d, f3);
    let s_e = scan(b, e, d);
    assert(s_e == (n2 + seq![fr3] + r3.0, r3.1));
    lemma_scan_skips(b, d, e, d);
    let r2 = scan(b, d, d);
    assert(r2 == s_e);
    lemma_scan_at_frame(b, c, c, f2);
    let r1 = scan(b, c, c);
    assert(r1 == (Seq::<Piece>::empty() + seq![fr2] + r2.0, r2.1));
    lemma_scan_at_frame(b, a, 0, f1);
    let s_a = scan(b, a, 0);
    assert(s_a == (n1 + seq![fr1] + r1.0, r1.1));
    lemma_scan_skips(b, 0, a, 0);
    assert(scan(b, 0, 0) == s_a);
    assert(n1 + seq![fr1] + (Seq::<Piece>::empty() + seq![fr2] + (n2 + seq![fr3] + Seq::<
        Piece,
    >::empty())) =~= n1 + seq![fr1, fr2] + n2 + seq![fr3]);
}

impl StreamResync {
    pub open spec fn wf(&self) -> bool {
        self@.len() <= BUFFER_CAPACITY
    }

    /// An empty stream.
    pub fn new() -> (r: Self)
        ensures
            r.wf(),
            r@ == Seq::<u8>::empty(),
    {
        StreamResync { buf: Vec::new() }
    }

    /// How many bytes the buffer takes before it is full.
    pub fn free_space(&self) -> (r: usize)
        requires
            self.wf(),
        ensures
            r == BUFFER_CAPACITY - self@.len(),
    {
        BUFFER_CAPACITY - self.buf.len()
    }

    /// The bytes that arrived and were not yet claimed by an event.
    pub fn pending(&self) -> (r: &[u8])
        ensures
            r@ == self@,
    {
        self.buf.as_slice()
    }

    /// Appends the bytes of one read, emits the events that the buffer now
    /// yields, in order, and keeps the unclaimed tail.
    pub fn push_bytes(&mut self, bytes: &[u8]) -> (r: Vec<ReceivedPacket>)
        requires
            old(self).wf(),
            old(self)@.len() + bytes@.len() <= BUFFER_CAPACITY,
        ensures
            final(self).wf(),
            ({
                let b = old(self)@ + bytes@;
                let (pieces, parsed) = scan(b, 0, 0);
                &&& events_match(b, pieces, r@)
                &&& final(self)@ == b.subrange(keep_from(b, parsed), b.len() as int)
            }),
            final(self)@ == feed(old(self)@, bytes@).1,
            r@.len() == feed(old(self)@, bytes@).0.len(),
            forall|k: int|
                0 <= k < r@.len() ==> content_event(
                    #[trigger] feed(old(self)@, bytes@).0[k],
                    r@[k],
                ),
    {
        crate::text::push_all(&mut self.buf, bytes);
        let events = self.scan_pass();
        proof {
            let b = old(self)@ + bytes@;
            let pieces = scan(b, 0, 0).0;
            assert forall|k: int| 0 <= k < events@.len() implies content_event(
                #[trigger] feed(old(self)@, bytes@).0[k],
                events@[k],
            ) by {
                assert(piece_event(b, pieces[k], events@[k]));
            }
        }
        events
    }

    fn scan_pass(&mut self) -> (r: Vec<ReceivedPacket>)
        requires
            old(self).wf(),
        ensures
            final(self).wf(),
            ({
                let b = old(self)@;
                let (pieces, parsed) = scan(b, 0, 0);
                &&& events_match(b, pieces, r@)
                &&& final(self)@ == b.subrange(keep_from(b, parsed), b.len() as int)
            }),
    {
        let ghost b = self.buf@;
        let len = self.buf.len();
        let mut events: Vec<ReceivedPacket> = Vec::new();
        let ghost mut done: Seq<Piece> = Seq::empty();
        assert(done + scan(b, 0, 0).0 =~= scan(b, 0, 0).0);
        let mut i: usize = 0;
        let mut parsed: usize = 0;
        while i < len
            invariant
                b == self.buf@,
                len == b.len(),
                len <= BUFFER_CAPACITY,
                parsed <= i <= len,
                scan(b, 0, 0).0 == done + scan(b, i as int, parsed as int).0,
                scan(b, 0, 0).1 == scan(b, i as int, parsed as int).1,
                events_match(b, done, events@),
            decreases len - i,
        {
            if self.buf[i] != START_BYTE {
                i += 1;
            } else {
                match XbeePacket::decode_prefix(&self.buf.as_slice()[i..len]) {
                    Err(_) => {
                        assert(done + scan(b, i + 1, parsed as int).0 == done + scan(
                            b,
                            i as int,
                            parsed as int,
                        ).0);
                        i += 1;
                    },
                    Ok((packet, n)) => {
                        proof {
                            lemma_scan_frame(b, i as int, parsed as int, done);
                            lemma_frame_bytes(b, i as int);
                        }
                        if i != parsed {
                            let noise = copy_bytes(&self.buf.as_slice()[parsed..i]);
                            let ev = ReceivedPacket::Invalid(noise);
                            proof {
                                lemma_events_push(b, done, events@, Piece::Noise { start: parsed as int, end: i as int }, ev);
                                done = done.push(Piece::Noise { start: parsed as int, end: i as int });
                            }
                            events.push(ev);
                        }
                        let ev = ReceivedPacket::classify(packet);
                        proof {
                            lemma_events_push(b, done, events@, Piece::Frame { start: i as int, end: i + n }, ev);
                            done = done.push(Piece::Frame { start: i as int, end: i + n });
                        }
                        events.push(ev);
                        i = i + n;
                        parsed = i;
                    },
                }
            }
        }
        let keep = self.keep_start(parsed);
        self.buf = copy_bytes(&self.buf.as_slice()[keep..len]);
        events
    }

    /// Where the kept part of the buffer starts after a scan that claimed up to `parsed`.
    fn keep_start(&self, parsed: usize) -> (r: usize)
        requires
            self.wf(),
            parsed <= self@.len(),
        ensures
            r == keep_from(self@, parsed as int),
            r <= self@.len(),
    {
        if self.buf.len() == BUFFER_CAPACITY && parsed <= BUFFER_CAPACITY - FRAME_WINDOW {
            last_start(self.buf.as_slice(), BUFFER_CAPACITY - FRAME_WINDOW)
        } else {
            parsed
        }
    }

    /// Ends the stream: the unclaimed bytes, if any, as one last `Invalid` event.
    pub fn finish(self) -> (r: Option<ReceivedPacket>)
        ensures
            self@.len() == 0 ==> r is None,
            self@.len() > 0 ==> (r matches Some(ReceivedPacket::Invalid(v)) && v@ == self@),
    {
        if self.buf.len() == 0 {
            None
        } else {
            Some(ReceivedPacket::Invalid(self.buf))
        }
    }
}

proof fn lemma_last_start_bounds(b: Seq<u8>, lo: int, hi: int)
    requires
        0 <= lo <= hi <= b.len(),
    ensures
        last_start_in(b, lo, hi) < hi,
        last_start_in(b, lo, hi) >= 0 ==> lo <= last_start_in(b, lo, hi),
    decreases hi - lo,
{
    if hi > lo && b[hi - 1] != START_BYTE {
        lemma_last_start_bounds(b, lo, hi - 1);
    }
}

/// The position of the last start byte at or after `lo`, or the length of `b`
/// when there is none.
fn last_start(b: &[u8], lo: usize) -> (r: usize)
    requires
        lo <= b@.len(),
    ensures
        r == (if last_start_in(b@, lo as int, b@.len() as int) < 0 {
            b@.len() as int
        } else {
            last_start_in(b@, lo as int, b@.len() as int)
        }),
        r <= b@.len(),
{
    let mut k: usize = b.len();
    while k > lo && b[k - 1] != START_BYTE
        invariant
            lo <= k <= b@.len(),
            last_start_in(b@, lo as int, b@.len() as int) == last_start_in(b@, lo as int, k as int),
        decreases k,
    {
        k -= 1;
    }
    proof {
        lemma_last_start_bounds(b@, lo as int, b@.len() as int);
    }
    if k > lo {
        k - 1
    } else {
        b.len()
    }
}

} // verus!
