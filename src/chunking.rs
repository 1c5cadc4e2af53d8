//! Chunking independence of the resynchroniser over a stream of clean frames.
use vstd::prelude::*;

use crate::frame::{decode_spec, header_spec, DecodeError, FrameModel, ESCAPED_LENGTH, START_BYTE};
use crate::resync::{
    contents, feed, keep_from, lemma_scan_at_frame, lemma_scan_skips, piece_content, scan, Piece,
    FRAME_WINDOW,
};

verus! {

/// Pushes of the chunks in turn: what their events cover, and the bytes kept.
pub open spec fn feed_all(buf: Seq<u8>, chunks: Seq<Seq<u8>>) -> (Seq<(bool, Seq<u8>)>, Seq<u8>)
    decreases chunks.len(),
{
    if chunks.len() == 0 {
        (Seq::empty(), buf)
    } else {
        let (e1, b1) = feed(buf, chunks[0]);
        let (e2, b2) = feed_all(b1, chunks.drop_first());
        (e1 + e2, b2)
    }
}

pub open spec fn concat_all(chunks: Seq<Seq<u8>>) -> Seq<u8>
    decreases chunks.len(),
{
    if chunks.len() == 0 {
        Seq::empty()
    } else {
        chunks[0] + concat_all(chunks.drop_first())
    }
}

/// A frame that decodes as itself, fits in the trailing window, and holds no
/// start byte but its first.
pub open spec fn clean(f: FrameModel) -> bool {
    &&& f.valid()
    &&& f.encodable()
    &&& f.data.len() + 1 != ESCAPED_LENGTH
    &&& f.encode().len() <= FRAME_WINDOW
    &&& forall|k: int| 1 <= k < f.encode().len() ==> #[trigger] f.encode()[k] != START_BYTE
}

/// The encodings of the frames, one after the other.
pub open spec fn stream(fs: Seq<FrameModel>) -> Seq<u8>
    decreases fs.len(),
{
    if fs.len() == 0 {
        Seq::empty()
    } else {
        fs[0].encode() + stream(fs.drop_first())
    }
}

/// What the events of the frames cover.
pub open spec fn frame_contents(fs: Seq<FrameModel>) -> Seq<(bool, Seq<u8>)> {
    Seq::new(fs.len(), |k: int| (true, fs[k].encode()))
}

/// A strict prefix of a valid frame's encoding does not decode.
proof fn lemma_strict_prefix_fails(f: FrameModel, p: Seq<u8>)
    requires
        f.valid(),
        f.encodable(),
        f.data.len() + 1 != ESCAPED_LENGTH,
        p.len() < f.encode().len(),
        p == f.encode().subrange(0, p.len() as int),
    ensures
        decode_spec(p) is Err,
{
    let e = f.encode();
    let len: int = f.data.len() as int + 1;
    if p.len() >= 3 {
        assert(p[1] == e[1] && p[2] == e[2]);
        vstd::arithmetic::div_mod::lemma_fundamental_div_mod(len, 256);
        vstd::arithmetic::div_mod::lemma_mod_bound(len, 256);
        assert(len / 256 < 256);
        assert(p[1] as int * 256 + p[2] as int == len);
        assert(header_spec(p) == Ok::<(int, int), DecodeError>((len, 3)));
    }
}

proof fn lemma_contents_cons(b: Seq<u8>, pc: Piece, rest: Seq<Piece>)
    ensures
        contents(b, seq![pc] + rest) == seq![piece_content(b, pc)] + contents(b, rest),
{
    assert(contents(b, seq![pc] + rest) =~= seq![piece_content(b, pc)] + contents(b, rest));
}

/// Scanning clean frames followed by a strict prefix of a clean frame yields
/// exactly those frames, and claims up to the end of the last of them.
proof fn lemma_scan_clean(b: Seq<u8>, i: int, fs: Seq<FrameModel>, partial: Seq<u8>, next: FrameModel)
    requires
        0 <= i <= b.len(),
        forall|k: int| 0 <= k < fs.len() ==> clean(#[trigger] fs[k]),
        clean(next),
        partial.len() < next.encode().len(),
        partial == next.encode().subrange(0, partial.len() as int),
        b.subrange(i, b.len() as int) == stream(fs) + partial,
    ensures
        contents(b, scan(b, i, i).0) == frame_contents(fs),
        scan(b, i, i).1 == i + stream(fs).len(),
    decreases fs.len(),
{
    if fs.len() == 0 {
        assert(stream(fs) + partial =~= partial);
        if partial.len() == 0 {
            assert(scan(b, i, i).0 =~= Seq::<Piece>::empty());
            assert(contents(b, scan(b, i, i).0) =~= frame_contents(fs));
        } else {
            assert(b[i] == partial[0]);
            assert(b.subrange(i, b.len() as int) == partial);
            lemma_strict_prefix_fails(next, partial);
            assert forall|k: int| i + 1 <= k < b.len() implies b[k] != START_BYTE by {
                assert(b[k] == partial[k - i]);
                assert(partial[k - i] == next.encode()[k - i]);
            }
            lemma_scan_skips(b, i + 1, b.len() as int, i);
            assert(contents(b, scan(b, i, i).0) =~= frame_contents(fs));
        }
    } else {
        let f = fs[0];
        let n = f.encode().len() as int;
        let rest = fs.drop_first();
        assert(stream(fs) == f.encode() + stream(rest));
        assert(b.subrange(i, i + n) =~= f.encode()) by {
            assert(b.subrange(i, b.len() as int) =~= f.encode() + (stream(rest) + partial));
            assert forall|k: int| 0 <= k < n implies b.subrange(i, i + n)[k] == f.encode()[k] by {
                assert(b[i + k] == b.subrange(i, b.len() as int)[k]);
            }
        }
        assert(b.subrange(i, b.len() as int).len() == b.len() - i);
        assert((stream(fs) + partial).len() == n + stream(rest).len() + partial.len());
        assert(i + n <= b.len());
        lemma_scan_at_frame(b, i, i, f);
        assert(b.subrange(i + n, b.len() as int) =~= stream(rest) + partial) by {
            let sb = b.subrange(i, b.len() as int);
            assert(sb =~= f.encode() + (stream(rest) + partial));
            assert forall|k: int| 0 <= k < b.len() - (i + n) implies b.subrange(
                i + n,
                b.len() as int,
            )[k] == (stream(rest) + partial)[k] by {
                assert(b[i + n + k] == sb[n + k]);
            }
        }
        assert forall|k: int| 0 <= k < rest.len() implies clean(#[trigger] rest[k]) by {
            assert(rest[k] == fs[k + 1]);
        }
        lemma_scan_clean(b, i + n, rest, partial, next);
        let tail = scan(b, i + n, i + n);
        lemma_contents_cons(b, Piece::Frame { start: i, end: i + n }, tail.0);
        assert(Seq::<Piece>::empty() + seq![Piece::Frame { start: i, end: i + n }] + tail.0
            =~= seq![Piece::Frame { start: i, end: i + n }] + tail.0);
        assert(frame_contents(fs) =~= seq![(true, f.encode())] + frame_contents(rest));
    }
}

proof fn lemma_stream_split(fs: Seq<FrameModel>, j: int)
    requires
        0 <= j <= fs.len(),
    ensures
        stream(fs) == stream(fs.take(j)) + stream(fs.skip(j)),
    decreases j,
{
    if j == 0 {
        assert(fs.take(0) =~= Seq::<FrameModel>::empty());
        assert(fs.skip(0) =~= fs);
        assert(stream(fs.take(0)) + stream(fs) =~= stream(fs));
    } else {
        let rest = fs.drop_first();
        lemma_stream_split(rest, j - 1);
        assert(fs.take(j).drop_first() =~= rest.take(j - 1));
        assert(fs.skip(j) =~= rest.skip(j - 1));
        assert(fs.take(j)[0] == fs[0]);
        assert(stream(fs) =~= stream(fs.take(j)) + stream(fs.skip(j)));
    }
}

/// How many whole frames the first `n` bytes of the stream hold.
pub open spec fn whole_frames(fs: Seq<FrameModel>, n: int) -> int
    decreases fs.len(),
{
    if fs.len() == 0 || n < fs[0].encode().len() {
        0
    } else {
        1 + whole_frames(fs.drop_first(), n - fs[0].encode().len())
    }
}

/// The first `n` bytes of the stream are its whole frames and a strict prefix
/// of the next one.
proof fn lemma_prefix_split(fs: Seq<FrameModel>, n: int)
    requires
        0 <= n <= stream(fs).len(),
    ensures
        ({
            let j = whole_frames(fs, n);
            let m = stream(fs.take(j)).len() as int;
            &&& 0 <= j <= fs.len()
            &&& m <= n
            &&& stream(fs).take(n) == stream(fs.take(j)) + stream(fs.skip(j)).take(n - m)
            &&& j == fs.len() ==> n == m
            &&& j < fs.len() ==> n - m < fs[j].encode().len()
        }),
    decreases fs.len(),
{
    if fs.len() == 0 {
        assert(fs.take(0) =~= fs);
        assert(fs.skip(0) =~= fs);
        assert(stream(fs).take(n) =~= stream(fs.take(0)) + stream(fs.skip(0)).take(n));
    } else if n < fs[0].encode().len() {
        assert(fs.take(0) =~= Seq::<FrameModel>::empty());
        assert(fs.skip(0) =~= fs);
        assert(stream(fs).take(n) =~= stream(fs.take(0)) + stream(fs.skip(0)).take(n));
    } else {
        let e = fs[0].encode();
        let rest = fs.drop_first();
        assert(stream(fs) == e + stream(rest));
        lemma_prefix_split(rest, n - e.len());
        let j1 = whole_frames(rest, n - e.len());
        assert(fs.take(j1 + 1).drop_first() =~= rest.take(j1));
        assert(fs.take(j1 + 1)[0] == fs[0]);
        assert(fs.skip(j1 + 1) =~= rest.skip(j1));
        assert(stream(fs.take(j1 + 1)) == e + stream(rest.take(j1)));
        assert(stream(fs).take(n) =~= e + stream(rest).take(n - e.len()));
    }
}

proof fn lemma_frame_contents_split(fs: Seq<FrameModel>, j: int)
    requires
        0 <= j <= fs.len(),
    ensures
        frame_contents(fs) == frame_contents(fs.take(j)) + frame_contents(fs.skip(j)),
{
    assert(frame_contents(fs) =~= frame_contents(fs.take(j)) + frame_contents(fs.skip(j)));
}

proof fn lemma_feed_clean(fs: Seq<FrameModel>, buf: Seq<u8>, chunk: Seq<u8>)
    requires
        forall|k: int| 0 <= k < fs.len() ==> clean(#[trigger] fs[k]),
        buf + chunk == stream(fs).take((buf + chunk).len() as int),
        (buf + chunk).len() <= stream(fs).len(),
    ensures
        ({
            let n = (buf + chunk).len() as int;
            let j = whole_frames(fs, n);
            let m = stream(fs.take(j)).len() as int;
            &&& feed(buf, chunk).0 == frame_contents(fs.take(j))
            &&& feed(buf, chunk).1 == stream(fs.skip(j)).take(n - m)
        }),
{
    let b = buf + chunk;
    let n = b.len() as int;
    lemma_prefix_split(fs, n);
    let j = whole_frames(fs, n);
    let m = stream(fs.take(j)).len() as int;
    let partial = stream(fs.skip(j)).take(n - m);
    let taken = fs.take(j);
    assert forall|k: int| 0 <= k < taken.len() implies clean(#[trigger] taken[k]) by {
        assert(taken[k] == fs[k]);
    }
    assert(b.subrange(0, n) =~= b);
    if j < fs.len() {
        let next = fs[j];
        let rest = fs.skip(j);
        assert(rest[0] == next);
        assert(stream(rest) == next.encode() + stream(rest.drop_first()));
        assert(partial =~= next.encode().subrange(0, partial.len() as int));
        lemma_scan_clean(b, 0, taken, partial, next);
    } else {
        assert(partial =~= Seq::<u8>::empty());
        if fs.len() > 0 {
            assert(partial =~= fs[0].encode().subrange(0, 0));
            lemma_scan_clean(b, 0, taken, partial, fs[0]);
        } else {
            assert(b =~= Seq::<u8>::empty());
            assert(scan(b, 0, 0).0 =~= Seq::<Piece>::empty());
            assert(contents(b, scan(b, 0, 0).0) =~= frame_contents(taken));
        }
    }
    assert(keep_from(b, m) == m) by {
        if j < fs.len() {
            assert(n - m < fs[j].encode().len());
        }
    }
    assert(b.subrange(m, n) =~= partial);
}

proof fn lemma_feed_all_clean(fs: Seq<FrameModel>, buf: Seq<u8>, chunks: Seq<Seq<u8>>)
    requires
        forall|k: int| 0 <= k < fs.len() ==> clean(#[trigger] fs[k]),
        buf + concat_all(chunks) == stream(fs),
        fs.len() > 0 ==> buf.len() < fs[0].encode().len(),
    ensures
        feed_all(buf, chunks) == (frame_contents(fs), Seq::<u8>::empty()),
    decreases chunks.len(),
{
    if chunks.len() == 0 {
        assert(buf + concat_all(chunks) =~= buf);
        if fs.len() > 0 {
            assert(stream(fs) == fs[0].encode() + stream(fs.drop_first()));
        }
        assert(frame_contents(fs) =~= Seq::<(bool, Seq<u8>)>::empty());
    } else {
        let c = chunks[0];
        let cs = chunks.drop_first();
        let b = buf + c;
        let n = b.len() as int;
        assert(concat_all(chunks) == c + concat_all(cs));
        assert(stream(fs) =~= b + concat_all(cs));
        assert(b =~= stream(fs).take(n));
        lemma_feed_clean(fs, buf, c);
        lemma_prefix_split(fs, n);
        let j = whole_frames(fs, n);
        let m = stream(fs.take(j)).len() as int;
        let rest = fs.skip(j);
        let partial = stream(rest).take(n - m);
        lemma_stream_split(fs, j);
        assert(partial + concat_all(cs) =~= stream(rest)) by {
            let whole = stream(fs);
            assert(whole =~= stream(fs.take(j)) + stream(rest));
            assert(whole.take(n) =~= stream(fs.take(j)) + partial);
            assert(whole =~= b + concat_all(cs));
            assert(stream(rest) =~= whole.subrange(m, whole.len() as int));
            assert forall|k: int| 0 <= k < stream(rest).len() implies (partial + concat_all(
                cs,
            ))[k] == stream(rest)[k] by {
                assert(stream(rest)[k] == whole[m + k]);
                if m + k < n {
                    assert(whole[m + k] == whole.take(n)[m + k]);
                    assert(whole.take(n)[m + k] == partial[k]);
                } else {
                    assert(whole[m + k] == concat_all(cs)[m + k - n]);
                }
            }
        }
        assert forall|k: int| 0 <= k < rest.len() implies clean(#[trigger] rest[k]) by {
            assert(rest[k] == fs[k + j]);
        }
        if rest.len() > 0 {
            assert(rest[0] == fs[j]);
        }
        lemma_feed_all_clean(rest, partial, cs);
        lemma_frame_contents_split(fs, j);
    }
}

/// Feeding a stream of clean frames to an empty buffer in any chunking yields
/// events covering exactly the frames, in order, and leaves nothing behind:
/// the same as feeding it all at once.
pub proof fn lemma_chunking_independent(fs: Seq<FrameModel>, chunks: Seq<Seq<u8>>)
    requires
        forall|k: int| 0 <= k < fs.len() ==> clean(#[trigger] fs[k]),
        concat_all(chunks) == stream(fs),
    ensures
        feed_all(Seq::empty(), chunks) == (frame_contents(fs), Seq::<u8>::empty()),
        feed_all(Seq::empty(), chunks) == feed_all(Seq::empty(), seq![stream(fs)]),
{
    assert(Seq::<u8>::empty() + concat_all(chunks) =~= concat_all(chunks));
    lemma_feed_all_clean(fs, Seq::empty(), chunks);
    let whole = seq![stream(fs)];
    assert(whole.drop_first() =~= Seq::<Seq<u8>>::empty());
    assert(concat_all(Seq::<Seq<u8>>::empty()) =~= Seq::<u8>::empty());
    assert(whole[0] == stream(fs));
    assert(concat_all(whole) =~= stream(fs));
    lemma_feed_all_clean(fs, Seq::empty(), whole);
}

} // verus!
