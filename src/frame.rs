//! The modem's binary frame: `0x7E | length (u16, big endian) | frame type |
//! payload | checksum`, where `length` counts the frame type and the payload.
use vstd::prelude::*;

verus! {

/// The byte every frame starts with.
pub const START_BYTE: u8 = 0x7E;

/// The length value that the transport sometimes garbles: `0x00 0x7D` followed by
/// `0x31` stands for the length `0x11`.
pub const ESCAPED_LENGTH: u16 = 0x7D;

/// The byte that must follow an escaped length.
pub const ESCAPE_FOLLOW: u8 = 0x31;

/// The length that an escaped length stands for.
pub const UNESCAPED_LENGTH: u16 = 0x11;

/// Sum of the bytes as an unbounded integer.
pub open spec fn byte_sum(s: Seq<u8>) -> int
    decreases s.len(),
{
    if s.len() == 0 {
        0
    } else {
        byte_sum(s.drop_last()) + s.last()
    }
}

/// `0xFF` minus the 8-bit sum of the frame type and the payload.
pub open spec fn checksum_of(frame_type: u8, data: Seq<u8>) -> u8 {
    (255 - (frame_type + byte_sum(data)) % 256) as u8
}

/// What a frame is, mathematically.
pub struct FrameModel {
    pub frame_type: u8,
    pub data: Seq<u8>,
    pub checksum: u8,
}

impl FrameModel {
    /// The checksum agrees with the frame type and the payload.
    pub open spec fn valid(self) -> bool {
        self.checksum == checksum_of(self.frame_type, self.data)
    }

    /// The length field of the encoding fits in 16 bits.
    pub open spec fn encodable(self) -> bool {
        self.data.len() + 1 <= 0xFFFF
    }

    /// The bytes on the wire.
    pub open spec fn encode(self) -> Seq<u8> {
        let len = self.data.len() + 1;
        seq![START_BYTE, (len / 256) as u8, (len % 256) as u8, self.frame_type] + self.data
            + seq![self.checksum]
    }
}

/// Why a byte sequence does not start with a frame.
#[derive(Debug, Clone, Copy, PartialEq, Eq, Structural)]
pub enum DecodeError {
    /// The first byte is not `0x7E`.
    BadStartByte,
    /// The bytes end before the frame does.
    Truncated,
    /// The length field is zero, or an escaped length is not followed by `0x31`.
    InvalidLength,
    /// The checksum byte does not match the frame type and the payload.
    ChecksumMismatch,
}

/// The length of the frame body (frame type and payload) and the offset of the
/// frame type byte, as read from the header.
pub open spec fn header_spec(b: Seq<u8>) -> Result<(int, int), DecodeError> {
    if b.len() < 1 {
        Err(DecodeError::Truncated)
    } else if b[0] != START_BYTE {
        Err(DecodeError::BadStartByte)
    } else if b.len() < 3 {
        Err(DecodeError::Truncated)
    } else {
        let len = b[1] as int * 256 + b[2] as int;
        if len == ESCAPED_LENGTH {
            if b.len() < 4 {
                Err(DecodeError::Truncated)
            } else if b[3] != ESCAPE_FOLLOW {
                Err(DecodeError::InvalidLength)
            } else {
                Ok((UNESCAPED_LENGTH as int, 4))
            }
        } else if len == 0 {
            Err(DecodeError::InvalidLength)
        } else {
            Ok((len, 3))
        }
    }
}

/// The frame at the start of `b`, with the number of bytes it takes.
pub open spec fn decode_spec(b: Seq<u8>) -> Result<(FrameModel, int), DecodeError> {
    match header_spec(b) {
        Err(e) => Err(e),
        Ok((len, off)) => {
            if b.len() < off + len + 1 {
                Err(DecodeError::Truncated)
            } else {
                let frame_type = b[off];
                let data = b.subrange(off + 1, off + len);
                let checksum = b[off + len];
                if checksum != checksum_of(frame_type, data) {
                    Err(DecodeError::ChecksumMismatch)
                } else {
                    Ok((FrameModel { frame_type, data, checksum }, off + len + 1))
                }
            }
        }
    }
}

proof fn lemma_length_bytes(len: int)
    requires
        0 <= len <= 0xFFFF,
    ensures
        ((len / 256) as u8) as int * 256 + ((len % 256) as u8) as int == len,
{
    vstd::arithmetic::div_mod::lemma_fundamental_div_mod(len, 256);
    vstd::arithmetic::div_mod::lemma_mod_bound(len, 256);
    assert(len / 256 < 256);
}

/// Decoding the encoding of a valid frame gives the frame back and takes all of
/// its bytes, unless the length field happens to read as the escaped length.
pub proof fn lemma_decode_encode(f: FrameModel)
    requires
        f.valid(),
        f.encodable(),
        f.data.len() + 1 != ESCAPED_LENGTH,
    ensures
        decode_spec(f.encode()) == Ok::<(FrameModel, int), DecodeError>((f, f.data.len() as int + 5)),
{
    let e = f.encode();
    let len: int = f.data.len() as int + 1;
    lemma_length_bytes(len);
    assert(e[1] as int * 256 + e[2] as int == len);
    assert(header_spec(e) == Ok::<(int, int), DecodeError>((len, 3)));
    assert(e.subrange(4, 3 + len) =~= f.data);
}

proof fn lemma_byte_sum_update(s: Seq<u8>, j: int, v: u8)
    requires
        0 <= j < s.len(),
    ensures
        byte_sum(s.update(j, v)) == byte_sum(s) - s[j] + v,
    decreases s.len(),
{
    let t = s.update(j, v);
    if j == s.len() - 1 {
        assert(t.drop_last() =~= s.drop_last());
    } else {
        lemma_byte_sum_update(s.drop_last(), j, v);
        assert(t.drop_last() =~= s.drop_last().update(j, v));
    }
}

proof fn lemma_mod_differs(x: int, y: int)
    requires
        x != y,
        -256 < x - y < 256,
    ensures
        x % 256 != y % 256,
{
    vstd::arithmetic::div_mod::lemma_fundamental_div_mod(x, 256);
    vstd::arithmetic::div_mod::lemma_fundamental_div_mod(y, 256);
    if x % 256 == y % 256 {
        assert(x - y == 256 * (x / 256 - y / 256));
    }
}

/// Flipping one bit of the frame type byte or of a payload byte of an encoded
/// valid frame, and leaving the checksum byte as it was, makes decoding fail
/// with a checksum mismatch.
pub proof fn lemma_bit_flip_detected(f: FrameModel, i: int, bit: u8)
    requires
        f.valid(),
        f.encodable(),
        f.data.len() + 1 != ESCAPED_LENGTH,
        3 <= i < f.data.len() + 4,
        bit < 8,
    ensures
        decode_spec(f.encode().update(i, f.encode()[i] ^ (1u8 << bit))) == Err::<
            (FrameModel, int),
            DecodeError,
        >(DecodeError::ChecksumMismatch),
{
    let e = f.encode();
    let b = e[i];
    let nb: u8 = b ^ (1u8 << bit);
    assert(nb != b) by (bit_vector)
        requires
            nb == b ^ (1u8 << bit),
            bit < 8,
    ;
    let e2 = e.update(i, nb);
    let len: int = f.data.len() as int + 1;
    lemma_length_bytes(len);
    assert(e2[1] as int * 256 + e2[2] as int == len);
    assert(header_spec(e2) == Ok::<(int, int), DecodeError>((len, 3)));
    let data2 = e2.subrange(4, 3 + len);
    if i == 3 {
        assert(data2 =~= f.data);
        lemma_mod_differs(nb + byte_sum(f.data), f.frame_type + byte_sum(f.data));
    } else {
        assert(data2 =~= f.data.update(i - 4, nb));
        lemma_byte_sum_update(f.data, i - 4, nb);
        lemma_mod_differs(f.frame_type + byte_sum(data2), f.frame_type + byte_sum(f.data));
    }
    vstd::arithmetic::div_mod::lemma_mod_bound(e2[3] + byte_sum(data2), 256);
    vstd::arithmetic::div_mod::lemma_mod_bound(f.frame_type + byte_sum(f.data), 256);
    assert(e2[3 + len] == f.checksum);
}

/// A frame decoded from some bytes decodes the same from any bytes that start
/// with the bytes it takes.
pub proof fn lemma_decode_depends_on_frame_bytes(x: Seq<u8>, y: Seq<u8>)
    requires
        decode_spec(x) is Ok,
        y.len() >= decode_spec(x)->Ok_0.1,
        y.subrange(0, decode_spec(x)->Ok_0.1) == x.subrange(0, decode_spec(x)->Ok_0.1),
    ensures
        decode_spec(y) == decode_spec(x),
{
    let n = decode_spec(x)->Ok_0.1;
    let (len, off) = header_spec(x)->Ok_0;
    assert(x.len() >= n);
    assert forall|i: int| 0 <= i < n implies x[i] == y[i] by {
        assert(x.subrange(0, n)[i] == y.subrange(0, n)[i]);
    }
    assert(header_spec(y) == header_spec(x));
    assert(y.subrange(off + 1, off + len) =~= x.subrange(off + 1, off + len));
}


/// One frame of the modem's protocol.
#[derive(Debug, Clone, PartialEq, Eq)]
pub struct XbeePacket {
    pub frame_type: u8,
    pub data: Vec<u8>,
    pub checksum: u8,
}

impl View for XbeePacket {
    type V = FrameModel;

    open spec fn view(&self) -> FrameModel {
        FrameModel { frame_type: self.frame_type, data: self.data@, checksum: self.checksum }
    }
}

proof fn lemma_byte_sum_push(s: Seq<u8>, b: u8)
    ensures
        byte_sum(s.push(b)) == byte_sum(s) + b,
{
    assert(s.push(b).drop_last() =~= s);
}

/// The 8-bit sum of `data`, that is `byte_sum(data) % 256`.
fn sum_bytes(data: &[u8]) -> (r: u8)
    ensures
        r as int == byte_sum(data@) % 256,
{
    let mut sum: u8 = 0;
    let mut i: usize = 0;
    while i < data.len()
        invariant
            i <= data@.len(),
            sum as int == byte_sum(data@.take(i as int)) % 256,
        decreases data@.len() - i,
    {
        proof {
            assert(data@.take(i as int + 1) =~= data@.take(i as int).push(data@[i as int]));
            lemma_byte_sum_push(data@.take(i as int), data@[i as int]);
            vstd::arithmetic::div_mod::lemma_add_mod_noop(
                byte_sum(data@.take(i as int)),
                data@[i as int] as int,
                256,
            );
            vstd::arithmetic::div_mod::lemma_small_mod(data@[i as int] as nat, 256);
        }
        sum = ((sum as u16 + data[i] as u16) % 256) as u8;
        i += 1;
    }
    assert(data@.take(i as int) =~= data@);
    sum
}

/// The checksum of a frame with this type and payload.
pub fn compute_checksum(frame_type: u8, data: &[u8]) -> (r: u8)
    ensures
        r == checksum_of(frame_type, data@),
{
    let s = sum_bytes(data);
    proof {
        vstd::arithmetic::div_mod::lemma_add_mod_noop(frame_type as int, byte_sum(data@), 256);
        vstd::arithmetic::div_mod::lemma_small_mod(frame_type as nat, 256);
    }
    (255u16 - (frame_type as u16 + s as u16) % 256) as u8
}

impl XbeePacket {
    /// A copy of this frame.
    pub fn duplicate(&self) -> (r: Self)
        ensures
            r@ == self@,
    {
        XbeePacket {
            frame_type: self.frame_type,
            data: crate::text::copy_bytes(self.data.as_slice()),
            checksum: self.checksum,
        }
    }

    /// A frame with this type and payload and the checksum they call for.
    pub fn new(frame_type: u8, data: Vec<u8>) -> (r: Self)
        ensures
            r.frame_type == frame_type,
            r.data@ == data@,
            r@.valid(),
    {
        let checksum = compute_checksum(frame_type, data.as_slice());
        XbeePacket { frame_type, data, checksum }
    }

    /// The bytes of this frame on the wire.
    pub fn serialise(&self) -> (r: Vec<u8>)
        requires
            self@.encodable(),
        ensures
            r@ == self@.encode(),
    {
        let len: u16 = (self.data.len() + 1) as u16;
        let mut buf: Vec<u8> = Vec::new();
        buf.push(START_BYTE);
        buf.push((len / 256) as u8);
        buf.push((len % 256) as u8);
        buf.push(self.frame_type);
        let mut i: usize = 0;
        while i < self.data.len()
            invariant
                i <= self.data@.len(),
                buf@ == seq![START_BYTE, (len / 256) as u8, (len % 256) as u8, self.frame_type]
                    + self.data@.take(i as int),
            decreases self.data@.len() - i,
        {
            proof {
                assert(self.data@.take(i as int + 1) =~= self.data@.take(i as int).push(
                    self.data@[i as int],
                ));
            }
            buf.push(self.data[i]);
            i += 1;
        }
        buf.push(self.checksum);
        proof {
            assert(self.data@.take(i as int) =~= self.data@);
            assert(buf@ =~= self@.encode());
        }
        buf
    }
    /// The frame at the start of `bytes` and the number of bytes it takes.
    pub fn decode_prefix(bytes: &[u8]) -> (r: Result<(XbeePacket, usize), DecodeError>)
        ensures
            match decode_spec(bytes@) {
                Ok((f, n)) => r matches Ok((p, m)) && p@ == f && m == n,
                Err(e) => r == Err::<(XbeePacket, usize), DecodeError>(e),
            },
    {
        if bytes.len() < 1 {
            return Err(DecodeError::Truncated);
        }
        if bytes[0] != START_BYTE {
            return Err(DecodeError::BadStartByte);
        }
        if bytes.len() < 3 {
            return Err(DecodeError::Truncated);
        }
        let raw_len: usize = bytes[1] as usize * 256 + bytes[2] as usize;
        let (len, off): (usize, usize) = if raw_len == ESCAPED_LENGTH as usize {
            if bytes.len() < 4 {
                return Err(DecodeError::Truncated);
            }
            if bytes[3] != ESCAPE_FOLLOW {
                return Err(DecodeError::InvalidLength);
            }
            (UNESCAPED_LENGTH as usize, 4)
        } else if raw_len == 0 {
            return Err(DecodeError::InvalidLength);
        } else {
            (raw_len, 3)
        };
        assert(header_spec(bytes@) == Ok::<(int, int), DecodeError>((len as int, off as int)));
        if bytes.len() - off < len + 1 {
            return Err(DecodeError::Truncated);
        }
        let frame_type = bytes[off];
        let mut data: Vec<u8> = Vec::new();
        let end: usize = off + len;
        let mut i: usize = off + 1;
        while i < end
            invariant
                off + 1 <= i <= end,
                end == off + len,
                end + 1 <= bytes@.len(),
                data@ == bytes@.subrange(off + 1, i as int),
            decreases end - i,
        {
            proof {
                assert(bytes@.subrange(off + 1, i + 1) =~= bytes@.subrange(off + 1, i as int).push(
                    bytes@[i as int],
                ));
            }
            data.push(bytes[i]);
            i += 1;
        }
        let checksum = bytes[off + len];
        let expected = compute_checksum(frame_type, data.as_slice());
        if checksum != expected {
            return Err(DecodeError::ChecksumMismatch);
        }
        Ok((XbeePacket { frame_type, data, checksum }, off + len + 1))
    }

    /// The frame at the start of `bytes`; bytes after it are ignored.
    pub fn decode(bytes: &[u8]) -> (r: Result<XbeePacket, DecodeError>)
        ensures
            match decode_spec(bytes@) {
                Ok((f, _)) => r matches Ok(p) && p@ == f,
                Err(e) => r == Err::<XbeePacket, DecodeError>(e),
            },
    {
        match Self::decode_prefix(bytes) {
            Ok((p, _)) => Ok(p),
            Err(e) => Err(e),
        }
    }
}

} // verus!
