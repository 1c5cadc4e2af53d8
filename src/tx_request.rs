//! Requests to the modem to transmit data.
use vstd::prelude::*;

use crate::frame::{checksum_of, FrameModel, XbeePacket};

verus! {

/// The frame type of a transmit request.
pub const TX_FRAME_TYPE: u8 = 0x01;

/// A transmit request: a frame id that the delivery status will carry back,
/// the destination address and the data.
#[derive(Debug, Clone, PartialEq, Eq)]
pub struct TxRequest {
    pub frame_id: u8,
    pub dst: u16,
    pub data: Vec<u8>,
}

/// The payload of the frame of a transmit request: frame id, destination (big
/// endian), an options byte of zero, then the data.
pub open spec fn tx_payload(frame_id: u8, dst: u16, data: Seq<u8>) -> Seq<u8> {
    seq![frame_id, (dst / 256) as u8, (dst % 256) as u8, 0u8] + data
}

/// The frame of a transmit request.
pub open spec fn tx_frame(frame_id: u8, dst: u16, data: Seq<u8>) -> FrameModel {
    FrameModel {
        frame_type: TX_FRAME_TYPE,
        data: tx_payload(frame_id, dst, data),
        checksum: checksum_of(TX_FRAME_TYPE, tx_payload(frame_id, dst, data)),
    }
}

impl TxRequest {
    pub fn new(frame_id: u8, dst: u16, data: &[u8]) -> (r: Self)
        ensures
            r.frame_id == frame_id,
            r.dst == dst,
            r.data@ == data@,
    {
        let mut v: Vec<u8> = Vec::new();
        let mut i: usize = 0;
        while i < data.len()
            invariant
                i <= data@.len(),
                v@ == data@.take(i as int),
            decreases data@.len() - i,
        {
            proof {
                assert(data@.take(i + 1) =~= data@.take(i as int).push(data@[i as int]));
            }
            v.push(data[i]);
            i += 1;
        }
        assert(data@.take(i as int) =~= data@);
        TxRequest { frame_id, dst, data: v }
    }

    /// The frame that carries this request.
    pub fn into_packet(self) -> (r: XbeePacket)
        ensures
            r@ == tx_frame(self.frame_id, self.dst, self.data@),
    {
        let mut buf: Vec<u8> = Vec::new();
        buf.push(self.frame_id);
        buf.push((self.dst / 256) as u8);
        buf.push((self.dst % 256) as u8);
        buf.push(0u8);
        let mut i: usize = 0;
        while i < self.data.len()
            invariant
                i <= self.data@.len(),
                buf@ == seq![self.frame_id, (self.dst / 256) as u8, (self.dst % 256) as u8, 0u8]
                    + self.data@.take(i as int),
            decreases self.data@.len() - i,
        {
            proof {
                assert(self.data@.take(i + 1) =~= self.data@.take(i as int).push(
                    self.data@[i as int],
                ));
            }
            buf.push(self.data[i]);
            i += 1;
        }
        assert(self.data@.take(i as int) =~= self.data@);
        assert(buf@ =~= tx_payload(self.frame_id, self.dst, self.data@));
        XbeePacket::new(TX_FRAME_TYPE, buf)
    }
}

} // verus!
