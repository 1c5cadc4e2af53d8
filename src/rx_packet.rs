//! Frames that the modem hands up when it receives data over the air.
use vstd::prelude::*;

use crate::frame::XbeePacket;

verus! {

/// The frame type of a received-data frame.
pub const RX_FRAME_TYPE: u8 = 0x81;

/// Why a frame could not be read as a frame of a given kind.
#[derive(Debug, Clone, Copy, PartialEq, Eq, Structural)]
pub enum ParsePacketError {
    /// The frame type is not the one expected.
    IncorrectFrameType,
    /// The payload ends before its fixed fields do.
    Truncated,
}

/// A received-data frame: sender address, signal strength, options and the data.
#[derive(Debug, Clone, PartialEq, Eq)]
pub struct RxPacket {
    pub src_addr: u16,
    pub rssi: i8,
    pub options: u8,
    pub data: Vec<u8>,
}

/// Length of the fixed fields at the start of a received-data payload.
pub const RX_HEADER_LEN: usize = 4;

impl RxPacket {
    /// Reads a received-data frame: source address (big endian), signal
    /// strength, options, then the data.
    pub fn try_from(xbp: XbeePacket) -> (r: Result<RxPacket, ParsePacketError>)
        ensures
            xbp.frame_type != RX_FRAME_TYPE ==> r == Err::<RxPacket, ParsePacketError>(
                ParsePacketError::IncorrectFrameType,
            ),
            xbp.frame_type == RX_FRAME_TYPE && xbp.data@.len() < RX_HEADER_LEN ==> r == Err::<
                RxPacket,
                ParsePacketError,
            >(ParsePacketError::Truncated),
            xbp.frame_type == RX_FRAME_TYPE && xbp.data@.len() >= RX_HEADER_LEN ==> (r matches Ok(p)
                && p.src_addr as int == xbp.data@[0] as int * 256 + xbp.data@[1] as int
                && p.rssi == xbp.data@[2] as i8 && p.options == xbp.data@[3]
                && p.data@ == xbp.data@.subrange(RX_HEADER_LEN as int, xbp.data@.len() as int)),
    {
        if xbp.frame_type != RX_FRAME_TYPE {
            return Err(ParsePacketError::IncorrectFrameType);
        }
        let d = &xbp.data;
        if d.len() < RX_HEADER_LEN {
            return Err(ParsePacketError::Truncated);
        }
        let src_addr: u16 = d[0] as u16 * 256 + d[1] as u16;
        let rssi: i8 = d[2] as i8;
        let options: u8 = d[3];
        let mut data: Vec<u8> = Vec::new();
        let mut i: usize = RX_HEADER_LEN;
        while i < d.len()
            invariant
                RX_HEADER_LEN <= i <= d@.len(),
                data@ == d@.subrange(RX_HEADER_LEN as int, i as int),
            decreases d@.len() - i,
        {
            proof {
                assert(d@.subrange(RX_HEADER_LEN as int, i + 1) =~= d@.subrange(
                    RX_HEADER_LEN as int,
                    i as int,
                ).push(d@[i as int]));
            }
            data.push(d[i]);
            i += 1;
        }
        Ok(RxPacket { src_addr, rssi, options, data })
    }
}

} // verus!
