//! What the link makes of the bytes at a candidate frame start.
use vstd::prelude::*;

use crate::frame::{decode_spec, DecodeError, FrameModel, XbeePacket};
use crate::rx_packet::{ParsePacketError, RxPacket, RX_FRAME_TYPE, RX_HEADER_LEN};
use crate::telemetry::{Telemetry, TelemetryView};
use crate::tx_status::{status_of_byte, TxStatus, STATUS_FRAME_TYPE};

verus! {

/// The payload length of a delivery status report: the status byte, then the
/// frame id of the request it reports on.
pub const STATUS_REPORT_LEN: usize = 2;

/// One event of the link.
#[derive(Debug, Clone, PartialEq, Eq)]
pub enum ReceivedPacket {
    /// Received data that reads as a telemetry line.
    Telemetry { packet: XbeePacket, frame: RxPacket, telem: Telemetry },
    /// Received data that does not read as telemetry.
    Received { packet: XbeePacket, frame: RxPacket },
    /// The delivery status of the request with the given frame id.
    Status { packet: XbeePacket, tx_status: TxStatus, frame_id: u8 },
    /// A frame of a known type whose payload is too short for that type.
    InvalidFrame(XbeePacket),
    /// A frame of a type that the link does not know.
    Unrecognised(XbeePacket),
    /// Bytes that are not a frame.
    Invalid(Vec<u8>),
}

/// The received-data fields of `frame` are those of the payload of `f`.
pub open spec fn rx_fields_of(frame: RxPacket, f: FrameModel) -> bool {
    &&& frame.src_addr as int == f.data[0] as int * 256 + f.data[1] as int
    &&& frame.rssi == f.data[2] as i8
    &&& frame.options == f.data[3]
    &&& frame.data@ == f.data.subrange(RX_HEADER_LEN as int, f.data.len() as int)
}

/// `r` is the event of the decoded frame `f`.
pub open spec fn classifies(f: FrameModel, r: ReceivedPacket) -> bool {
    if f.frame_type == RX_FRAME_TYPE {
        if f.data.len() < RX_HEADER_LEN {
            r matches ReceivedPacket::InvalidFrame(p) && p@ == f
        } else {
            match TelemetryView::parse_spec(
                f.data.subrange(RX_HEADER_LEN as int, f.data.len() as int),
            ) {
                Ok(tv) => r matches ReceivedPacket::Telemetry { packet, frame, telem } && packet@
                    == f && rx_fields_of(frame, f) && telem@ == tv,
                Err(_) => r matches ReceivedPacket::Received { packet, frame } && packet@ == f
                    && rx_fields_of(frame, f),
            }
        }
    } else if f.frame_type == STATUS_FRAME_TYPE {
        if f.data.len() < STATUS_REPORT_LEN {
            r matches ReceivedPacket::InvalidFrame(p) && p@ == f
        } else {
            r matches ReceivedPacket::Status { packet, tx_status, frame_id } && packet@ == f
                && tx_status == status_of_byte(f.data[0]) && frame_id == f.data[1]
        }
    } else {
        r matches ReceivedPacket::Unrecognised(p) && p@ == f
    }
}

/// `r` is the event of the bytes `raw`, read from their start.
pub open spec fn event_of(raw: Seq<u8>, r: ReceivedPacket) -> bool {
    match decode_spec(raw) {
        Ok((f, _)) => classifies(f, r),
        Err(_) => r matches ReceivedPacket::Invalid(v) && v@ == raw,
    }
}

impl ReceivedPacket {
    /// The event of a decoded frame, by its type.
    pub fn classify(packet: XbeePacket) -> (r: ReceivedPacket)
        ensures
            classifies(packet@, r),
    {
        if packet.frame_type == RX_FRAME_TYPE {
            let frame = match RxPacket::try_from(packet.duplicate()) {
                Ok(frame) => frame,
                Err(_) => return ReceivedPacket::InvalidFrame(packet),
            };
            match Telemetry::parse_bytes(frame.data.as_slice()) {
                Ok(telem) => ReceivedPacket::Telemetry { packet, frame, telem },
                Err(_) => ReceivedPacket::Received { packet, frame },
            }
        } else if packet.frame_type == STATUS_FRAME_TYPE {
            if packet.data.len() < STATUS_REPORT_LEN {
                return ReceivedPacket::InvalidFrame(packet);
            }
            let frame_id = packet.data[1];
            let tx_status = match TxStatus::try_from(packet.duplicate()) {
                Ok(s) => s,
                Err(_) => return ReceivedPacket::InvalidFrame(packet),
            };
            ReceivedPacket::Status { packet, tx_status, frame_id }
        } else {
            ReceivedPacket::Unrecognised(packet)
        }
    }

    /// The event of the bytes `raw`, read from their start.
    pub fn from_bytes(raw: &[u8]) -> (r: ReceivedPacket)
        ensures
            event_of(raw@, r),
    {
        match XbeePacket::decode(raw) {
            Ok(packet) => Self::classify(packet),
            Err(_) => ReceivedPacket::Invalid(crate::text::copy_bytes(raw)),
        }
    }
}

} // verus!
