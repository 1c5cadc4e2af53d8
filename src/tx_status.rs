//! Delivery status reports: what became of a transmit request.
use vstd::prelude::*;

use crate::frame::XbeePacket;
use crate::rx_packet::ParsePacketError;

verus! {

/// The frame type of a delivery status report.
pub const STATUS_FRAME_TYPE: u8 = 0x89;

/// The outcome that a delivery status report gives for a transmit request.
#[derive(Debug, Clone, Copy, PartialEq, Eq, Structural)]
pub enum TxStatus {
    Success,
    NoAck,
    CcaFailure,
    Purged,
    WifiPhysicalErrro,
    InvalidDestination,
    NoBuffers,
    NetworkAckFailure,
    NotJoinedNetwork,
    SelfAddressed,
    AddressNotFound,
    RouteNotFound,
    BroadcastFailed,
    InvalidBindingTableIndex,
    InvalidEndpoint,
    BroadcastErrorAps,
    BroadcastErrorApsEe0,
    SoftwareError,
    ResourceError,
    NoSecureSession,
    EncFailure,
    PayloadTooLarge,
    IndirectMessageUnrequested,
    SocketCreationFailed,
    IpPortNotExist,
    UdpSrcPortNotMatchListeningPort,
    TcpSrcPortNotMatchListeningPort,
    InvalidIpAddress,
    InvalidIpProtocol,
    RelayInterfaceInvalid,
    RelayInterfaceRejected,
    ModemUpdateInProgress,
    SocketConnectionRefused,
    SocketConnectionLost,
    SocketErrorNoServer,
    SocketErrorClosed,
    SocketErrorUnknownServer,
    SocketErrorUnknownError,
    InvalidTlsConfiguration,
    SocketNotConnected,
    SocketNotBound,
    KeyNotAuthorized,
    UNKNOWN,
}

impl TxStatus {
    /// The status byte of each outcome.
    pub open spec fn code_spec(self) -> u8 {
        match self {
            TxStatus::Success => 0x00,
            TxStatus::NoAck => 0x01,
            TxStatus::CcaFailure => 0x02,
            TxStatus::Purged => 0x03,
            TxStatus::WifiPhysicalErrro => 0x04,
            TxStatus::InvalidDestination => 0x15,
            TxStatus::NoBuffers => 0x18,
            TxStatus::NetworkAckFailure => 0x21,
            TxStatus::NotJoinedNetwork => 0x22,
            TxStatus::SelfAddressed => 0x23,
            TxStatus::AddressNotFound => 0x24,
            TxStatus::RouteNotFound => 0x25,
            TxStatus::BroadcastFailed => 0x26,
            TxStatus::InvalidBindingTableIndex => 0x2B,
            TxStatus::InvalidEndpoint => 0x2C,
            TxStatus::BroadcastErrorAps => 0x2D,
            TxStatus::BroadcastErrorApsEe0 => 0x2E,
            TxStatus::SoftwareError => 0x31,
            TxStatus::ResourceError => 0x32,
            TxStatus::NoSecureSession => 0x34,
            TxStatus::EncFailure => 0x35,
            TxStatus::PayloadTooLarge => 0x74,
            TxStatus::IndirectMessageUnrequested => 0x75,
            TxStatus::SocketCreationFailed => 0x76,
            TxStatus::IpPortNotExist => 0x77,
            TxStatus::UdpSrcPortNotMatchListeningPort => 0x78,
            TxStatus::TcpSrcPortNotMatchListeningPort => 0x79,
            TxStatus::InvalidIpAddress => 0x7A,
            TxStatus::InvalidIpProtocol => 0x7B,
            TxStatus::RelayInterfaceInvalid => 0x7C,
            TxStatus::RelayInterfaceRejected => 0x7D,
            TxStatus::ModemUpdateInProgress => 0x7E,
            TxStatus::SocketConnectionRefused => 0x80,
            TxStatus::SocketConnectionLost => 0x81,
            TxStatus::SocketErrorNoServer => 0x82,
            TxStatus::SocketErrorClosed => 0x83,
            TxStatus::SocketErrorUnknownServer => 0x84,
            TxStatus::SocketErrorUnknownError => 0x85,
            TxStatus::InvalidTlsConfiguration => 0x86,
            TxStatus::SocketNotConnected => 0x87,
            TxStatus::SocketNotBound => 0x88,
            TxStatus::KeyNotAuthorized => 0xBB,
            TxStatus::UNKNOWN => 0xFF,
        }
    }

    /// Whether this is `Success`.
    pub fn is_success(&self) -> (r: bool)
        ensures
            r == (*self == TxStatus::Success),
    {
        match self {
            TxStatus::Success => true,
            _ => false,
        }
    }

    /// The status byte of this outcome.
    pub fn code(&self) -> (r: u8)
        ensures
            r == self.code_spec(),
    {
        match self {
            TxStatus::Success => 0x00,
            TxStatus::NoAck => 0x01,
            TxStatus::CcaFailure => 0x02,
            TxStatus::Purged => 0x03,
            TxStatus::WifiPhysicalErrro => 0x04,
            TxStatus::InvalidDestination => 0x15,
            TxStatus::NoBuffers => 0x18,
            TxStatus::NetworkAckFailure => 0x21,
            TxStatus::NotJoinedNetwork => 0x22,
            TxStatus::SelfAddressed => 0x23,
            TxStatus::AddressNotFound => 0x24,
            TxStatus::RouteNotFound => 0x25,
            TxStatus::BroadcastFailed => 0x26,
            TxStatus::InvalidBindingTableIndex => 0x2B,
            TxStatus::InvalidEndpoint => 0x2C,
            TxStatus::BroadcastErrorAps => 0x2D,
            TxStatus::BroadcastErrorApsEe0 => 0x2E,
            TxStatus::SoftwareError => 0x31,
            TxStatus::ResourceError => 0x32,
            TxStatus::NoSecureSession => 0x34,
            TxStatus::EncFailure => 0x35,
            TxStatus::PayloadTooLarge => 0x74,
            TxStatus::IndirectMessageUnrequested => 0x75,
            TxStatus::SocketCreationFailed => 0x76,
            TxStatus::IpPortNotExist => 0x77,
            TxStatus::UdpSrcPortNotMatchListeningPort => 0x78,
            TxStatus::TcpSrcPortNotMatchListeningPort => 0x79,
            TxStatus::InvalidIpAddress => 0x7A,
            TxStatus::InvalidIpProtocol => 0x7B,
            TxStatus::RelayInterfaceInvalid => 0x7C,
            TxStatus::RelayInterfaceRejected => 0x7D,
            TxStatus::ModemUpdateInProgress => 0x7E,
            TxStatus::SocketConnectionRefused => 0x80,
            TxStatus::SocketConnectionLost => 0x81,
            TxStatus::SocketErrorNoServer => 0x82,
            TxStatus::SocketErrorClosed => 0x83,
            TxStatus::SocketErrorUnknownServer => 0x84,
            TxStatus::SocketErrorUnknownError => 0x85,
            TxStatus::InvalidTlsConfiguration => 0x86,
            TxStatus::SocketNotConnected => 0x87,
            TxStatus::SocketNotBound => 0x88,
            TxStatus::KeyNotAuthorized => 0xBB,
            TxStatus::UNKNOWN => 0xFF,
        }
    }

    /// The outcome that a status byte stands for; a byte that stands for none
    /// gives `UNKNOWN`.
    pub fn from_byte(b: u8) -> (r: TxStatus)
        ensures
            r == status_of_byte(b),
    {
        match b {
            0x00 => TxStatus::Success,
            0x01 => TxStatus::NoAck,
            0x02 => TxStatus::CcaFailure,
            0x03 => TxStatus::Purged,
            0x04 => TxStatus::WifiPhysicalErrro,
            0x15 => TxStatus::InvalidDestination,
            0x18 => TxStatus::NoBuffers,
            0x21 => TxStatus::NetworkAckFailure,
            0x22 => TxStatus::NotJoinedNetwork,
            0x23 => TxStatus::SelfAddressed,
            0x24 => TxStatus::AddressNotFound,
            0x25 => TxStatus::RouteNotFound,
            0x26 => TxStatus::BroadcastFailed,
            0x2B => TxStatus::InvalidBindingTableIndex,
            0x2C => TxStatus::InvalidEndpoint,
            0x2D => TxStatus::BroadcastErrorAps,
            0x2E => TxStatus::BroadcastErrorApsEe0,
            0x31 => TxStatus::SoftwareError,
            0x32 => TxStatus::ResourceError,
            0x34 => TxStatus::NoSecureSession,
            0x35 => TxStatus::EncFailure,
            0x74 => TxStatus::PayloadTooLarge,
            0x75 => TxStatus::IndirectMessageUnrequested,
            0x76 => TxStatus::SocketCreationFailed,
            0x77 => TxStatus::IpPortNotExist,
            0x78 => TxStatus::UdpSrcPortNotMatchListeningPort,
            0x79 => TxStatus::TcpSrcPortNotMatchListeningPort,
            0x7A => TxStatus::InvalidIpAddress,
            0x7B => TxStatus::InvalidIpProtocol,
            0x7C => TxStatus::RelayInterfaceInvalid,
            0x7D => TxStatus::RelayInterfaceRejected,
            0x7E => TxStatus::ModemUpdateInProgress,
            0x80 => TxStatus::SocketConnectionRefused,
            0x81 => TxStatus::SocketConnectionLost,
            0x82 => TxStatus::SocketErrorNoServer,
            0x83 => TxStatus::SocketErrorClosed,
            0x84 => TxStatus::SocketErrorUnknownServer,
            0x85 => TxStatus::SocketErrorUnknownError,
            0x86 => TxStatus::InvalidTlsConfiguration,
            0x87 => TxStatus::SocketNotConnected,
            0x88 => TxStatus::SocketNotBound,
            0xBB => TxStatus::KeyNotAuthorized,
            _ => TxStatus::UNKNOWN,
        }
    }

    /// A sentence that describes each outcome.
    pub open spec fn description(self) -> Seq<char> {
        match self {
            TxStatus::Success => "Success"@,
            TxStatus::NoAck => "No acknowledgement received"@,
            TxStatus::CcaFailure => "CCA failure"@,
            TxStatus::Purged => "Transmission purged, it was attempted before stack was up"@,
            TxStatus::WifiPhysicalErrro => "Transceiver was unable to complete the transmission"@,
            TxStatus::InvalidDestination => "Invalid destination endpoint"@,
            TxStatus::NoBuffers => "No buffers"@,
            TxStatus::NetworkAckFailure => "Network ACK Failure"@,
            TxStatus::NotJoinedNetwork => "Not joined to network"@,
            TxStatus::SelfAddressed => "Self-addressed"@,
            TxStatus::AddressNotFound => "Address not found"@,
            TxStatus::RouteNotFound => "Route not found"@,
            TxStatus::BroadcastFailed => "Broadcast source failed to hear a neighbor relay the message"@,
            TxStatus::InvalidBindingTableIndex => "Invalid binding table index"@,
            TxStatus::InvalidEndpoint => "Invalid endpoint"@,
            TxStatus::BroadcastErrorAps => "Attempted broadcast with APS transmission"@,
            TxStatus::BroadcastErrorApsEe0 => "Attempted broadcast with APS transmission, but EE=0"@,
            TxStatus::SoftwareError => "A software error occurred"@,
            TxStatus::ResourceError => "Resource error lack of free buffers, timers, etc"@,
            TxStatus::NoSecureSession => "No Secure session connection"@,
            TxStatus::EncFailure => "Encryption failure"@,
            TxStatus::PayloadTooLarge => "Data payload too large"@,
            TxStatus::IndirectMessageUnrequested => "Indirect message unrequested"@,
            TxStatus::SocketCreationFailed => "Attempt to create a client socket failed"@,
            TxStatus::IpPortNotExist => "TCP connection to given IP address and port does not exist. Source port is non-zero, so a new connection is not attempted"@,
            TxStatus::UdpSrcPortNotMatchListeningPort => "Source port on a UDP transmission does not match a listening port on the transmitting module"@,
            TxStatus::TcpSrcPortNotMatchListeningPort => "Source port on a TCP transmission does not match a listening port on the transmitting module"@,
            TxStatus::InvalidIpAddress => "Destination IPv4 address is invalid"@,
            TxStatus::InvalidIpProtocol => "Protocol on an IPv4 transmission is invalid"@,
            TxStatus::RelayInterfaceInvalid => "Destination interface on a User Data Relay Frame does not exist"@,
            TxStatus::RelayInterfaceRejected => "Destination interface on a User Data Relay Frame exists, but the interface is not accepting data"@,
            TxStatus::ModemUpdateInProgress => "Modem update in progress. Try again after update completion."@,
            TxStatus::SocketConnectionRefused => "Destination server refused the connection"@,
            TxStatus::SocketConnectionLost => "The existing connection was lost before the data was sent"@,
            TxStatus::SocketErrorNoServer => "No server"@,
            TxStatus::SocketErrorClosed => "The existing connection was closed"@,
            TxStatus::SocketErrorUnknownServer => "The server could not be found"@,
            TxStatus::SocketErrorUnknownError => "An unknown error occurred"@,
            TxStatus::InvalidTlsConfiguration => "TLS Profile on a 0x23 API request does not exist, or one or more certificates is invalid"@,
            TxStatus::SocketNotConnected => "Socket not connected"@,
            TxStatus::SocketNotBound => "Socket not bound"@,
            TxStatus::KeyNotAuthorized => "Key not authorized"@,
            TxStatus::UNKNOWN => "Unknown"@,
        }
    }

    /// A sentence that describes this outcome.
    pub fn as_str(&self) -> (r: &'static str)
        ensures
            r@ == self.description(),
    {
        match self {
            TxStatus::Success => "Success",
            TxStatus::NoAck => "No acknowledgement received",
            TxStatus::CcaFailure => "CCA failure",
            TxStatus::Purged => "Transmission purged, it was attempted before stack was up",
            TxStatus::WifiPhysicalErrro => "Transceiver was unable to complete the transmission",
            TxStatus::InvalidDestination => "Invalid destination endpoint",
            TxStatus::NoBuffers => "No buffers",
            TxStatus::NetworkAckFailure => "Network ACK Failure",
            TxStatus::NotJoinedNetwork => "Not joined to network",
            TxStatus::SelfAddressed => "Self-addressed",
            TxStatus::AddressNotFound => "Address not found",
            TxStatus::RouteNotFound => "Route not found",
            TxStatus::BroadcastFailed => "Broadcast source failed to hear a neighbor relay the message",
            TxStatus::InvalidBindingTableIndex => "Invalid binding table index",
            TxStatus::InvalidEndpoint => "Invalid endpoint",
            TxStatus::BroadcastErrorAps => "Attempted broadcast with APS transmission",
            TxStatus::BroadcastErrorApsEe0 => "Attempted broadcast with APS transmission, but EE=0",
            TxStatus::SoftwareError => "A software error occurred",
            TxStatus::ResourceError => "Resource error lack of free buffers, timers, etc",
            TxStatus::NoSecureSession => "No Secure session connection",
            TxStatus::EncFailure => "Encryption failure",
            TxStatus::PayloadTooLarge => "Data payload too large",
            TxStatus::IndirectMessageUnrequested => "Indirect message unrequested",
            TxStatus::SocketCreationFailed => "Attempt to create a client socket failed",
            TxStatus::IpPortNotExist => "TCP connection to given IP address and port does not exist. Source port is non-zero, so a new connection is not attempted",
            TxStatus::UdpSrcPortNotMatchListeningPort => "Source port on a UDP transmission does not match a listening port on the transmitting module",
            TxStatus::TcpSrcPortNotMatchListeningPort => "Source port on a TCP transmission does not match a listening port on the transmitting module",
            TxStatus::InvalidIpAddress => "Destination IPv4 address is invalid",
            TxStatus::InvalidIpProtocol => "Protocol on an IPv4 transmission is invalid",
            TxStatus::RelayInterfaceInvalid => "Destination interface on a User Data Relay Frame does not exist",
            TxStatus::RelayInterfaceRejected => "Destination interface on a User Data Relay Frame exists, but the interface is not accepting data",
            TxStatus::ModemUpdateInProgress => "Modem update in progress. Try again after update completion.",
            TxStatus::SocketConnectionRefused => "Destination server refused the connection",
            TxStatus::SocketConnectionLost => "The existing connection was lost before the data was sent",
            TxStatus::SocketErrorNoServer => "No server",
            TxStatus::SocketErrorClosed => "The existing connection was closed",
            TxStatus::SocketErrorUnknownServer => "The server could not be found",
            TxStatus::SocketErrorUnknownError => "An unknown error occurred",
            TxStatus::InvalidTlsConfiguration => "TLS Profile on a 0x23 API request does not exist, or one or more certificates is invalid",
            TxStatus::SocketNotConnected => "Socket not connected",
            TxStatus::SocketNotBound => "Socket not bound",
            TxStatus::KeyNotAuthorized => "Key not authorized",
            TxStatus::UNKNOWN => "Unknown",
        }
    }

    /// Reads a delivery status report: its first payload byte is the status.
    pub fn try_from(xbp: XbeePacket) -> (r: Result<TxStatus, ParsePacketError>)
        ensures
            xbp.frame_type != STATUS_FRAME_TYPE ==> r == Err::<TxStatus, ParsePacketError>(
                ParsePacketError::IncorrectFrameType,
            ),
            xbp.frame_type == STATUS_FRAME_TYPE && xbp.data@.len() == 0 ==> r == Err::<
                TxStatus,
                ParsePacketError,
            >(ParsePacketError::Truncated),
            xbp.frame_type == STATUS_FRAME_TYPE && xbp.data@.len() > 0 ==> r == Ok::<
                TxStatus,
                ParsePacketError,
            >(status_of_byte(xbp.data@[0])),
    {
        if xbp.frame_type != STATUS_FRAME_TYPE {
            return Err(ParsePacketError::IncorrectFrameType);
        }
        if xbp.data.len() == 0 {
            return Err(ParsePacketError::Truncated);
        }
        Ok(TxStatus::from_byte(xbp.data[0]))
    }
}

/// The outcome that a status byte stands for, `UNKNOWN` where it stands for none.
pub open spec fn status_of_byte(b: u8) -> TxStatus {
    match b {
        0x00 => TxStatus::Success,
        0x01 => TxStatus::NoAck,
        0x02 => TxStatus::CcaFailure,
        0x03 => TxStatus::Purged,
        0x04 => TxStatus::WifiPhysicalErrro,
        0x15 => TxStatus::InvalidDestination,
        0x18 => TxStatus::NoBuffers,
        0x21 => TxStatus::NetworkAckFailure,
        0x22 => TxStatus::NotJoinedNetwork,
        0x23 => TxStatus::SelfAddressed,
        0x24 => TxStatus::AddressNotFound,
        0x25 => TxStatus::RouteNotFound,
        0x26 => TxStatus::BroadcastFailed,
        0x2B => TxStatus::InvalidBindingTableIndex,
        0x2C => TxStatus::InvalidEndpoint,
        0x2D => TxStatus::BroadcastErrorAps,
        0x2E => TxStatus::BroadcastErrorApsEe0,
        0x31 => TxStatus::SoftwareError,
        0x32 => TxStatus::ResourceError,
        0x34 => TxStatus::NoSecureSession,
        0x35 => TxStatus::EncFailure,
        0x74 => TxStatus::PayloadTooLarge,
        0x75 => TxStatus::IndirectMessageUnrequested,
        0x76 => TxStatus::SocketCreationFailed,
        0x77 => TxStatus::IpPortNotExist,
        0x78 => TxStatus::UdpSrcPortNotMatchListeningPort,
        0x79 => TxStatus::TcpSrcPortNotMatchListeningPort,
        0x7A => TxStatus::InvalidIpAddress,
        0x7B => TxStatus::InvalidIpProtocol,
        0x7C => TxStatus::RelayInterfaceInvalid,
        0x7D => TxStatus::RelayInterfaceRejected,
        0x7E => TxStatus::ModemUpdateInProgress,
        0x80 => TxStatus::SocketConnectionRefused,
        0x81 => TxStatus::SocketConnectionLost,
        0x82 => TxStatus::SocketErrorNoServer,
        0x83 => TxStatus::SocketErrorClosed,
        0x84 => TxStatus::SocketErrorUnknownServer,
        0x85 => TxStatus::SocketErrorUnknownError,
        0x86 => TxStatus::InvalidTlsConfiguration,
        0x87 => TxStatus::SocketNotConnected,
        0x88 => TxStatus::SocketNotBound,
        0xBB => TxStatus::KeyNotAuthorized,
        _ => TxStatus::UNKNOWN,
    }
}

/// Each outcome is read back from its own status byte.
pub proof fn lemma_status_code_round_trip(s: TxStatus)
    ensures
        status_of_byte(s.code_spec()) == s,
{
}

} // verus!
