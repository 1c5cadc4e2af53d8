use ground_station::frame::{DecodeError, XbeePacket};
use ground_station::rx_packet::{ParsePacketError, RxPacket};
use ground_station::tx_request::TxRequest;
use ground_station::tx_status::TxStatus;

fn hex(s: &str) -> Vec<u8> {
    s.split_whitespace()
        .map(|b| u8::from_str_radix(b, 16).unwrap())
        .collect()
}

#[test]
fn test_basic_packet_serialise() {
    let correct = hex("7E 00 09 01 01 FF FE 00 41 42 43 44 F6");
    let packet = XbeePacket::new(0x01, hex("01 FF FE 00 41 42 43 44"));

    assert_eq!(packet.serialise(), correct);
}

#[test]
fn rx_packet_test_rx_packet_parse() {
    let xbp = XbeePacket {
        frame_type: 0x81,
        data: hex("FF FE 00 01 41 42 43 44"),
        checksum: 1,
    };

    let packet = RxPacket::try_from(xbp).unwrap();

    assert_eq!(
        packet,
        RxPacket {
            src_addr: 0xFFFE,
            rssi: 0,
            options: 1,
            data: hex("41 42 43 44"),
        }
    )
}

#[test]
fn rx_packet_test_rx_packet_parse_fails_invalid_frame_type() {
    let xbp = XbeePacket {
        frame_type: 0x82,
        data: hex("FF FE 00 01 41 42 43 44 76"),
        checksum: 1,
    };

    let _packet = RxPacket::try_from(xbp).unwrap_err();
}

#[test]
fn test_tx_req_serialisation() {
    let cal = hex("7E 00 14 01 01 00 01 00 43 4D 44 2C 31 30 34 37 2C 53 54 2C 47 50 53 47");

    let req = TxRequest::new(1, 0x00_01, "CMD,1047,ST,GPS".as_bytes());
    let packet: XbeePacket = req.into_packet();
    assert_eq!(packet.serialise(), cal);
}

#[test]
fn tx_status_test_rx_packet_parse() {
    let xbp = XbeePacket {
        frame_type: 0x89,
        data: hex("00 75"),
        checksum: 0,
    };

    let packet = TxStatus::try_from(xbp).unwrap();

    assert_eq!(packet, TxStatus::Success,)
}

#[test]
fn tx_status_test_rx_packet_parse_fails_invalid_frame_type() {
    let xbp = XbeePacket {
        frame_type: 0x90,
        data: hex("00 75"),
        checksum: 0,
    };

    let _packet = TxStatus::try_from(xbp).unwrap_err();
}

#[test]
fn decode_reads_back_an_encoded_frame() {
    let packet = XbeePacket::new(0x81, hex("00 01 28 00 31 30 34 37"));
    let bytes = packet.serialise();
    assert_eq!(XbeePacket::decode(&bytes), Ok(packet.clone()));
    let (p, n) = XbeePacket::decode_prefix(&[bytes.clone(), hex("7E 00")].concat()).unwrap();
    assert_eq!(p, packet);
    assert_eq!(n, bytes.len());
}

#[test]
fn decode_errors() {
    assert_eq!(XbeePacket::decode(&[]), Err(DecodeError::Truncated));
    assert_eq!(XbeePacket::decode(&hex("7F 00 01 01 FE")), Err(DecodeError::BadStartByte));
    assert_eq!(XbeePacket::decode(&hex("7E 00")), Err(DecodeError::Truncated));
    assert_eq!(XbeePacket::decode(&hex("7E 00 00 01")), Err(DecodeError::InvalidLength));
    assert_eq!(XbeePacket::decode(&hex("7E 00 03 01 02")), Err(DecodeError::Truncated));
    assert_eq!(XbeePacket::decode(&hex("7E 00 01 01 FF")), Err(DecodeError::ChecksumMismatch));
    assert_eq!(XbeePacket::decode(&hex("7E 00 01 01 FE")).unwrap().frame_type, 1);
}

#[test]
fn flipped_bit_is_a_checksum_mismatch() {
    let packet = XbeePacket::new(0x01, hex("01 FF FE 00 41 42 43 44"));
    let bytes = packet.serialise();
    for i in 3..bytes.len() - 1 {
        for bit in 0..8 {
            let mut flipped = bytes.clone();
            flipped[i] ^= 1 << bit;
            assert_eq!(XbeePacket::decode(&flipped), Err(DecodeError::ChecksumMismatch));
        }
    }
}

#[test]
fn escaped_length_reads_as_seventeen() {
    // 0x00 0x7D then 0x31 stands for the length 0x11.
    let body = hex("81 00 01 28 00 41 42 43 44 45 46 47 48 49 4A 4B 4C");
    let mut bytes = hex("7E 00 7D 31");
    bytes.extend_from_slice(&body);
    let sum: u32 = body.iter().map(|b| *b as u32).sum();
    bytes.push(0xFF - (sum % 256) as u8);
    let p = XbeePacket::decode(&bytes).unwrap();
    assert_eq!(p.frame_type, 0x81);
    assert_eq!(p.data.len(), 16);
    let (_, n) = XbeePacket::decode_prefix(&bytes).unwrap();
    assert_eq!(n, bytes.len());

    let mut other = hex("7E 00 7D 30");
    other.extend_from_slice(&body);
    assert_eq!(XbeePacket::decode(&other), Err(DecodeError::InvalidLength));
    assert_eq!(XbeePacket::decode(&hex("7E 00 7D")), Err(DecodeError::Truncated));
}

#[test]
fn checksum_formula() {
    assert_eq!(ground_station::frame::compute_checksum(0x01, &[]), 0xFE);
    assert_eq!(ground_station::frame::compute_checksum(0xFF, &[0x01]), 0xFF);
    assert_eq!(ground_station::frame::compute_checksum(0x89, &hex("00 75")), 0xFF - 0xFE);
}

#[test]
fn status_bytes_map_to_outcomes() {
    assert_eq!(TxStatus::from_byte(0x00), TxStatus::Success);
    assert_eq!(TxStatus::from_byte(0x01), TxStatus::NoAck);
    assert_eq!(TxStatus::from_byte(0x75), TxStatus::IndirectMessageUnrequested);
    assert_eq!(TxStatus::from_byte(0x05), TxStatus::UNKNOWN);
    assert_eq!(TxStatus::from_byte(0xBB).code(), 0xBB);
    assert_eq!(TxStatus::Success.as_str(), "Success");
    assert_eq!(TxStatus::NoAck.as_str(), "No acknowledgement received");
    let empty = XbeePacket { frame_type: 0x89, data: vec![], checksum: 0 };
    assert_eq!(TxStatus::try_from(empty), Err(ParsePacketError::Truncated));
}

#[test]
fn rx_packet_needs_its_header() {
    let xbp = XbeePacket { frame_type: 0x81, data: hex("FF FE 00"), checksum: 0 };
    assert_eq!(RxPacket::try_from(xbp), Err(ParsePacketError::Truncated));
    let xbp = XbeePacket { frame_type: 0x81, data: hex("12 34 D8 02"), checksum: 0 };
    let p = RxPacket::try_from(xbp).unwrap();
    assert_eq!(p.src_addr, 0x1234);
    assert_eq!(p.rssi, -40);
    assert_eq!(p.options, 2);
    assert!(p.data.is_empty());
}

#[test]
fn large_payload_round_trips() {
    let data: Vec<u8> = (0..3000u32).map(|i| (i % 251) as u8).collect();
    let packet = XbeePacket::new(0x10, data);
    let bytes = packet.serialise();
    assert_eq!(bytes.len(), 3005);
    assert_eq!(bytes[1], 0x0B);
    assert_eq!(bytes[2], 0xB9);
    assert_eq!(XbeePacket::decode(&bytes), Ok(packet));
}
