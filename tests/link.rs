use ground_station::frame::XbeePacket;
use ground_station::ledger::{CommandLedger, CommandStatus, BROADCAST_ADDR};
use ground_station::received::ReceivedPacket;
use ground_station::resync::{StreamResync, BUFFER_CAPACITY};
use ground_station::salvage::{recover_telemetry, salvage_records};
use ground_station::tx_request::TxRequest;
use ground_station::tx_status::TxStatus;

const LINE: &str = "1047,15:12:02.99,123,F,YEETED,356.2,P,C,N,37.8,5.1,15:12:03,1623.3,37.2249,-80.4249,14,2.36,-5.49,CXON";

fn rx_frame(text: &[u8]) -> XbeePacket {
    let mut data = vec![0x00, 0x01, 0x28, 0x00];
    data.extend_from_slice(text);
    XbeePacket::new(0x81, data)
}

fn status_frame(status: u8, frame_id: u8) -> XbeePacket {
    XbeePacket::new(0x89, vec![status, frame_id])
}

fn feed(chunks: &[&[u8]]) -> Vec<ReceivedPacket> {
    let mut s = StreamResync::new();
    let mut out = vec![];
    for c in chunks {
        out.extend(s.push_bytes(c));
    }
    out
}

#[test]
fn classifies_frames_by_type() {
    let t = ReceivedPacket::from_bytes(&rx_frame(LINE.as_bytes()).serialise());
    assert!(matches!(t, ReceivedPacket::Telemetry { .. }));
    let r = ReceivedPacket::from_bytes(&rx_frame(b"hello").serialise());
    assert!(matches!(r, ReceivedPacket::Received { .. }));
    let s = ReceivedPacket::from_bytes(&status_frame(0x00, 7).serialise());
    assert!(matches!(s, ReceivedPacket::Status { tx_status: TxStatus::Success, frame_id: 7, .. }));
    let short = ReceivedPacket::from_bytes(&XbeePacket::new(0x89, vec![0]).serialise());
    assert!(matches!(short, ReceivedPacket::InvalidFrame(_)));
    let short_rx = ReceivedPacket::from_bytes(&XbeePacket::new(0x81, vec![0, 1]).serialise());
    assert!(matches!(short_rx, ReceivedPacket::InvalidFrame(_)));
    let unknown = ReceivedPacket::from_bytes(&XbeePacket::new(0x42, vec![1, 2]).serialise());
    assert!(matches!(unknown, ReceivedPacket::Unrecognised(_)));
    let invalid = ReceivedPacket::from_bytes(&[0x7E, 0x00]);
    assert_eq!(invalid, ReceivedPacket::Invalid(vec![0x7E, 0x00]));
}

#[test]
fn noise_between_frames_becomes_invalid_events() {
    let f1 = rx_frame(LINE.as_bytes()).serialise();
    let f2 = status_frame(0x00, 3).serialise();
    let f3 = rx_frame(b"xyz").serialise();
    let noise1 = vec![0x01, 0x02, 0x03];
    let noise2 = vec![0xAA, 0xBB];
    let stream = [noise1.clone(), f1.clone(), f2.clone(), noise2.clone(), f3.clone()].concat();
    let events = feed(&[&stream]);
    assert_eq!(events.len(), 5);
    assert_eq!(events[0], ReceivedPacket::Invalid(noise1));
    assert!(matches!(events[1], ReceivedPacket::Telemetry { .. }));
    assert!(matches!(events[2], ReceivedPacket::Status { frame_id: 3, .. }));
    assert_eq!(events[3], ReceivedPacket::Invalid(noise2));
    assert!(matches!(events[4], ReceivedPacket::Received { .. }));
}

#[test]
fn byte_at_a_time_gives_the_same_events() {
    let f1 = rx_frame(LINE.as_bytes()).serialise();
    let f2 = status_frame(0x01, 9).serialise();
    let stream = [vec![0x10, 0x20], f1, vec![0x30], f2, vec![0x7E, 0x00]].concat();
    let all_at_once = feed(&[&stream]);
    let singles: Vec<&[u8]> = stream.chunks(1).collect();
    let one_by_one = feed(&singles);
    let threes: Vec<&[u8]> = stream.chunks(3).collect();
    assert_eq!(all_at_once, one_by_one);
    assert_eq!(all_at_once, feed(&threes));
    assert_eq!(all_at_once.len(), 4);
}

#[test]
fn partial_frame_waits_and_finish_flushes() {
    let f = status_frame(0x00, 1).serialise();
    let mut s = StreamResync::new();
    assert!(s.push_bytes(&f[..3]).is_empty());
    assert_eq!(s.pending(), &f[..3]);
    let events = s.push_bytes(&f[3..]);
    assert_eq!(events.len(), 1);
    assert!(s.pending().is_empty());
    assert!(s.push_bytes(&[0x7E, 0x00, 0x05]).is_empty());
    assert_eq!(s.finish(), Some(ReceivedPacket::Invalid(vec![0x7E, 0x00, 0x05])));
    assert_eq!(StreamResync::new().finish(), None);
}

#[test]
fn full_buffer_moves_on() {
    let mut s = StreamResync::new();
    let mut junk = vec![0x7E, 0xFF, 0xFF];
    junk.resize(BUFFER_CAPACITY, 0x00);
    junk[BUFFER_CAPACITY - 10] = 0x7E;
    assert!(s.push_bytes(&junk).is_empty());
    assert_eq!(s.pending().len(), 10);
    assert_eq!(s.free_space(), BUFFER_CAPACITY - 10);
    let mut s = StreamResync::new();
    let mut junk = vec![0x7E, 0xFF, 0xFF];
    junk.resize(BUFFER_CAPACITY, 0x00);
    assert!(s.push_bytes(&junk).is_empty());
    assert_eq!(s.free_space(), BUFFER_CAPACITY);
}

#[test]
fn salvage_finds_telemetry_in_noise() {
    let mut data = vec![0xFF, 0x80];
    data.extend_from_slice(b"xx");
    data.extend_from_slice(LINE.as_bytes());
    data.push(0x90);
    data.extend_from_slice(b"1047,garbage");
    data.push(0xC0);
    data.extend_from_slice(LINE.as_bytes());
    let found = salvage_records(&data);
    assert_eq!(found.len(), 2);
    assert_eq!(found[0].format(), LINE);
    assert_eq!(found[1].packet_count, 123);
    assert_eq!(recover_telemetry(&ReceivedPacket::Invalid(data)).len(), 2);
    let framed = ReceivedPacket::Unrecognised(XbeePacket::new(0x42, LINE.as_bytes().to_vec()));
    assert!(recover_telemetry(&framed).is_empty());
    assert!(salvage_records(&[]).is_empty());
}

#[test]
fn ledger_sends_in_order_with_rotating_ids() {
    let mut l = CommandLedger::new();
    let a = l.submit("CMD,1047,CX,ON".to_string());
    let b = l.submit("CMD,1047,CAL".to_string());
    let o = l.next_to_send(1000).unwrap();
    assert_eq!(o.ticket, a);
    assert_eq!(o.frame_id, 1);
    let expected = TxRequest::new(1, BROADCAST_ADDR, "CMD,1047,CX,ON".as_bytes()).into_packet().serialise();
    assert_eq!(o.bytes, expected);
    l.mark_sent(o.ticket, o.frame_id, 1000);
    assert_eq!(l.status(a), CommandStatus::Sent { frame_id: 1 });
    assert!(l.next_to_send(1050).is_none());
    let o = l.next_to_send(1100).unwrap();
    assert_eq!(o.ticket, b);
    assert_eq!(o.frame_id, 2);
    assert_eq!(l.status(b), CommandStatus::Unsent);
    assert_eq!(l.len(), 2);
    assert_eq!(l.text(b), "CMD,1047,CAL");
}

#[test]
fn ledger_ids_skip_zero() {
    let mut l = CommandLedger::new();
    let mut ids = vec![];
    for i in 0..256u64 {
        let t = l.submit(format!("CMD,{i}"));
        let o = l.next_to_send(i * 1000).unwrap();
        assert_eq!(o.ticket, t);
        ids.push(o.frame_id);
        l.mark_sent(o.ticket, o.frame_id, i * 1000);
    }
    assert_eq!(ids[0], 1);
    assert_eq!(ids[254], 255);
    assert_eq!(ids[255], 1);
    assert!(!ids.contains(&0));
}

#[test]
fn success_acknowledges_newest_matching_command() {
    let mut l = CommandLedger::new();
    let old = l.submit("CMD,1047,CAL".to_string());
    let new = l.submit("CMD,1047,CAL".to_string());
    l.mark_sent(old, 5, 0);
    l.mark_sent(new, 5, 200);
    l.on_status(5, TxStatus::Success);
    assert_eq!(l.status(new), CommandStatus::SentStatus { status: TxStatus::Success });
    assert_eq!(l.status(old), CommandStatus::Sent { frame_id: 5 });
    l.on_status(6, TxStatus::Success);
    assert_eq!(l.status(old), CommandStatus::Sent { frame_id: 5 });
}

#[test]
fn failure_status_marks_every_matching_command() {
    let mut l = CommandLedger::new();
    let a = l.submit("A".to_string());
    let b = l.submit("B".to_string());
    let c = l.submit("C".to_string());
    l.mark_sent(a, 9, 0);
    l.mark_sent(b, 9, 0);
    l.mark_sent(c, 8, 0);
    l.on_status(9, TxStatus::NoAck);
    assert_eq!(l.status(a), CommandStatus::SentStatus { status: TxStatus::NoAck });
    assert_eq!(l.status(b), CommandStatus::SentStatus { status: TxStatus::NoAck });
    assert_eq!(l.status(c), CommandStatus::Sent { frame_id: 8 });
}

#[test]
fn hold_sending_delays_the_first_write() {
    let mut l = CommandLedger::new();
    l.submit("CMD,1047,CAL".to_string());
    l.hold_sending(500);
    assert!(l.next_to_send(550).is_none());
    assert!(l.next_to_send(600).is_some());
}
