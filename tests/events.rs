use bp35c0::event::epandesc::is_indented;
use bp35c0::{DecodeError, EPanDesc, Event, EventBody, Ipv6Address, Payload, RawEvent, UDPSendResult};

const SENDER: &[u8] = b"FE80:0000:0000:0000:021D:1290:1234:5678";

fn event(args: &[&[u8]]) -> Payload {
    Payload {
        name: b"EVENT".to_vec(),
        args: args.iter().map(|a| a.to_vec()).collect(),
    }
}

#[test]
fn address_in_full_form() {
    let a = Ipv6Address::parse(SENDER).unwrap();
    assert_eq!(a.segments, [0xFE80, 0, 0, 0, 0x021D, 0x1290, 0x1234, 0x5678]);
}

#[test]
fn address_in_lower_case() {
    let a = Ipv6Address::parse(b"fe80:0000:0000:0000:021d:1290:1234:abcd").unwrap();
    assert_eq!(a.segments, [0xFE80, 0, 0, 0, 0x021D, 0x1290, 0x1234, 0xABCD]);
}

#[test]
fn address_in_compressed_form() {
    let a = Ipv6Address::parse(b"FE80::1").unwrap();
    assert_eq!(a.segments, [0xFE80, 0, 0, 0, 0, 0, 0, 1]);
    assert_eq!(Ipv6Address::parse(b"::").unwrap().segments, [0; 8]);
    assert_eq!(Ipv6Address::parse(b"::1").unwrap().segments, [0, 0, 0, 0, 0, 0, 0, 1]);
    assert_eq!(Ipv6Address::parse(b"1::").unwrap().segments, [1, 0, 0, 0, 0, 0, 0, 0]);
    assert_eq!(
        Ipv6Address::parse(b"fe80::21d:1290:1234:5678").unwrap().segments,
        [0xFE80, 0, 0, 0, 0x021D, 0x1290, 0x1234, 0x5678]
    );
    assert_eq!(
        Ipv6Address::parse(b"1:2:3:4:5:6::8").unwrap().segments,
        [1, 2, 3, 4, 5, 6, 0, 8]
    );
    assert_eq!(Ipv6Address::parse(b"1:2:3:4:5:6:7:8").unwrap().segments, [1, 2, 3, 4, 5, 6, 7, 8]);
}

#[test]
fn address_in_other_forms_is_rejected() {
    for t in [
        &b"1:2:3:4:5:6:7"[..],
        b"1:2:3:4:5:6:7:8:9",
        b"1::2:3:4:5:6:7:8",
        b"FE80::1::2",
        b":::",
        b"1:::2",
        b"12345::",
        b":1:2:3:4:5:6:7",
        b"FE80-0000:0000:0000:021D:1290:1234:5678",
        b"G::1",
        b"",
    ] {
        assert_eq!(Ipv6Address::parse(t), Err(DecodeError::Shape));
    }
}

#[test]
fn event_with_compressed_sender() {
    let e = Event::decode(&event(&[b"22", b"FE80::1", b"0"])).unwrap();
    assert_eq!(e.body, EventBody::ActiveScanFinished);
    assert_eq!(e.header.side, 0);
    assert_eq!(e.header.sender.segments, [0xFE80, 0, 0, 0, 0, 0, 0, 1]);
}

#[test]
fn scan_finished_event_is_classified() {
    let e = Event::decode(&event(&[b"22", SENDER, b"0"])).unwrap();
    assert_eq!(e.body, EventBody::ActiveScanFinished);
    assert_eq!(e.header.side, 0);
    assert_eq!(e.header.sender.segments[7], 0x5678);
}

#[test]
fn unassigned_event_code_is_an_error() {
    assert_eq!(
        Event::decode(&event(&[b"99", SENDER, b"0"])).unwrap_err(),
        DecodeError::Code
    );
}

#[test]
fn raw_event_fields() {
    let r = RawEvent::decode(&event(&[b"21", SENDER, b"1", b"02"])).unwrap();
    assert_eq!(r.num, 0x21);
    assert_eq!(r.side, 1);
    assert_eq!(r.param, Some(b"02".to_vec()));
}

#[test]
fn event_payloads() {
    let e = Event::decode(&event(&[b"21", SENDER, b"1", b"01"])).unwrap();
    assert_eq!(e.body, EventBody::UDPSendFinished { result: UDPSendResult::Failure });
    assert_eq!(e.header.side, 1);
    let c = Event::decode(&event(&[b"45", SENDER, b"0", b"2A"])).unwrap();
    assert_eq!(c.body, EventBody::InvalidCipherReceived { actual: 0x2A });
    assert_eq!(
        Event::decode(&event(&[b"21", SENDER, b"0", b"03"])).unwrap_err(),
        DecodeError::Code
    );
    assert_eq!(
        Event::decode(&event(&[b"21", SENDER, b"0"])).unwrap_err(),
        DecodeError::Shape
    );
    assert_eq!(EventBody::PanaConnected.code(), 0x25);
}

#[test]
fn malformed_event_frames() {
    let other = Payload { name: b"EVER".to_vec(), args: vec![] };
    assert_eq!(Event::decode(&other).unwrap_err(), DecodeError::Name);
    assert_eq!(
        Event::decode(&event(&[b"2", SENDER, b"0"])).unwrap_err(),
        DecodeError::Shape
    );
    assert_eq!(
        Event::decode(&event(&[b"ZZ", SENDER, b"0"])).unwrap_err(),
        DecodeError::Hex
    );
    assert_eq!(
        Event::decode(&event(&[b"22", SENDER, b""])).unwrap_err(),
        DecodeError::Shape
    );
}

#[test]
fn descriptor_lines_are_merged() {
    let mut d = EPanDesc::empty();
    assert!(is_indented(b"  Channel:21"));
    assert!(!is_indented(b" Channel:21"));
    assert_eq!(d.merge_line(b"  Channel:21"), Ok(()));
    assert_eq!(d.merge_line(b"  Channel Page:09"), Ok(()));
    assert_eq!(d.merge_line(b"  Pan ID:8888"), Ok(()));
    assert_eq!(d.merge_line(b"  Addr:12345678ABCDEF01"), Ok(()));
    assert_eq!(d.merge_line(b"  LQI:E1"), Ok(()));
    assert_eq!(d.merge_line(b"  Side:1"), Ok(()));
    assert_eq!(d.merge_line(b"  PairID:00112233"), Ok(()));
    assert_eq!(d.channel, 0x21);
    assert_eq!(d.channel_page, 0x09);
    assert_eq!(d.pan_id, 0x8888);
    assert_eq!(d.addr, [0x12, 0x34, 0x56, 0x78, 0xAB, 0xCD, 0xEF, 0x01]);
    assert_eq!(d.lqi, 0xE1);
    assert_eq!(d.side, 1);
    assert_eq!(d.pair_id, Some([0x00, 0x11, 0x22, 0x33]));
}

#[test]
fn malformed_descriptor_field_leaves_descriptor() {
    let mut d = EPanDesc::empty();
    assert!(d.merge_line(b"  Channel:2").is_err());
    assert!(d.merge_line(b"  Addr:1234").is_err());
    assert!(d.merge_line(b"  PairID:0011").is_err());
    assert_eq!(d, EPanDesc::empty());
}
