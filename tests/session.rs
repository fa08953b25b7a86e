use bp35c0::cmd::{sksreg, skver, Decode, Response};
use bp35c0::{Action, Bp35c0, DecodeError, EventBody, EventFilter, Ipv6Address, Outcome, Payload, Wait};

const SENDER: &str = "FE80:0000:0000:0000:021D:1290:1234:5678";

/// Runs a wait against scripted lines from the module; the lines that are left are returned.
fn drive(dev: &mut Bp35c0, mut w: Wait, lines: &mut Vec<String>) -> Outcome {
    let mut act = dev.poll(&mut w);
    loop {
        match act {
            Action::Done(o) => return o,
            Action::ReadLine => {
                assert!(!lines.is_empty(), "the script ran out of lines");
                let line = lines.remove(0);
                act = dev.feed(&mut w, line.as_bytes());
            }
        }
    }
}

fn script(lines: &[&str]) -> Vec<String> {
    lines.iter().map(|l| format!("{}\r\n", l)).collect()
}

fn frame_name(o: Outcome) -> Vec<u8> {
    match o {
        Outcome::Frame(p) => p.name,
        _ => panic!("expected a frame"),
    }
}

fn next_name(dev: &mut Bp35c0, lines: &mut Vec<String>) -> Vec<u8> {
    frame_name(drive(dev, Wait::frame(), lines))
}

#[test]
fn echo_is_suppressed() {
    let cmd = Bp35c0::send(&bp35c0::cmd::skreset::Input {});
    assert_eq!(cmd, b"SKRESET\r\n".to_vec());
    let echoed = String::from_utf8(cmd).unwrap();

    let mut with_echo = Bp35c0::new();
    let mut lines = vec![echoed, "OK\r\n".to_string()];
    let a = drive(&mut with_echo, Wait::ok(), &mut lines);

    let mut without_echo = Bp35c0::new();
    let mut lines2 = script(&["OK"]);
    let b = drive(&mut without_echo, Wait::ok(), &mut lines2);

    assert_eq!(frame_name(a), frame_name(b));
    assert_eq!(with_echo.buffered(), 0);
    assert_eq!(without_echo.buffered(), 0);
    assert!(lines.is_empty() && lines2.is_empty());
}

#[test]
fn echo_lines_are_not_frames() {
    assert!(Bp35c0::receive_payload_unbuffered(b"SKSREG SFE 0\r\n").is_none());
    assert!(Bp35c0::receive_payload_unbuffered(b"WOPT 01\r\n").is_none());
    assert!(Bp35c0::receive_payload_unbuffered(b"ROPT\r\n").is_none());
    assert!(Bp35c0::receive_payload_unbuffered(b"\r\n").is_none());
    let p = Bp35c0::receive_payload_unbuffered(b"EVER 1.2.10\r\n").unwrap();
    assert_eq!(p.name, b"EVER".to_vec());
    assert_eq!(p.args, vec![b"1.2.10".to_vec()]);
}

#[test]
fn reorder_fairness() {
    let mut dev = Bp35c0::new();
    let mut lines = script(&["A 1", "B 2", "X 3", "C 4"]);
    let x = drive(&mut dev, Wait::name(b"X".to_vec()), &mut lines);
    match x {
        Outcome::Frame(p) => assert_eq!(p.args, vec![b"3".to_vec()]),
        _ => panic!("expected a frame"),
    }
    assert_eq!(dev.buffered(), 2);
    assert_eq!(next_name(&mut dev, &mut lines), b"A".to_vec());
    assert_eq!(next_name(&mut dev, &mut lines), b"B".to_vec());
    assert_eq!(next_name(&mut dev, &mut lines), b"C".to_vec());
    assert!(lines.is_empty());
}

#[test]
fn wait_map_restores_staged_frames_in_order() {
    let mut dev = Bp35c0::new();
    let mut w = Wait::ok();
    let a = Payload { name: b"A".to_vec(), args: vec![] };
    let b = Payload { name: b"B".to_vec(), args: vec![] };
    assert!(dev.wait_map(&mut w, bp35c0::WaitMap::Continue(a)).is_none());
    assert!(dev.wait_map(&mut w, bp35c0::WaitMap::Continue(b)).is_none());
    assert_eq!(dev.buffered(), 0);
    assert!(dev.wait_map(&mut w, bp35c0::WaitMap::Finish(Outcome::Joined)).is_some());
    assert_eq!(dev.receive_payload().unwrap().name, b"A".to_vec());
    assert_eq!(dev.receive_payload().unwrap().name, b"B".to_vec());
    assert!(dev.receive_payload().is_none());
}

#[test]
fn descriptor_block_then_ok_line() {
    let mut dev = Bp35c0::new();
    let finished = format!("EVENT 22 {} 0", SENDER);
    let mut lines = script(&[
        "OK",
        "EPANDESC",
        "  Channel:21",
        "  Channel Page:09",
        "  Pan ID:8888",
        "  Addr:12345678ABCDEF01",
        "OK",
        &finished,
    ]);
    let descs = match drive(&mut dev, Wait::scan(), &mut lines) {
        Outcome::Scanned(Ok(d)) => d,
        _ => panic!("expected descriptors"),
    };
    assert_eq!(descs.len(), 1);
    assert_eq!(descs[0].channel, 0x21);
    assert_eq!(descs[0].channel_page, 0x09);
    assert_eq!(descs[0].pan_id, 0x8888);
    assert_eq!(descs[0].addr, [0x12, 0x34, 0x56, 0x78, 0xAB, 0xCD, 0xEF, 0x01]);
    assert_eq!(next_name(&mut dev, &mut lines), b"OK".to_vec());
    assert!(lines.is_empty());
}

#[test]
fn scan_with_two_descriptor_blocks() {
    let mut dev = Bp35c0::new();
    let cmd = Bp35c0::send(&bp35c0::cmd::skscan::Input::active(true, 0xFFFFFFFF, 7, 0));
    assert_eq!(cmd, b"SKSCAN 2 FFFFFFFF 07 0\r\n".to_vec());
    let beacon = format!("EVENT 20 {} 0", SENDER);
    let finished = format!("EVENT 22 {} 0", SENDER);
    let mut lines = script(&[
        "SKSCAN 2 FFFFFFFF 07 0",
        "OK",
        &beacon,
        "EPANDESC",
        "  Channel:21",
        "  Pan ID:1111",
        "  Addr:0000000000000001",
        "EPANDESC",
        "  Channel:3C",
        "  Pan ID:2222",
        "  Addr:0000000000000002",
        "  PairID:0011AABB",
        "ERXUDP 1",
        &finished,
        "ERXUDP 2",
    ]);
    let descs = match drive(&mut dev, Wait::scan(), &mut lines) {
        Outcome::Scanned(Ok(d)) => d,
        _ => panic!("expected descriptors"),
    };
    assert_eq!(descs.len(), 2);
    assert_eq!((descs[0].channel, descs[0].pan_id, descs[0].addr[7]), (0x21, 0x1111, 1));
    assert_eq!((descs[1].channel, descs[1].pan_id, descs[1].addr[7]), (0x3C, 0x2222, 2));
    assert_eq!(descs[0].pair_id, None);
    assert_eq!(descs[1].pair_id, Some([0x00, 0x11, 0xAA, 0xBB]));
    assert_eq!(next_name(&mut dev, &mut lines), b"EVENT".to_vec());
    let udp = drive(&mut dev, Wait::frame(), &mut lines);
    match udp {
        Outcome::Frame(p) => assert_eq!(p.args, vec![b"1".to_vec()]),
        _ => panic!("expected a frame"),
    }
    let last = drive(&mut dev, Wait::frame(), &mut lines);
    match last {
        Outcome::Frame(p) => assert_eq!(p.args, vec![b"2".to_vec()]),
        _ => panic!("expected a frame"),
    }
    assert!(lines.is_empty());
}

#[test]
fn scan_without_coordinator_is_empty() {
    let mut dev = Bp35c0::new();
    let finished = format!("EVENT 22 {} 0", SENDER);
    let mut lines = script(&["OK", &finished]);
    match drive(&mut dev, Wait::scan(), &mut lines) {
        Outcome::Scanned(Ok(d)) => assert!(d.is_empty()),
        _ => panic!("expected descriptors"),
    }
}

#[test]
fn scan_with_malformed_descriptor_reports_it() {
    let mut dev = Bp35c0::new();
    let finished = format!("EVENT 22 {} 0", SENDER);
    let mut lines = script(&["OK", "EPANDESC", "  Channel:XYZ", &finished]);
    match drive(&mut dev, Wait::scan(), &mut lines) {
        Outcome::Scanned(Err(_)) => {}
        _ => panic!("expected an error"),
    }
    assert_eq!(dev.buffered(), 0);
}

#[test]
fn join_waits_for_connection_and_ok() {
    let mut dev = Bp35c0::new();
    let connected = format!("EVENT 25 {} 0", SENDER);
    let error = format!("EVENT 24 {} 0", SENDER);
    let mut lines = script(&["OK", &error, &connected, "ERXUDP 9", "OK"]);
    match drive(&mut dev, Wait::join(), &mut lines) {
        Outcome::Joined => {}
        _ => panic!("expected a join"),
    }
    assert_eq!(dev.buffered(), 3);
    assert_eq!(next_name(&mut dev, &mut lines), b"OK".to_vec());
    assert_eq!(next_name(&mut dev, &mut lines), b"EVENT".to_vec());
    assert_eq!(next_name(&mut dev, &mut lines), b"ERXUDP".to_vec());
}

#[test]
fn wait_for_event_by_code() {
    let mut dev = Bp35c0::new();
    let other = format!("EVENT 21 {} 1 00", SENDER);
    let wanted = format!("EVENT 25 {} 1", SENDER);
    let mut lines = script(&[&other, "ERXUDP 1", &wanted]);
    match drive(&mut dev, Wait::event(0x25), &mut lines) {
        Outcome::Event(e) => {
            assert_eq!(e.body, EventBody::PanaConnected);
            assert_eq!(e.header.side, 1);
        }
        _ => panic!("expected an event"),
    }
    assert_eq!(dev.buffered(), 2);
}

#[test]
fn undecodable_event_ends_an_event_wait() {
    let mut dev = Bp35c0::new();
    let other = format!("EVENT 21 {} 1 00", SENDER);
    let unknown = format!("EVENT 99 {} 0", SENDER);
    let wanted = format!("EVENT 25 {} 1", SENDER);
    let mut lines = script(&["ERXUDP 1", &other, &unknown, &wanted]);
    match drive(&mut dev, Wait::event(0x25), &mut lines) {
        Outcome::Undecodable(e) => assert_eq!(e, DecodeError::Code),
        _ => panic!("expected a decode error"),
    }
    assert_eq!(dev.buffered(), 2);
    assert_eq!(next_name(&mut dev, &mut lines), b"ERXUDP".to_vec());
    assert_eq!(next_name(&mut dev, &mut lines), b"EVENT".to_vec());
    match drive(&mut dev, Wait::event(0x25), &mut lines) {
        Outcome::Event(e) => assert_eq!(e.body, EventBody::PanaConnected),
        _ => panic!("expected an event"),
    }
    assert!(lines.is_empty());
}

#[test]
fn malformed_event_frame_ends_an_event_wait() {
    let mut dev = Bp35c0::new();
    let mut lines = script(&["EVENT 22 FE80:::1 0"]);
    match drive(&mut dev, Wait::event(0x22), &mut lines) {
        Outcome::Undecodable(e) => assert_eq!(e, DecodeError::Shape),
        _ => panic!("expected a decode error"),
    }
}

#[test]
fn echo_with_spaces_is_suppressed() {
    let cmd = Bp35c0::send(&bp35c0::cmd::sksetpwd::Input::new(b"pass word"));
    assert_eq!(cmd, b"SKSETPWD 09 pass word\r\n".to_vec());
    let mut dev = Bp35c0::new();
    let mut lines = vec![String::from_utf8(cmd).unwrap(), "OK\r\n".to_string()];
    assert_eq!(frame_name(drive(&mut dev, Wait::ok(), &mut lines)), b"OK".to_vec());
    assert_eq!(dev.buffered(), 0);
}

#[test]
fn response_then_ok() {
    let mut dev = Bp35c0::new();
    let mut lines = script(&["SKVER", "EVER 1.2.10", "OK"]);
    let p = match drive(&mut dev, Wait::name(skver::Output::name()), &mut lines) {
        Outcome::Frame(p) => p,
        _ => panic!("expected a frame"),
    };
    let out = skver::Output::decode(&p).unwrap();
    assert_eq!(out.version, "1.2.10");
    assert_eq!(frame_name(drive(&mut dev, Wait::ok(), &mut lines)), b"OK".to_vec());
    assert_eq!(dev.buffered(), 0);
}

#[test]
fn register_read_reply() {
    let mut dev = Bp35c0::new();
    let mut lines = script(&["ESREG 8888", "OK"]);
    let p = match drive(&mut dev, Wait::name(sksreg::Output::name()), &mut lines) {
        Outcome::Frame(p) => p,
        _ => panic!("expected a frame"),
    };
    assert_eq!(sksreg::Output::decode(&p).unwrap().value, sksreg::Value::Uint16(0x8888));
}

#[test]
fn address_reply_line() {
    let mut dev = Bp35c0::new();
    let mut lines = script(&["SKLL64 12345678ABCDEF01", SENDER]);
    let p = match drive(&mut dev, Wait::address(), &mut lines) {
        Outcome::Frame(p) => p,
        _ => panic!("expected a frame"),
    };
    let out = bp35c0::cmd::skll64::Output::decode(&p).unwrap();
    assert_eq!(out.ip_addr.segments[0], 0xFE80);
}

#[test]
fn failed_command_ends_the_wait() {
    let mut dev = Bp35c0::new();
    let mut lines = script(&["ERXUDP 1", "FAIL ER04", "OK"]);
    match drive(&mut dev, Wait::ok(), &mut lines) {
        Outcome::Failed(p) => assert_eq!(p.args, vec![b"ER04".to_vec()]),
        _ => panic!("expected a failure"),
    }
    assert_eq!(dev.buffered(), 1);
    assert_eq!(lines.len(), 1);
}

#[test]
fn failed_scan_command_ends_the_scan() {
    let mut dev = Bp35c0::new();
    let mut lines = script(&["FAIL ER06"]);
    match drive(&mut dev, Wait::scan(), &mut lines) {
        Outcome::Failed(p) => assert_eq!(p.args, vec![b"ER06".to_vec()]),
        _ => panic!("expected a failure"),
    }
}

#[test]
fn failure_does_not_end_an_event_wait() {
    let mut dev = Bp35c0::new();
    let wanted = format!("EVENT 22 {} 0", SENDER);
    let mut lines = script(&["FAIL ER04", &wanted]);
    match drive(&mut dev, Wait::event(0x22), &mut lines) {
        Outcome::Event(e) => assert_eq!(e.body, EventBody::ActiveScanFinished),
        _ => panic!("expected an event"),
    }
    assert_eq!(next_name(&mut dev, &mut lines), b"FAIL".to_vec());
}

#[test]
fn wait_for_event_by_filter() {
    let mut dev = Bp35c0::new();
    let other_side = format!("EVENT 21 {} 0 00", SENDER);
    let other_sender = "EVENT 21 FE80::2 1 00";
    let failed = format!("EVENT 21 {} 1 01", SENDER);
    let wanted = format!("EVENT 21 {} 1 00", SENDER);
    let mut lines = script(&[&other_side, other_sender, &failed, &wanted]);
    let filter = EventFilter {
        code: None,
        body: Some(EventBody::UDPSendFinished { result: bp35c0::UDPSendResult::Success }),
        sender: Some(Ipv6Address::parse(SENDER.as_bytes()).unwrap()),
        side: Some(1),
    };
    match drive(&mut dev, Wait::event_where(filter), &mut lines) {
        Outcome::Event(e) => {
            assert_eq!(e.header.side, 1);
            assert_eq!(e.header.sender.segments[7], 0x5678);
        }
        _ => panic!("expected an event"),
    }
    assert_eq!(dev.buffered(), 3);
    assert!(lines.is_empty());
}

#[test]
fn event_filter_by_code_and_sender() {
    let mut dev = Bp35c0::new();
    let mut lines = script(&["EVENT 25 FE80::2 0", "EVENT 25 FE80::1 0"]);
    let filter = EventFilter {
        code: Some(0x25),
        body: None,
        sender: Some(Ipv6Address { segments: [0xFE80, 0, 0, 0, 0, 0, 0, 1] }),
        side: None,
    };
    match drive(&mut dev, Wait::event_where(filter), &mut lines) {
        Outcome::Event(e) => assert_eq!(e.header.sender.segments[7], 1),
        _ => panic!("expected an event"),
    }
    assert_eq!(dev.buffered(), 1);
}

#[test]
fn query_waits_for_reply_then_ok() {
    let mut dev = Bp35c0::new();
    let mut lines = script(&["SKVER", "ERXUDP 1", "EVER 1.2.10", "ERXUDP 2", "OK", "ERXUDP 3"]);
    let p = match drive(&mut dev, Wait::response(skver::Output::name()), &mut lines) {
        Outcome::Frame(p) => p,
        _ => panic!("expected a frame"),
    };
    assert_eq!(skver::Output::decode(&p).unwrap().version, "1.2.10");
    assert_eq!(dev.buffered(), 2);
    assert_eq!(lines.len(), 1);
    let q = drive(&mut dev, Wait::frame(), &mut lines);
    match q {
        Outcome::Frame(p) => assert_eq!(p.args, vec![b"1".to_vec()]),
        _ => panic!("expected a frame"),
    }
}

#[test]
fn failed_query_ends_the_wait() {
    let mut dev = Bp35c0::new();
    let mut lines = script(&["FAIL ER10"]);
    match drive(&mut dev, Wait::response(sksreg::Output::name()), &mut lines) {
        Outcome::Failed(p) => assert_eq!(p.args, vec![b"ER10".to_vec()]),
        _ => panic!("expected a failure"),
    }
}

#[test]
fn ok_ending_a_block_before_the_scan_ok_is_kept() {
    let mut dev = Bp35c0::new();
    let finished = format!("EVENT 22 {} 0", SENDER);
    let mut lines = script(&["EPANDESC", "  Channel:21", "OK", &finished]);
    match drive(&mut dev, Wait::scan(), &mut lines) {
        Outcome::Scanned(Ok(d)) => assert_eq!(d.len(), 1),
        _ => panic!("expected descriptors"),
    }
    assert_eq!(next_name(&mut dev, &mut lines), b"OK".to_vec());
}
