use bp35c0::cmd::sksreg::{Register, Value};
use bp35c0::cmd::{skinfo, skjoin, skll64, sksetpwd, sksetrbid, sksreg, skver, Decode, Encode};
use bp35c0::{Bp35c0, DecodeError, Ipv6Address, Payload};

#[test]
fn register_values_on_the_wire() {
    assert_eq!(Value::Bool(true).encode(), b"1".to_vec());
    assert_eq!(Value::Bool(false).encode(), b"0".to_vec());
    assert_eq!(Value::Uint8(0x21).encode(), b"21".to_vec());
    assert_eq!(Value::Uint16(0x8888).encode(), b"8888".to_vec());
    assert_eq!(Value::Uint32(0x12345678).encode(), b"12345678".to_vec());
}

#[test]
fn register_values_read_back() {
    for v in [
        Value::Bool(true),
        Value::Bool(false),
        Value::Uint8(0),
        Value::Uint8(0xFF),
        Value::Uint16(0xABCD),
        Value::Uint32(0xDEADBEEF),
    ] {
        assert_eq!(Value::decode(&v.encode()), Ok(v));
    }
}

#[test]
fn malformed_register_values() {
    assert_eq!(Value::decode(b"2"), Err(DecodeError::Shape));
    assert_eq!(Value::decode(b"123"), Err(DecodeError::Shape));
    assert_eq!(Value::decode(b""), Err(DecodeError::Shape));
    assert_eq!(Value::decode(b"GG"), Err(DecodeError::Hex));
}

#[test]
fn register_commands() {
    let write = sksreg::Input { register: Register::SFE, value: Some(Value::Bool(false)) };
    assert_eq!(Bp35c0::send(&write), b"SKSREG SFE 0\r\n".to_vec());
    let write2 = sksreg::Input { register: Register::S03, value: Some(Value::Uint16(0x8888)) };
    assert_eq!(write2.encode().serialize(), b"SKSREG S03 8888".to_vec());
    let read = sksreg::Input { register: Register::S02, value: None };
    assert_eq!(read.encode().serialize(), b"SKSREG S02".to_vec());
}

#[test]
fn simple_commands() {
    assert_eq!(Bp35c0::send(&skver::Input {}), b"SKVER\r\n".to_vec());
    assert_eq!(Bp35c0::send(&skinfo::Input {}), b"SKINFO\r\n".to_vec());
    assert_eq!(Bp35c0::send_crlf(), b"\r\n".to_vec());
}

#[test]
fn password_and_id_commands() {
    let pwd = sksetpwd::Input::new(b"0123456789AB");
    assert_eq!(pwd.encode().serialize(), b"SKSETPWD 0C 0123456789AB".to_vec());
    let mut id = [0u8; 16];
    id[0] = 0x01;
    id[15] = 0xEF;
    let rbid = sksetrbid::Input::new(id);
    assert_eq!(
        rbid.encode().serialize(),
        b"SKSETRBID 010000000000000000000000000000EF".to_vec()
    );
}

#[test]
fn mac_to_address_command() {
    let i = skll64::Input { addr_64: [0x00, 0x1D, 0x12, 0x90, 0x12, 0x34, 0x56, 0x78] };
    assert_eq!(i.encode().serialize(), b"SKLL64 001D129012345678".to_vec());
    let out = skll64::Output::from_line(b"FE80:0000:0000:0000:021D:1290:1234:5678").unwrap();
    assert_eq!(out.ip_addr.segments[4], 0x021D);
}

#[test]
fn join_command_writes_address_in_full() {
    let ip_addr = Ipv6Address { segments: [0xFE80, 0, 0, 0, 0x021D, 0x1290, 0x1234, 0xABCD] };
    let i = skjoin::Input { ip_addr };
    assert_eq!(
        i.encode().serialize(),
        b"SKJOIN FE80:0000:0000:0000:021D:1290:1234:ABCD".to_vec()
    );
    let back = Ipv6Address::parse(&i.encode().args[0]).unwrap();
    assert_eq!(back, ip_addr);
}

#[test]
fn info_reply() {
    let p = Payload::parse(b"EINFO FE80:0000:0000:0000:021D:1290:1234:5678 001D129012345678 21 8888 1")
        .unwrap();
    let out = skinfo::Output::decode(&p).unwrap();
    assert_eq!(out.ip_addr.segments[7], 0x5678);
    assert_eq!(out.addr_64, [0x00, 0x1D, 0x12, 0x90, 0x12, 0x34, 0x56, 0x78]);
    assert_eq!(out.channel, 0x21);
    assert_eq!(out.pan_id, 0x8888);
    assert_eq!(out.side, 1);
    let short = Payload::parse(b"EINFO FE80:0000:0000:0000:021D:1290:1234:5678").unwrap();
    assert_eq!(skinfo::Output::decode(&short).unwrap_err(), DecodeError::Shape);
}

#[test]
fn version_reply() {
    let p = Payload::parse(b"EVER 1.2.10").unwrap();
    assert_eq!(skver::Output::decode(&p).unwrap().version, "1.2.10");
    let other = Payload::parse(b"EINFO").unwrap();
    assert_eq!(skver::Output::decode(&other).unwrap_err(), DecodeError::Name);
}
