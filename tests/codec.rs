use bp35c0::utils::{
    atoi, itoa, parse_hex_byte, parse_hex_bytes, parse_hex_u16, parse_hex_u32, to_hex_bytes,
    u16_to_hex_bytes, u32_to_hex_bytes,
};
use bp35c0::{DecodeError, FrameError, Payload};

#[test]
fn test_parse_hex_bytes() {
    assert_eq!(
        Ok(vec![0x01, 0x23, 0x45, 0x67, 0x89, 0xAB, 0xCD, 0xEF]),
        parse_hex_bytes(b"0123456789ABCDEF"),
    );
}

#[test]
fn hex_decoding_rejects_odd_length() {
    assert_eq!(parse_hex_bytes(b"ABC"), Err(DecodeError::Hex));
}

#[test]
fn hex_decoding_rejects_non_digits() {
    assert_eq!(parse_hex_bytes(b"0G"), Err(DecodeError::Hex));
    assert_eq!(parse_hex_bytes(b"ab"), Err(DecodeError::Hex));
}

#[test]
fn hex_decoding_of_empty_text_is_empty() {
    assert_eq!(parse_hex_bytes(b""), Ok(vec![]));
}

#[test]
fn hex_round_trip_of_all_bytes() {
    let all: Vec<u8> = (0..=255u8).collect();
    let text = to_hex_bytes(&all);
    assert_eq!(text.len(), 512);
    assert_eq!(&text[..6], b"000102");
    assert_eq!(&text[508..], b"FEFF");
    assert_eq!(parse_hex_bytes(&text), Ok(all));
}

#[test]
fn digits_both_ways() {
    assert_eq!(itoa(0x00), [b'0', b'0']);
    assert_eq!(itoa(0xA5), [b'A', b'5']);
    assert_eq!(itoa(0xFF), [b'F', b'F']);
    assert_eq!(atoi(b'7'), Some(7));
    assert_eq!(atoi(b'F'), Some(15));
    assert_eq!(atoi(b'f'), None);
    assert_eq!(atoi(b'G'), None);
}

#[test]
fn network_byte_order_text() {
    assert_eq!(u16_to_hex_bytes(0x1234), b"1234".to_vec());
    assert_eq!(u16_to_hex_bytes(0x00FF), b"00FF".to_vec());
    assert_eq!(u32_to_hex_bytes(0x12345678), b"12345678".to_vec());
    assert_eq!(u32_to_hex_bytes(0xFFFFFFFF), b"FFFFFFFF".to_vec());
    assert_eq!(parse_hex_u16(b"1234"), Ok(0x1234));
    assert_eq!(parse_hex_u32(b"12345678"), Ok(0x12345678));
    assert_eq!(parse_hex_u32(b"1234567"), Err(DecodeError::Shape));
    assert_eq!(parse_hex_byte(b"2A"), Ok(0x2A));
}

#[test]
fn frame_parse_splits_on_every_space() {
    let p = Payload::parse(b"EVENT 21  X").unwrap();
    assert_eq!(p.name, b"EVENT".to_vec());
    assert_eq!(p.args, vec![b"21".to_vec(), b"".to_vec(), b"X".to_vec()]);
    let q = Payload::parse(b"OK").unwrap();
    assert_eq!(q.name, b"OK".to_vec());
    assert!(q.args.is_empty());
}

#[test]
fn frame_without_name_is_an_error() {
    assert_eq!(Payload::parse(b""), Err(FrameError::NoName));
    assert_eq!(Payload::parse(b" OK"), Err(FrameError::NoName));
}

#[test]
fn frame_round_trip() {
    let f = Payload {
        name: b"SKSREG".to_vec(),
        args: vec![b"S02".to_vec(), b"21".to_vec(), b"".to_vec()],
    };
    let bytes = f.serialize();
    assert_eq!(bytes, b"SKSREG S02 21 ".to_vec());
    assert_eq!(Payload::parse(&bytes), Ok(f));
}
