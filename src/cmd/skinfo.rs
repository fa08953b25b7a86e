use vstd::prelude::*;

use crate::cmd::{Decode, Encode, Response};
use crate::event::{address_of, is_address_text, side_of, Ipv6Address};
use crate::payload::{Payload, PayloadView};
use crate::utils::{
    bytes_eq, bytes_of_hex, hex_byte_of, hex_u16_of, is_hex_text, lemma_bytes_of_hex_len,
    parse_hex_byte, parse_hex_bytes, parse_hex_u16, DecodeError,
};

verus! {

/// The command's name: `SKINFO`.
pub open spec fn skinfo_name() -> Seq<u8> {
    seq![0x53, 0x4B, 0x49, 0x4E, 0x46, 0x4F]
}

pub fn skinfo_name_bytes() -> (r: Vec<u8>)
    ensures
        r@ == skinfo_name(),
{
    let r = vec![0x53u8, 0x4B, 0x49, 0x4E, 0x46, 0x4F];
    assert(r@ =~= skinfo_name());
    r
}

/// The reply's name: `EINFO`.
pub open spec fn einfo_name() -> Seq<u8> {
    seq![0x45, 0x49, 0x4E, 0x46, 0x4F]
}

pub fn einfo_name_bytes() -> (r: Vec<u8>)
    ensures
        r@ == einfo_name(),
{
    let r = vec![0x45u8, 0x49, 0x4E, 0x46, 0x4F];
    assert(r@ =~= einfo_name());
    r
}

/// Asks for the module's own settings.
#[derive(Clone, Debug)]
pub struct Input {}

impl Encode for Input {
    open spec fn frame(&self) -> PayloadView {
        PayloadView { name: skinfo_name(), args: seq![] }
    }

    fn encode(&self) -> (r: Payload) {
        let r = Payload { name: skinfo_name_bytes(), args: Vec::new() };
        assert(r@.args =~= seq![]);
        r
    }
}

/// The module's own settings.
#[derive(Clone, Debug)]
pub struct Output {
    pub ip_addr: Ipv6Address,
    pub addr_64: [u8; 8],
    pub channel: u8,
    pub pan_id: u16,
    pub side: u16,
}

impl Decode for Output {
    /// An address, a MAC address of sixteen hex digits, a channel of two, a PAN ID of four,
    /// and a side.
    open spec fn accepts(p: PayloadView) -> bool {
        &&& p.name == einfo_name()
        &&& p.args.len() >= 5
        &&& is_address_text(p.args[0])
        &&& p.args[1].len() == 16
        &&& is_hex_text(p.args[1])
        &&& hex_byte_of(p.args[2]) is Some
        &&& hex_u16_of(p.args[3]) is Some
        &&& p.args[4].len() > 0
    }

    open spec fn decodes(p: PayloadView, out: Self) -> bool {
        &&& out.ip_addr.segments@ == address_of(p.args[0])
        &&& out.addr_64@ == bytes_of_hex(p.args[1])
        &&& Some(out.channel) == hex_byte_of(p.args[2])
        &&& Some(out.pan_id) == hex_u16_of(p.args[3])
        &&& out.side == side_of(p.args[4]) as u16
    }

    fn decode(payload: &Payload) -> (r: Result<Self, DecodeError>) {
        let tag = einfo_name_bytes();
        if !bytes_eq(payload.name.as_slice(), tag.as_slice()) {
            return Err(DecodeError::Name);
        }
        if payload.args.len() < 5 {
            return Err(DecodeError::Shape);
        }
        assert(payload@.args[0] == payload.args@[0]@);
        assert(payload@.args[1] == payload.args@[1]@);
        assert(payload@.args[2] == payload.args@[2]@);
        assert(payload@.args[3] == payload.args@[3]@);
        assert(payload@.args[4] == payload.args@[4]@);
        let ip_addr = Ipv6Address::parse(payload.args[0].as_slice())?;
        if payload.args[1].len() != 16 {
            return Err(DecodeError::Shape);
        }
        let b = parse_hex_bytes(payload.args[1].as_slice())?;
        proof {
            lemma_bytes_of_hex_len(payload@.args[1]);
        }
        let mut addr_64 = [0u8; 8];
        let mut i: usize = 0;
        while i < 8
            invariant
                i <= 8,
                b@.len() == 8,
                forall|j: int| 0 <= j < i ==> addr_64@[j] == b@[j],
            decreases 8 - i,
        {
            addr_64[i] = b[i];
            i = i + 1;
        }
        assert(addr_64@ =~= b@);
        let channel = parse_hex_byte(payload.args[2].as_slice())?;
        let pan_id = parse_hex_u16(payload.args[3].as_slice())?;
        if payload.args[4].len() == 0 {
            return Err(DecodeError::Shape);
        }
        let side: u16 = if payload.args[4][0] == 0x31 { 1 } else { 0 };
        Ok(Output { ip_addr, addr_64, channel, pan_id, side })
    }
}

impl Response for Output {
    open spec fn tag() -> Seq<u8> {
        einfo_name()
    }

    fn name() -> (r: Vec<u8>) {
        einfo_name_bytes()
    }
}

} // verus!
