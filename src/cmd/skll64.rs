use vstd::prelude::*;

use crate::cmd::{Decode, Encode};
use crate::event::{address_of, is_address_text, Ipv6Address};
use crate::payload::{Payload, PayloadView};
use crate::utils::{hex_of, to_hex_bytes, DecodeError};

verus! {

/// The command's name: `SKLL64`.
pub open spec fn skll64_name() -> Seq<u8> {
    seq![0x53, 0x4B, 0x4C, 0x4C, 0x36, 0x34]
}

pub fn skll64_name_bytes() -> (r: Vec<u8>)
    ensures
        r@ == skll64_name(),
{
    let r = vec![0x53u8, 0x4B, 0x4C, 0x4C, 0x36, 0x34];
    assert(r@ =~= skll64_name());
    r
}

/// Asks for the link-local IPv6 address of a 64-bit MAC address.
#[derive(Clone, Debug)]
pub struct Input {
    pub addr_64: [u8; 8],
}

impl Encode for Input {
    /// The MAC address as sixteen hex digits.
    open spec fn frame(&self) -> PayloadView {
        PayloadView { name: skll64_name(), args: seq![hex_of(self.addr_64@)] }
    }

    fn encode(&self) -> (r: Payload) {
        let args = vec![to_hex_bytes(&self.addr_64)];
        let r = Payload { name: skll64_name_bytes(), args };
        assert(r@.args =~= self.frame().args);
        r
    }
}

/// The link-local address; the module sends it as a line of its own.
#[derive(Clone, Debug)]
pub struct Output {
    pub ip_addr: Ipv6Address,
}

impl Output {
    /// Reads the address from the line that holds it.
    pub fn from_line(line: &[u8]) -> (r: Result<Output, DecodeError>)
        ensures
            r is Ok <==> is_address_text(line@),
            r is Ok ==> r->Ok_0.ip_addr.segments@ == address_of(line@),
    {
        let ip_addr = Ipv6Address::parse(line)?;
        Ok(Output { ip_addr })
    }
}

impl Decode for Output {
    open spec fn accepts(p: PayloadView) -> bool {
        is_address_text(p.name) && p.args.len() == 0
    }

    open spec fn decodes(p: PayloadView, out: Self) -> bool {
        out.ip_addr.segments@ == address_of(p.name)
    }

    fn decode(payload: &Payload) -> (r: Result<Self, DecodeError>) {
        if payload.args.len() != 0 {
            return Err(DecodeError::Shape);
        }
        Output::from_line(payload.name.as_slice())
    }
}

} // verus!
