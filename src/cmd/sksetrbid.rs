use vstd::prelude::*;

use crate::cmd::Encode;
use crate::payload::{Payload, PayloadView};
use crate::utils::{hex_of, to_hex_bytes};

verus! {

/// The command's name: `SKSETRBID`.
pub open spec fn sksetrbid_name() -> Seq<u8> {
    seq![0x53, 0x4B, 0x53, 0x45, 0x54, 0x52, 0x42, 0x49, 0x44]
}

pub fn sksetrbid_name_bytes() -> (r: Vec<u8>)
    ensures
        r@ == sksetrbid_name(),
{
    let r = vec![0x53u8, 0x4B, 0x53, 0x45, 0x54, 0x52, 0x42, 0x49, 0x44];
    assert(r@ =~= sksetrbid_name());
    r
}

/// Sets the route-B ID.
#[derive(Clone, Debug)]
pub struct Input {
    rbid: [u8; 16],
}

impl Input {
    pub fn new(rbid: [u8; 16]) -> (r: Input)
        ensures
            r.id() == rbid@,
    {
        Input { rbid }
    }

    pub closed spec fn id(&self) -> Seq<u8> {
        self.rbid@
    }
}

impl Encode for Input {
    /// The ID as thirty-two hex digits.
    open spec fn frame(&self) -> PayloadView {
        PayloadView { name: sksetrbid_name(), args: seq![hex_of(self.id())] }
    }

    fn encode(&self) -> (r: Payload) {
        let args = vec![to_hex_bytes(&self.rbid)];
        let r = Payload { name: sksetrbid_name_bytes(), args };
        assert(r@.args =~= self.frame().args);
        r
    }
}

} // verus!
