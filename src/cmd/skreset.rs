use vstd::prelude::*;

use crate::cmd::Encode;
use crate::payload::{Payload, PayloadView};

verus! {

/// The command's name: `SKRESET`.
pub open spec fn skreset_name() -> Seq<u8> {
    seq![0x53, 0x4B, 0x52, 0x45, 0x53, 0x45, 0x54]
}

pub fn skreset_name_bytes() -> (r: Vec<u8>)
    ensures
        r@ == skreset_name(),
{
    let r = vec![0x53u8, 0x4B, 0x52, 0x45, 0x53, 0x45, 0x54];
    assert(r@ =~= skreset_name());
    r
}

/// Resets the module.
#[derive(Clone, Debug)]
pub struct Input {}

impl Encode for Input {
    open spec fn frame(&self) -> PayloadView {
        PayloadView { name: skreset_name(), args: seq![] }
    }

    fn encode(&self) -> (r: Payload) {
        let r = Payload { name: skreset_name_bytes(), args: Vec::new() };
        assert(r@.args =~= seq![]);
        r
    }
}

} // verus!
