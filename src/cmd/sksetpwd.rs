use vstd::prelude::*;

use crate::cmd::Encode;
use crate::payload::{Payload, PayloadView};
use crate::utils::{byte_hex, copy_bytes, itoa};

verus! {

/// The command's name: `SKSETPWD`.
pub open spec fn sksetpwd_name() -> Seq<u8> {
    seq![0x53, 0x4B, 0x53, 0x45, 0x54, 0x50, 0x57, 0x44]
}

pub fn sksetpwd_name_bytes() -> (r: Vec<u8>)
    ensures
        r@ == sksetpwd_name(),
{
    let r = vec![0x53u8, 0x4B, 0x53, 0x45, 0x54, 0x50, 0x57, 0x44];
    assert(r@ =~= sksetpwd_name());
    r
}

/// Sets the password of the route-B service.
#[derive(Clone, Debug)]
pub struct Input {
    pwd: Vec<u8>,
}

impl Input {
    pub fn new(pwd: &[u8]) -> (r: Input)
        ensures
            r.password() == pwd@,
    {
        Input { pwd: copy_bytes(pwd) }
    }

    pub closed spec fn password(&self) -> Seq<u8> {
        self.pwd@
    }
}

impl Encode for Input {
    /// The password's length as two hex digits (modulo 256), then the password.
    open spec fn frame(&self) -> PayloadView {
        PayloadView {
            name: sksetpwd_name(),
            args: seq![byte_hex((self.password().len() % 256) as u8), self.password()],
        }
    }

    fn encode(&self) -> (r: Payload) {
        let n = (self.pwd.len() % 256) as u8;
        let d = itoa(n);
        let a0 = vec![d[0], d[1]];
        assert(a0@ =~= byte_hex(n));
        let args = vec![a0, copy_bytes(self.pwd.as_slice())];
        let r = Payload { name: sksetpwd_name_bytes(), args };
        assert(r@.args =~= self.frame().args);
        r
    }
}

} // verus!
