use vstd::prelude::*;

use crate::cmd::{Decode, Encode, Response};
use crate::payload::{Payload, PayloadView};
use crate::utils::DecodeError;

verus! {

/// The command's name: `SKVER`.
pub open spec fn skver_name() -> Seq<u8> {
    seq![0x53, 0x4B, 0x56, 0x45, 0x52]
}

pub fn skver_name_bytes() -> (r: Vec<u8>)
    ensures
        r@ == skver_name(),
{
    let r = vec![0x53u8, 0x4B, 0x56, 0x45, 0x52];
    assert(r@ =~= skver_name());
    r
}

/// The reply's name: `EVER`.
pub open spec fn ever_name() -> Seq<u8> {
    seq![0x45, 0x56, 0x45, 0x52]
}

pub fn ever_name_bytes() -> (r: Vec<u8>)
    ensures
        r@ == ever_name(),
{
    let r = vec![0x45u8, 0x56, 0x45, 0x52];
    assert(r@ =~= ever_name());
    r
}

/// Asks for the firmware version.
#[derive(Clone, Debug)]
pub struct Input {}

impl Encode for Input {
    open spec fn frame(&self) -> PayloadView {
        PayloadView { name: skver_name(), args: seq![] }
    }

    fn encode(&self) -> (r: Payload) {
        let r = Payload { name: skver_name_bytes(), args: Vec::new() };
        assert(r@.args =~= seq![]);
        r
    }
}

/// The text that `String::from_utf8_lossy` makes of bytes.
pub uninterp spec fn utf8_lossy(b: Seq<u8>) -> Seq<char>;

/// Relies on `String::from_utf8_lossy`: the text of the bytes, each invalid sequence replaced;
/// it depends on the bytes alone.
#[verifier::external_body]
fn text_of(b: &[u8]) -> (r: String)
    ensures
        r@ == utf8_lossy(b@),
{
    String::from_utf8_lossy(b).to_string()
}

/// The firmware version.
#[derive(Clone, Debug)]
pub struct Output {
    pub version: String,
}

impl Decode for Output {
    open spec fn accepts(p: PayloadView) -> bool {
        p.name == ever_name() && p.args.len() >= 1
    }

    open spec fn decodes(p: PayloadView, out: Self) -> bool {
        out.version@ == utf8_lossy(p.args[0])
    }

    fn decode(payload: &Payload) -> (r: Result<Self, DecodeError>) {
        let tag = ever_name_bytes();
        if !crate::utils::bytes_eq(payload.name.as_slice(), tag.as_slice()) {
            return Err(DecodeError::Name);
        }
        if payload.args.len() < 1 {
            return Err(DecodeError::Shape);
        }
        assert(payload@.args[0] == payload.args@[0]@);
        Ok(Output { version: text_of(payload.args[0].as_slice()) })
    }
}

impl Response for Output {
    open spec fn tag() -> Seq<u8> {
        ever_name()
    }

    fn name() -> (r: Vec<u8>) {
        ever_name_bytes()
    }
}

} // verus!
