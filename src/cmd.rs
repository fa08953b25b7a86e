use vstd::prelude::*;

use crate::payload::{Payload, PayloadView};
use crate::utils::DecodeError;

pub mod skinfo;
pub mod skjoin;
pub mod skll64;
pub mod skreset;
pub mod skscan;
pub mod sksetpwd;
pub mod sksetrbid;
pub mod sksreg;
pub mod skver;

verus! {

/// A command's input: it encodes itself as exactly one frame, from its fields alone.
pub trait Encode {
    /// The frame that this input is sent as.
    spec fn frame(&self) -> PayloadView;

    fn encode(&self) -> (r: Payload)
        ensures
            r@ == self.frame(),
    ;
}

/// A reply read from one frame.
pub trait Decode: Sized {
    /// Whether a frame has the shape of this reply.
    spec fn accepts(p: PayloadView) -> bool;

    /// Whether `out` is the reply that the frame holds.
    spec fn decodes(p: PayloadView, out: Self) -> bool;

    fn decode(payload: &Payload) -> (r: Result<Self, DecodeError>)
        ensures
            r is Ok <==> Self::accepts(payload@),
            r is Ok ==> Self::decodes(payload@, r->Ok_0),
    ;
}

/// A reply that comes as a frame of a fixed name.
pub trait Response: Decode {
    /// The name of the reply's frame.
    spec fn tag() -> Seq<u8>;

    fn name() -> (r: Vec<u8>)
        ensures
            r@ == Self::tag(),
    ;
}

} // verus!
