use vstd::prelude::*;

use crate::cmd::Encode;
use crate::payload::{Payload, PayloadView};
use crate::utils::{be32, byte_hex, hex_digit, hex_of, itoa, u32_to_hex_bytes};

verus! {

/// The command's name: `SKSCAN`.
pub open spec fn skscan_name() -> Seq<u8> {
    seq![0x53, 0x4B, 0x53, 0x43, 0x41, 0x4E]
}

pub fn skscan_name_bytes() -> (r: Vec<u8>)
    ensures
        r@ == skscan_name(),
{
    let r = vec![0x53u8, 0x4B, 0x53, 0x43, 0x41, 0x4E];
    assert(r@ =~= skscan_name());
    r
}

/// The kind of scan.
#[derive(Clone, Copy, Debug, PartialEq, Eq, Structural)]
pub enum Mode {
    /// Energy detection.
    ED,
    /// Active scan, with information elements.
    Active,
    /// Active scan, without information elements.
    ActiveWithoutIE,
}

pub open spec fn mode_code(m: Mode) -> u8 {
    match m {
        Mode::ED => 0,
        Mode::Active => 2,
        Mode::ActiveWithoutIE => 3,
    }
}

impl Mode {
    pub fn code(&self) -> (r: u8)
        ensures
            r == mode_code(*self),
    {
        match self {
            Mode::ED => 0,
            Mode::Active => 2,
            Mode::ActiveWithoutIE => 3,
        }
    }
}

/// Starts a scan of the channels in the mask.
#[derive(Clone, Debug)]
pub struct Input {
    pub mode: Mode,
    pub channel_mask: u32,
    pub duration: u8,
    pub side: u8,
}

impl Input {
    /// An active scan, with information elements or without.
    pub fn active(ie: bool, channel_mask: u32, duration: u8, side: u8) -> (r: Input)
        ensures
            r.mode == (if ie { Mode::Active } else { Mode::ActiveWithoutIE }),
            r.channel_mask == channel_mask,
            r.duration == duration,
            r.side == side,
    {
        Input {
            mode: if ie {
                Mode::Active
            } else {
                Mode::ActiveWithoutIE
            },
            channel_mask,
            duration,
            side,
        }
    }
}

impl Encode for Input {
    /// The mode and the side as one hex digit each (the low one), the mask as eight, the
    /// duration as two.
    open spec fn frame(&self) -> PayloadView {
        PayloadView {
            name: skscan_name(),
            args: seq![
                seq![hex_digit(mode_code(self.mode) % 16)],
                hex_of(be32(self.channel_mask)),
                byte_hex(self.duration),
                seq![hex_digit(self.side % 16)],
            ],
        }
    }

    fn encode(&self) -> (r: Payload) {
        let m = itoa(self.mode.code());
        let d = itoa(self.duration);
        let s = itoa(self.side);
        let a0 = vec![m[1]];
        let a2 = vec![d[0], d[1]];
        let a3 = vec![s[1]];
        assert(a2@ =~= byte_hex(self.duration));
        let args = vec![a0, u32_to_hex_bytes(self.channel_mask), a2, a3];
        let r = Payload { name: skscan_name_bytes(), args };
        assert(r@.args[0] =~= self.frame().args[0]);
        assert(r@.args[3] =~= self.frame().args[3]);
        assert(r@.args =~= self.frame().args);
        r
    }
}

} // verus!
