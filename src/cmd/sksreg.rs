use vstd::prelude::*;

use crate::cmd::{Decode, Encode, Response};
use crate::payload::{Payload, PayloadView};
use crate::utils::{
    be16, be32, byte_hex, bytes_eq, hex_byte_of, hex_of, hex_u16_of, hex_u32_of, itoa, lemma_hex_of_len, lemma_hex_round_trip, parse_hex_byte, parse_hex_u16,
    parse_hex_u32, u16_to_hex_bytes, u32_to_hex_bytes, value16, value32, DecodeError,
};

verus! {

/// The command's name: `SKSREG`.
pub open spec fn sksreg_name() -> Seq<u8> {
    seq![0x53, 0x4B, 0x53, 0x52, 0x45, 0x47]
}

pub fn sksreg_name_bytes() -> (r: Vec<u8>)
    ensures
        r@ == sksreg_name(),
{
    let r = vec![0x53u8, 0x4B, 0x53, 0x52, 0x45, 0x47];
    assert(r@ =~= sksreg_name());
    r
}

/// The reply's name: `ESREG`.
pub open spec fn esreg_name() -> Seq<u8> {
    seq![0x45, 0x53, 0x52, 0x45, 0x47]
}

pub fn esreg_name_bytes() -> (r: Vec<u8>)
    ensures
        r@ == esreg_name(),
{
    let r = vec![0x45u8, 0x53, 0x52, 0x45, 0x47];
    assert(r@ =~= esreg_name());
    r
}

/// A register of the module, named by its one-byte code.
#[derive(Clone, Copy, Debug, PartialEq, Eq, Structural)]
pub enum Register {
    /// The logical channel the module uses.
    S02,
    /// The module's PAN ID.
    S03,
    S07,
    S0A,
    S0B,
    S15,
    S16,
    S17,
    S1C,
    SA1,
    SA2,
    SA9,
    SF0,
    SFB,
    SFD,
    /// Echo-back: 1 echoes each command line, 0 does not.
    SFE,
    SFF,
}

pub open spec fn register_code(r: Register) -> u8 {
    match r {
        Register::S02 => 0x02,
        Register::S03 => 0x03,
        Register::S07 => 0x07,
        Register::S0A => 0x0A,
        Register::S0B => 0x0B,
        Register::S15 => 0x15,
        Register::S16 => 0x16,
        Register::S17 => 0x17,
        Register::S1C => 0x1C,
        Register::SA1 => 0xA1,
        Register::SA2 => 0xA2,
        Register::SA9 => 0xA9,
        Register::SF0 => 0xF0,
        Register::SFB => 0xFB,
        Register::SFD => 0xFD,
        Register::SFE => 0xFE,
        Register::SFF => 0xFF,
    }
}

impl Register {
    pub fn code(&self) -> (r: u8)
        ensures
            r == register_code(*self),
    {
        match self {
            Register::S02 => 0x02,
            Register::S03 => 0x03,
            Register::S07 => 0x07,
            Register::S0A => 0x0A,
            Register::S0B => 0x0B,
            Register::S15 => 0x15,
            Register::S16 => 0x16,
            Register::S17 => 0x17,
            Register::S1C => 0x1C,
            Register::SA1 => 0xA1,
            Register::SA2 => 0xA2,
            Register::SA9 => 0xA9,
            Register::SF0 => 0xF0,
            Register::SFB => 0xFB,
            Register::SFD => 0xFD,
            Register::SFE => 0xFE,
            Register::SFF => 0xFF,
        }
    }
}

/// A register value; its width on the wire follows from the length of its text.
#[derive(Clone, Copy, Debug, PartialEq, Eq, Structural)]
pub enum Value {
    Bool(bool),
    Uint8(u8),
    Uint16(u16),
    Uint32(u32),
}

/// The text of a value: one digit for a flag, else two, four or eight uppercase hex digits,
/// most significant first.
pub open spec fn value_text(v: Value) -> Seq<u8> {
    match v {
        Value::Bool(b) => if b {
            seq![0x31u8]
        } else {
            seq![0x30u8]
        },
        Value::Uint8(u) => byte_hex(u),
        Value::Uint16(u) => hex_of(be16(u)),
        Value::Uint32(u) => hex_of(be32(u)),
    }
}

/// The value that a text holds; its length gives the width.
pub open spec fn value_of_text(t: Seq<u8>) -> Option<Value> {
    if t == seq![0x31u8] {
        Some(Value::Bool(true))
    } else if t == seq![0x30u8] {
        Some(Value::Bool(false))
    } else if t.len() == 2 {
        match hex_byte_of(t) {
            Some(u) => Some(Value::Uint8(u)),
            None => None,
        }
    } else if t.len() == 4 {
        match hex_u16_of(t) {
            Some(u) => Some(Value::Uint16(u)),
            None => None,
        }
    } else if t.len() == 8 {
        match hex_u32_of(t) {
            Some(u) => Some(Value::Uint32(u)),
            None => None,
        }
    } else {
        None
    }
}

proof fn lemma_be16(u: u16)
    ensures
        value16(be16(u)) == u,
{
}

proof fn lemma_be32(u: u32)
    ensures
        value32(be32(u)) == u,
{
    let b = be32(u);
    assert(b[0] * 0x100_0000 + b[1] * 0x1_0000 + b[2] * 0x100 + b[3] == u) by (nonlinear_arith)
        requires
            b[0] == u / 0x100_0000,
            b[1] == (u / 0x1_0000) % 0x100,
            b[2] == (u / 0x100) % 0x100,
            b[3] == u % 0x100,
            u < 0x1_0000_0000,
    {
    }
}

/// Register value round trip: the text of any value is read back as that same value, of
/// the same width.
pub proof fn lemma_value_round_trip(v: Value)
    ensures
        value_of_text(value_text(v)) == Some(v),
{
    match v {
        Value::Bool(b) => {
            assert(seq![0x30u8][0] != seq![0x31u8][0]);
        },
        Value::Uint8(u) => {
            lemma_hex_round_trip(seq![u]);
            let one = seq![u];
            assert(one.drop_last() =~= Seq::<u8>::empty());
            assert(one.last() == u);
            assert(hex_of(Seq::<u8>::empty()) == Seq::<u8>::empty());
            assert(hex_of(one) == hex_of(one.drop_last()) + byte_hex(one.last()));
            assert(hex_of(one) =~= byte_hex(u));
            let t = byte_hex(u);
            assert(t.len() == 2);
            assert(t != seq![0x31u8] && t != seq![0x30u8]);
        },
        Value::Uint16(u) => {
            lemma_hex_round_trip(be16(u));
            lemma_hex_of_len(be16(u));
            lemma_be16(u);
            let t = value_text(v);
            assert(t.len() == 4);
            assert(t != seq![0x31u8] && t != seq![0x30u8]);
        },
        Value::Uint32(u) => {
            lemma_hex_round_trip(be32(u));
            lemma_hex_of_len(be32(u));
            lemma_be32(u);
            let t = value_text(v);
            assert(t.len() == 8);
            assert(t != seq![0x31u8] && t != seq![0x30u8]);
        },
    }
}

impl Value {
    /// The text of this value.
    pub fn encode(&self) -> (r: Vec<u8>)
        ensures
            r@ == value_text(*self),
    {
        match self {
            Value::Bool(b) => {
                let r = if *b { vec![0x31u8] } else { vec![0x30u8] };
                assert(r@ =~= value_text(*self));
                r
            },
            Value::Uint8(u) => {
                let d = itoa(*u);
                let r = vec![d[0], d[1]];
                assert(r@ =~= value_text(*self));
                r
            },
            Value::Uint16(u) => u16_to_hex_bytes(*u),
            Value::Uint32(u) => u32_to_hex_bytes(*u),
        }
    }

    /// Reads a value from its text; a length other than 1, 2, 4 or 8, a flag other than
    /// `0` or `1`, or a byte that is no hex digit is an error.
    pub fn decode(t: &[u8]) -> (r: Result<Value, DecodeError>)
        ensures
            r is Ok <==> value_of_text(t@) is Some,
            r is Ok ==> r->Ok_0 == value_of_text(t@)->Some_0,
            r is Err ==> r->Err_0 == (if t@.len() == 2 || t@.len() == 4 || t@.len() == 8 {
                DecodeError::Hex
            } else {
                DecodeError::Shape
            }),
    {
        if t.len() == 1 {
            if t[0] == 0x31 {
                assert(t@ =~= seq![0x31u8]);
                return Ok(Value::Bool(true));
            }
            if t[0] == 0x30 {
                assert(t@ =~= seq![0x30u8]);
                return Ok(Value::Bool(false));
            }
            assert(t@ != seq![0x31u8]);
            assert(t@ != seq![0x30u8]);
            return Err(DecodeError::Shape);
        }
        assert(t@ != seq![0x31u8] && t@ != seq![0x30u8]);
        if t.len() == 2 {
            Ok(Value::Uint8(parse_hex_byte(t)?))
        } else if t.len() == 4 {
            Ok(Value::Uint16(parse_hex_u16(t)?))
        } else if t.len() == 8 {
            Ok(Value::Uint32(parse_hex_u32(t)?))
        } else {
            Err(DecodeError::Shape)
        }
    }
}

/// Reads a register, or writes it where a value is given.
#[derive(Clone, Debug)]
pub struct Input {
    pub register: Register,
    pub value: Option<Value>,
}

/// The register's argument: `S` and its code in two hex digits.
pub open spec fn register_arg(r: Register) -> Seq<u8> {
    seq![0x53u8] + byte_hex(register_code(r))
}

impl Encode for Input {
    open spec fn frame(&self) -> PayloadView {
        PayloadView {
            name: sksreg_name(),
            args: match self.value {
                Some(v) => seq![register_arg(self.register), value_text(v)],
                None => seq![register_arg(self.register)],
            },
        }
    }

    fn encode(&self) -> (r: Payload) {
        let d = itoa(self.register.code());
        let reg = vec![0x53u8, d[0], d[1]];
        assert(reg@ =~= register_arg(self.register));
        let mut args: Vec<Vec<u8>> = Vec::new();
        args.push(reg);
        match &self.value {
            Some(v) => {
                args.push(v.encode());
            },
            None => {},
        }
        let r = Payload { name: sksreg_name_bytes(), args };
        assert(r@.args =~= self.frame().args);
        r
    }
}

/// A register's value, as the module reports it.
#[derive(Clone, Debug)]
pub struct Output {
    pub value: Value,
}

impl Decode for Output {
    open spec fn accepts(p: PayloadView) -> bool {
        p.name == esreg_name() && p.args.len() >= 1 && value_of_text(p.args[0]) is Some
    }

    open spec fn decodes(p: PayloadView, out: Self) -> bool {
        Some(out.value) == value_of_text(p.args[0])
    }

    fn decode(payload: &Payload) -> (r: Result<Self, DecodeError>) {
        let tag = esreg_name_bytes();
        if !bytes_eq(payload.name.as_slice(), tag.as_slice()) {
            return Err(DecodeError::Name);
        }
        if payload.args.len() < 1 {
            return Err(DecodeError::Shape);
        }
        assert(payload@.args[0] == payload.args@[0]@);
        let value = Value::decode(payload.args[0].as_slice())?;
        Ok(Output { value })
    }
}

impl Response for Output {
    open spec fn tag() -> Seq<u8> {
        esreg_name()
    }

    fn name() -> (r: Vec<u8>) {
        esreg_name_bytes()
    }
}

} // verus!
