use vstd::prelude::*;

use crate::event::side_of;
use crate::payload::SPACE;
use crate::utils::{
    bytes_of_hex, hex_byte_of, hex_u16_of, is_hex_text, lemma_bytes_of_hex_len,
    parse_hex_byte, parse_hex_bytes, parse_hex_u16, starts_with, tail_bytes, DecodeError,
};

verus! {

/// The name of the frame that introduces a descriptor block: `EPANDESC`.
pub open spec fn epandesc_name() -> Seq<u8> {
    seq![0x45, 0x50, 0x41, 0x4E, 0x44, 0x45, 0x53, 0x43]
}

pub fn epandesc_marker() -> (r: Vec<u8>)
    ensures
        r@ == epandesc_name(),
{
    let r = vec![0x45u8, 0x50, 0x41, 0x4E, 0x44, 0x45, 0x53, 0x43];
    assert(r@ =~= epandesc_name());
    r
}

/// The key `Channel:`.
pub open spec fn key_channel() -> Seq<u8> {
    seq![0x43, 0x68, 0x61, 0x6E, 0x6E, 0x65, 0x6C, 0x3A]
}

fn key_channel_bytes() -> (r: Vec<u8>)
    ensures
        r@ == key_channel(),
{
    let r = vec![0x43u8, 0x68, 0x61, 0x6E, 0x6E, 0x65, 0x6C, 0x3A];
    assert(r@ =~= key_channel());
    r
}

/// The key `Channel Page:`.
pub open spec fn key_channel_page() -> Seq<u8> {
    seq![0x43, 0x68, 0x61, 0x6E, 0x6E, 0x65, 0x6C, 0x20, 0x50, 0x61, 0x67, 0x65, 0x3A]
}

fn key_channel_page_bytes() -> (r: Vec<u8>)
    ensures
        r@ == key_channel_page(),
{
    let r = vec![0x43u8, 0x68, 0x61, 0x6E, 0x6E, 0x65, 0x6C, 0x20, 0x50, 0x61, 0x67, 0x65, 0x3A];
    assert(r@ =~= key_channel_page());
    r
}

/// The key `Pan ID:`.
pub open spec fn key_pan_id() -> Seq<u8> {
    seq![0x50, 0x61, 0x6E, 0x20, 0x49, 0x44, 0x3A]
}

fn key_pan_id_bytes() -> (r: Vec<u8>)
    ensures
        r@ == key_pan_id(),
{
    let r = vec![0x50u8, 0x61, 0x6E, 0x20, 0x49, 0x44, 0x3A];
    assert(r@ =~= key_pan_id());
    r
}

/// The key `Addr:`.
pub open spec fn key_addr() -> Seq<u8> {
    seq![0x41, 0x64, 0x64, 0x72, 0x3A]
}

fn key_addr_bytes() -> (r: Vec<u8>)
    ensures
        r@ == key_addr(),
{
    let r = vec![0x41u8, 0x64, 0x64, 0x72, 0x3A];
    assert(r@ =~= key_addr());
    r
}

/// The key `LQI:`.
pub open spec fn key_lqi() -> Seq<u8> {
    seq![0x4C, 0x51, 0x49, 0x3A]
}

fn key_lqi_bytes() -> (r: Vec<u8>)
    ensures
        r@ == key_lqi(),
{
    let r = vec![0x4Cu8, 0x51, 0x49, 0x3A];
    assert(r@ =~= key_lqi());
    r
}

/// The key `Side:`.
pub open spec fn key_side() -> Seq<u8> {
    seq![0x53, 0x69, 0x64, 0x65, 0x3A]
}

fn key_side_bytes() -> (r: Vec<u8>)
    ensures
        r@ == key_side(),
{
    let r = vec![0x53u8, 0x69, 0x64, 0x65, 0x3A];
    assert(r@ =~= key_side());
    r
}

/// The key `PairID:`.
pub open spec fn key_pair_id() -> Seq<u8> {
    seq![0x50, 0x61, 0x69, 0x72, 0x49, 0x44, 0x3A]
}

fn key_pair_id_bytes() -> (r: Vec<u8>)
    ensures
        r@ == key_pair_id(),
{
    let r = vec![0x50u8, 0x61, 0x69, 0x72, 0x49, 0x44, 0x3A];
    assert(r@ =~= key_pair_id());
    r
}

/// A network found by an active scan.
#[derive(Clone, Copy, Debug, PartialEq, Eq)]
pub struct EPanDesc {
    pub channel: u8,
    pub channel_page: u8,
    pub pan_id: u16,
    pub addr: [u8; 8],
    pub lqi: u8,
    pub side: u8,
    pub pair_id: Option<[u8; 4]>,
}

/// A descriptor's fields, the address as a sequence.
pub struct DescView {
    pub channel: u8,
    pub channel_page: u8,
    pub pan_id: u16,
    pub addr: Seq<u8>,
    pub lqi: u8,
    pub side: u8,
    pub pair_id: Option<Seq<u8>>,
}

impl View for EPanDesc {
    type V = DescView;

    open spec fn view(&self) -> DescView {
        DescView {
            channel: self.channel,
            channel_page: self.channel_page,
            pan_id: self.pan_id,
            addr: self.addr@,
            lqi: self.lqi,
            side: self.side,
            pair_id: match self.pair_id {
                Some(a) => Some(a@),
                None => None,
            },
        }
    }
}

/// The descriptor before any field is read.
pub open spec fn empty_desc() -> DescView {
    DescView {
        channel: 0,
        channel_page: 0,
        pan_id: 0,
        addr: seq![0u8, 0u8, 0u8, 0u8, 0u8, 0u8, 0u8, 0u8],
        lqi: 0,
        side: 0,
        pair_id: None,
    }
}

/// The two spaces that open each line of a descriptor block.
pub open spec fn indent() -> Seq<u8> {
    seq![SPACE, SPACE]
}

pub open spec fn has_prefix(s: Seq<u8>, p: Seq<u8>) -> bool {
    p.len() <= s.len() && s.subrange(0, p.len() as int) == p
}

/// What follows the key in a field line.
pub open spec fn after(s: Seq<u8>, p: Seq<u8>) -> Seq<u8> {
    s.subrange(p.len() as int, s.len() as int)
}

/// A descriptor after one field line (its indent removed) is merged into it: `None` where the
/// key is known and its value malformed; a line of another key leaves it unchanged.
pub open spec fn merge_field(d: DescView, f: Seq<u8>) -> Option<DescView> {
    if has_prefix(f, key_channel()) {
        match hex_byte_of(after(f, key_channel())) {
            Some(v) => Some(DescView { channel: v, ..d }),
            None => None,
        }
    } else if has_prefix(f, key_channel_page()) {
        match hex_byte_of(after(f, key_channel_page())) {
            Some(v) => Some(DescView { channel_page: v, ..d }),
            None => None,
        }
    } else if has_prefix(f, key_pan_id()) {
        match hex_u16_of(after(f, key_pan_id())) {
            Some(v) => Some(DescView { pan_id: v, ..d }),
            None => None,
        }
    } else if has_prefix(f, key_addr()) {
        let v = after(f, key_addr());
        if v.len() == 16 && is_hex_text(v) {
            Some(DescView { addr: bytes_of_hex(v), ..d })
        } else {
            None
        }
    } else if has_prefix(f, key_lqi()) {
        match hex_byte_of(after(f, key_lqi())) {
            Some(v) => Some(DescView { lqi: v, ..d }),
            None => None,
        }
    } else if has_prefix(f, key_side()) {
        let v = after(f, key_side());
        if v.len() > 0 {
            Some(DescView { side: side_of(v), ..d })
        } else {
            None
        }
    } else if has_prefix(f, key_pair_id()) {
        let v = after(f, key_pair_id());
        if v.len() == 8 && is_hex_text(v) {
            Some(DescView { pair_id: Some(bytes_of_hex(v)), ..d })
        } else {
            None
        }
    } else {
        Some(d)
    }
}

/// Whether a line belongs to a descriptor block.
pub fn is_indented(line: &[u8]) -> (r: bool)
    ensures
        r == has_prefix(line@, indent()),
{
    let ind = vec![SPACE, SPACE];
    assert(ind@ =~= indent());
    starts_with(line, ind.as_slice())
}

impl EPanDesc {
    pub fn empty() -> (r: EPanDesc)
        ensures
            r@ == empty_desc(),
    {
        let r = EPanDesc {
            channel: 0,
            channel_page: 0,
            pan_id: 0,
            addr: [0u8; 8],
            lqi: 0,
            side: 0,
            pair_id: None,
        };
        assert(r@.addr =~= empty_desc().addr);
        r
    }

    /// Merges one line of a descriptor block into this descriptor; on a malformed value it
    /// is left as it was.
    pub fn merge_line(&mut self, line: &[u8]) -> (r: Result<(), DecodeError>)
        requires
            has_prefix(line@, indent()),
        ensures
            ({
                let f = after(line@, indent());
                match merge_field(old(self)@, f) {
                    Some(d) => r is Ok && final(self)@ == d,
                    None => r is Err && *final(self) == *old(self),
                }
            }),
    {
        let f = tail_bytes(line, 2);
        let fs = f.as_slice();
        let k = key_channel_bytes();
        if starts_with(fs, k.as_slice()) {
            let v = tail_bytes(fs, k.len());
            self.channel = parse_hex_byte(v.as_slice())?;
            return Ok(());
        }
        let k = key_channel_page_bytes();
        if starts_with(fs, k.as_slice()) {
            let v = tail_bytes(fs, k.len());
            self.channel_page = parse_hex_byte(v.as_slice())?;
            return Ok(());
        }
        let k = key_pan_id_bytes();
        if starts_with(fs, k.as_slice()) {
            let v = tail_bytes(fs, k.len());
            self.pan_id = parse_hex_u16(v.as_slice())?;
            return Ok(());
        }
        let k = key_addr_bytes();
        if starts_with(fs, k.as_slice()) {
            let v = tail_bytes(fs, k.len());
            if v.len() != 16 {
                return Err(DecodeError::Shape);
            }
            let b = parse_hex_bytes(v.as_slice())?;
            proof {
                lemma_bytes_of_hex_len(v@);
            }
            let mut addr = [0u8; 8];
            let mut i: usize = 0;
            while i < 8
                invariant
                    i <= 8,
                    b@.len() == 8,
                    forall|j: int| 0 <= j < i ==> addr@[j] == b@[j],
                decreases 8 - i,
            {
                addr[i] = b[i];
                i = i + 1;
            }
            assert(addr@ =~= b@);
            self.addr = addr;
            return Ok(());
        }
        let k = key_lqi_bytes();
        if starts_with(fs, k.as_slice()) {
            let v = tail_bytes(fs, k.len());
            self.lqi = parse_hex_byte(v.as_slice())?;
            return Ok(());
        }
        let k = key_side_bytes();
        if starts_with(fs, k.as_slice()) {
            let v = tail_bytes(fs, k.len());
            if v.len() == 0 {
                return Err(DecodeError::Shape);
            }
            self.side = if v[0] == 0x31 { 1 } else { 0 };
            return Ok(());
        }
        let k = key_pair_id_bytes();
        if starts_with(fs, k.as_slice()) {
            let v = tail_bytes(fs, k.len());
            if v.len() != 8 {
                return Err(DecodeError::Shape);
            }
            let b = parse_hex_bytes(v.as_slice())?;
            proof {
                lemma_bytes_of_hex_len(v@);
            }
            let id = [b[0], b[1], b[2], b[3]];
            assert(id@ =~= b@);
            self.pair_id = Some(id);
            return Ok(());
        }
        Ok(())
    }
}

} // verus!
