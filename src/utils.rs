use byteorder::{BigEndian, ByteOrder};
use vstd::prelude::*;

verus! {

/// An uppercase hexadecimal digit: `0`-`9` or `A`-`F`.
pub open spec fn is_hex_digit(b: u8) -> bool {
    (0x30 <= b <= 0x39) || (0x41 <= b <= 0x46)
}

/// The value of a hexadecimal digit.
pub open spec fn digit_value(b: u8) -> u8
    recommends
        is_hex_digit(b),
{
    if b <= 0x39 {
        (b - 0x30) as u8
    } else {
        (b - 0x37) as u8
    }
}

/// The uppercase digit for a nibble.
pub open spec fn hex_digit(v: u8) -> u8
    recommends
        v < 16,
{
    if v <= 9 {
        (v + 0x30) as u8
    } else {
        (v + 0x37) as u8
    }
}

/// The two digits that encode one byte, high nibble first.
pub open spec fn byte_hex(b: u8) -> Seq<u8> {
    seq![hex_digit(b / 16), hex_digit(b % 16)]
}

/// Hex-ASCII text of a byte string: two uppercase digits per byte.
pub open spec fn hex_of(b: Seq<u8>) -> Seq<u8>
    decreases b.len(),
{
    if b.len() == 0 {
        seq![]
    } else {
        hex_of(b.drop_last()) + byte_hex(b.last())
    }
}

/// Text that decodes: an even number of uppercase hexadecimal digits.
pub open spec fn is_hex_text(h: Seq<u8>) -> bool {
    &&& h.len() % 2 == 0
    &&& forall|i: int| 0 <= i < h.len() ==> is_hex_digit(#[trigger] h[i])
}

/// The byte that two digits encode.
pub open spec fn pair_value(hi: u8, lo: u8) -> u8 {
    (digit_value(hi) * 16 + digit_value(lo)) as u8
}

/// The bytes that hex-ASCII text encodes, one for each pair of digits.
pub open spec fn bytes_of_hex(h: Seq<u8>) -> Seq<u8>
    decreases h.len(),
{
    if h.len() < 2 {
        seq![]
    } else {
        bytes_of_hex(h.subrange(0, h.len() - 2)).push(pair_value(h[h.len() - 2], h[h.len() - 1]))
    }
}

pub proof fn lemma_hex_of_len(b: Seq<u8>)
    ensures
        hex_of(b).len() == 2 * b.len(),
    decreases b.len(),
{
    if b.len() > 0 {
        lemma_hex_of_len(b.drop_last());
    }
}

proof fn lemma_byte_hex(b: u8)
    ensures
        is_hex_digit(byte_hex(b)[0]),
        is_hex_digit(byte_hex(b)[1]),
        pair_value(byte_hex(b)[0], byte_hex(b)[1]) == b,
{
}

/// Hex round trip: the text of any byte string is well formed and decodes back to it.
pub proof fn lemma_hex_round_trip(b: Seq<u8>)
    ensures
        is_hex_text(hex_of(b)),
        bytes_of_hex(hex_of(b)) == b,
    decreases b.len(),
{
    lemma_hex_of_len(b);
    if b.len() > 0 {
        let p = b.drop_last();
        lemma_hex_round_trip(p);
        lemma_hex_of_len(p);
        lemma_byte_hex(b.last());
        let h = hex_of(b);
        assert(h.subrange(0, h.len() - 2) =~= hex_of(p));
        assert forall|i: int| 0 <= i < h.len() implies is_hex_digit(#[trigger] h[i]) by {
            if i < h.len() - 2 {
                assert(h[i] == hex_of(p)[i]);
            }
        }
        assert(b =~= p.push(b.last()));
    }
}

/// The value of one hexadecimal digit, or `None` for any other byte.
pub fn atoi(b: u8) -> (r: Option<u8>)
    ensures
        r == (if is_hex_digit(b) { Some(digit_value(b)) } else { None::<u8> }),
{
    if 0x30 <= b && b <= 0x39 {
        Some(b - 0x30)
    } else if 0x41 <= b && b <= 0x46 {
        Some(b - 0x37)
    } else {
        None
    }
}

/// The two uppercase digits of a byte, high nibble first.
pub fn itoa(i: u8) -> (r: [u8; 2])
    ensures
        r@ == byte_hex(i),
{
    let left = i / 16;
    let right = i % 16;
    let a = if left <= 9 { left + 0x30 } else { left + 0x37 };
    let b = if right <= 9 { right + 0x30 } else { right + 0x37 };
    let r = [a, b];
    assert(r@ =~= byte_hex(i));
    r
}

/// Errors of decoding text that should hold a value.
#[derive(Clone, Copy, Debug, PartialEq, Eq)]
pub enum DecodeError {
    /// Hex text of odd length, or with a byte that is not an uppercase digit.
    Hex,
    /// A field of the wrong length, or one that is missing.
    Shape,
    /// A frame of another name than the one the decoder reads.
    Name,
    /// A code outside the known set.
    Code,
}

/// Decodes hex-ASCII text; it is rejected unless it is an even number of uppercase digits.
pub fn parse_hex_bytes(src: &[u8]) -> (r: Result<Vec<u8>, DecodeError>)
    ensures
        r is Ok <==> is_hex_text(src@),
        r is Ok ==> r->Ok_0@ == bytes_of_hex(src@),
        r is Err ==> r->Err_0 == DecodeError::Hex,
{
    if src.len() % 2 != 0 {
        return Err(DecodeError::Hex);
    }
    let mut out: Vec<u8> = Vec::new();
    let mut i: usize = 0;
    while i < src.len()
        invariant
            i % 2 == 0,
            i <= src.len(),
            src.len() % 2 == 0,
            forall|j: int| 0 <= j < i ==> is_hex_digit(#[trigger] src@[j]),
            out@ == bytes_of_hex(src@.subrange(0, i as int)),
        decreases src.len() - i,
    {
        let hi = atoi(src[i]);
        let lo = atoi(src[i + 1]);
        match (hi, lo) {
            (Some(h), Some(l)) => {
                out.push(h * 16 + l);
                proof {
                    let s = src@.subrange(0, i + 2);
                    assert(s.subrange(0, s.len() - 2) =~= src@.subrange(0, i as int));
                }
                i = i + 2;
            },
            _ => {
                assert(!is_hex_text(src@)) by {
                    if hi is None {
                        assert(!is_hex_digit(src@[i as int]));
                    } else {
                        assert(!is_hex_digit(src@[i + 1]));
                    }
                }
                return Err(DecodeError::Hex);
            },
        }
    }
    assert(src@.subrange(0, i as int) =~= src@);
    Ok(out)
}

/// Encodes bytes as uppercase hex-ASCII text.
pub fn to_hex_bytes(src: &[u8]) -> (r: Vec<u8>)
    ensures
        r@ == hex_of(src@),
{
    let mut out: Vec<u8> = Vec::new();
    let mut i: usize = 0;
    while i < src.len()
        invariant
            i <= src.len(),
            out@ == hex_of(src@.subrange(0, i as int)),
        decreases src.len() - i,
    {
        let d = itoa(src[i]);
        out.push(d[0]);
        out.push(d[1]);
        proof {
            let s = src@.subrange(0, i + 1);
            assert(s.drop_last() =~= src@.subrange(0, i as int));
            assert(out@ =~= hex_of(s));
        }
        i = i + 1;
    }
    assert(src@.subrange(0, i as int) =~= src@);
    out
}

/// The two bytes of a 16-bit value, most significant first.
pub open spec fn be16(v: u16) -> Seq<u8> {
    seq![(v / 0x100) as u8, (v % 0x100) as u8]
}

/// The four bytes of a 32-bit value, most significant first.
pub open spec fn be32(v: u32) -> Seq<u8> {
    seq![(v / 0x100_0000) as u8, ((v / 0x1_0000) % 0x100) as u8, ((v / 0x100) % 0x100) as u8, (v % 0x100) as u8]
}

/// The 16-bit value of two bytes, most significant first.
pub open spec fn value16(b: Seq<u8>) -> u16 {
    (b[0] * 0x100 + b[1]) as u16
}

/// The 32-bit value of four bytes, most significant first.
pub open spec fn value32(b: Seq<u8>) -> u32 {
    (b[0] * 0x100_0000 + b[1] * 0x1_0000 + b[2] * 0x100 + b[3]) as u32
}

/// Relies on byteorder's `BigEndian::write_u16`: it stores `n` in two bytes, most significant first.
#[verifier::external_body]
fn write_be16(n: u16) -> (r: [u8; 2])
    ensures
        r@ == be16(n),
{
    let mut buf = [0u8; 2];
    BigEndian::write_u16(&mut buf, n);
    buf
}

/// Relies on byteorder's `BigEndian::write_u32`: it stores `n` in four bytes, most significant first.
#[verifier::external_body]
fn write_be32(n: u32) -> (r: [u8; 4])
    ensures
        r@ == be32(n),
{
    let mut buf = [0u8; 4];
    BigEndian::write_u32(&mut buf, n);
    buf
}

/// Relies on byteorder's `BigEndian::read_u16`: the value of the first two bytes, most
/// significant first; it panics on a shorter slice.
#[verifier::external_body]
pub(crate) fn read_be16(b: &[u8]) -> (r: u16)
    requires
        b@.len() >= 2,
    ensures
        r == value16(b@),
{
    BigEndian::read_u16(b)
}

/// Relies on byteorder's `BigEndian::read_u32`: the value of the first four bytes, most
/// significant first; it panics on a shorter slice.
#[verifier::external_body]
pub(crate) fn read_be32(b: &[u8]) -> (r: u32)
    requires
        b@.len() >= 4,
    ensures
        r == value32(b@),
{
    BigEndian::read_u32(b)
}

/// Hex text of a 16-bit value in network byte order: four uppercase digits.
pub fn u16_to_hex_bytes(u: u16) -> (r: Vec<u8>)
    ensures
        r@ == hex_of(be16(u)),
        r@.len() == 4,
{
    let src = write_be16(u);
    proof {
        lemma_hex_of_len(be16(u));
    }
    to_hex_bytes(&src)
}

/// Hex text of a 32-bit value in network byte order: eight uppercase digits.
pub fn u32_to_hex_bytes(u: u32) -> (r: Vec<u8>)
    ensures
        r@ == hex_of(be32(u)),
        r@.len() == 8,
{
    let src = write_be32(u);
    proof {
        lemma_hex_of_len(be32(u));
    }
    to_hex_bytes(&src)
}

/// A copy of a byte string.
pub fn copy_bytes(src: &[u8]) -> (r: Vec<u8>)
    ensures
        r@ == src@,
{
    let mut out: Vec<u8> = Vec::new();
    let mut i: usize = 0;
    while i < src.len()
        invariant
            i <= src.len(),
            out@ == src@.subrange(0, i as int),
        decreases src.len() - i,
    {
        out.push(src[i]);
        proof {
            assert(out@ =~= src@.subrange(0, i + 1));
        }
        i = i + 1;
    }
    assert(out@ =~= src@);
    out
}

/// Appends a byte string to `out`.
pub fn push_bytes(out: &mut Vec<u8>, src: &[u8])
    ensures
        final(out)@ == old(out)@ + src@,
{
    let mut i: usize = 0;
    while i < src.len()
        invariant
            i <= src.len(),
            out@ == old(out)@ + src@.subrange(0, i as int),
        decreases src.len() - i,
    {
        out.push(src[i]);
        proof {
            assert(out@ =~= old(out)@ + src@.subrange(0, i + 1));
        }
        i = i + 1;
    }
    assert(src@.subrange(0, i as int) =~= src@);
}

/// Whether two byte strings are equal.
pub fn bytes_eq(a: &[u8], b: &[u8]) -> (r: bool)
    ensures
        r == (a@ == b@),
{
    if a.len() != b.len() {
        return false;
    }
    let mut i: usize = 0;
    while i < a.len()
        invariant
            i <= a.len(),
            a.len() == b.len(),
            forall|j: int| 0 <= j < i ==> a@[j] == b@[j],
        decreases a.len() - i,
    {
        if a[i] != b[i] {
            return false;
        }
        i = i + 1;
    }
    assert(a@ =~= b@);
    true
}

/// Whether `a` begins with `p`.
pub fn starts_with(a: &[u8], p: &[u8]) -> (r: bool)
    ensures
        r == (p@.len() <= a@.len() && a@.subrange(0, p@.len() as int) == p@),
{
    if a.len() < p.len() {
        return false;
    }
    let mut i: usize = 0;
    while i < p.len()
        invariant
            i <= p.len(),
            p.len() <= a.len(),
            forall|j: int| 0 <= j < i ==> a@[j] == p@[j],
        decreases p.len() - i,
    {
        if a[i] != p[i] {
            assert(a@.subrange(0, p@.len() as int)[i as int] != p@[i as int]);
            return false;
        }
        i = i + 1;
    }
    assert(a@.subrange(0, p@.len() as int) =~= p@);
    true
}

/// The bytes of `a` from index `n` on.
pub fn tail_bytes(a: &[u8], n: usize) -> (r: Vec<u8>)
    requires
        n <= a@.len(),
    ensures
        r@ == a@.subrange(n as int, a@.len() as int),
{
    let mut out: Vec<u8> = Vec::new();
    let mut i: usize = n;
    while i < a.len()
        invariant
            n <= i <= a.len(),
            out@ == a@.subrange(n as int, i as int),
        decreases a.len() - i,
    {
        out.push(a[i]);
        proof {
            assert(out@ =~= a@.subrange(n as int, i + 1));
        }
        i = i + 1;
    }
    out
}

/// The byte that exactly two hex digits encode.
pub open spec fn hex_byte_of(v: Seq<u8>) -> Option<u8> {
    if v.len() == 2 && is_hex_text(v) {
        Some(bytes_of_hex(v)[0])
    } else {
        None
    }
}

/// The 16-bit value that exactly four hex digits encode, most significant first.
pub open spec fn hex_u16_of(v: Seq<u8>) -> Option<u16> {
    if v.len() == 4 && is_hex_text(v) {
        Some(value16(bytes_of_hex(v)))
    } else {
        None
    }
}

/// The 32-bit value that exactly eight hex digits encode, most significant first.
pub open spec fn hex_u32_of(v: Seq<u8>) -> Option<u32> {
    if v.len() == 8 && is_hex_text(v) {
        Some(value32(bytes_of_hex(v)))
    } else {
        None
    }
}

pub proof fn lemma_bytes_of_hex_len(h: Seq<u8>)
    ensures
        bytes_of_hex(h).len() == h.len() / 2,
    decreases h.len(),
{
    if h.len() >= 2 {
        lemma_bytes_of_hex_len(h.subrange(0, h.len() - 2));
    }
}

/// Decodes exactly two hex digits.
pub fn parse_hex_byte(v: &[u8]) -> (r: Result<u8, DecodeError>)
    ensures
        r is Ok <==> hex_byte_of(v@) is Some,
        r is Ok ==> r->Ok_0 == hex_byte_of(v@)->Some_0,
        r is Err ==> r->Err_0 == (if v@.len() == 2 { DecodeError::Hex } else { DecodeError::Shape }),
{
    if v.len() != 2 {
        return Err(DecodeError::Shape);
    }
    match parse_hex_bytes(v) {
        Ok(b) => {
            proof {
                lemma_bytes_of_hex_len(v@);
            }
            Ok(b[0])
        },
        Err(e) => Err(e),
    }
}

/// Decodes exactly four hex digits as a 16-bit value in network byte order.
pub fn parse_hex_u16(v: &[u8]) -> (r: Result<u16, DecodeError>)
    ensures
        r is Ok <==> hex_u16_of(v@) is Some,
        r is Ok ==> r->Ok_0 == hex_u16_of(v@)->Some_0,
        r is Err ==> r->Err_0 == (if v@.len() == 4 { DecodeError::Hex } else { DecodeError::Shape }),
{
    if v.len() != 4 {
        return Err(DecodeError::Shape);
    }
    match parse_hex_bytes(v) {
        Ok(b) => {
            proof {
                lemma_bytes_of_hex_len(v@);
            }
            Ok(read_be16(b.as_slice()))
        },
        Err(e) => Err(e),
    }
}

/// Decodes exactly eight hex digits as a 32-bit value in network byte order.
pub fn parse_hex_u32(v: &[u8]) -> (r: Result<u32, DecodeError>)
    ensures
        r is Ok <==> hex_u32_of(v@) is Some,
        r is Ok ==> r->Ok_0 == hex_u32_of(v@)->Some_0,
        r is Err ==> r->Err_0 == (if v@.len() == 8 { DecodeError::Hex } else { DecodeError::Shape }),
{
    if v.len() != 8 {
        return Err(DecodeError::Shape);
    }
    match parse_hex_bytes(v) {
        Ok(b) => {
            proof {
                lemma_bytes_of_hex_len(v@);
            }
            Ok(read_be32(b.as_slice()))
        },
        Err(e) => Err(e),
    }
}

/// The first `n` bytes of `a`.
pub fn head_bytes(a: &[u8], n: usize) -> (r: Vec<u8>)
    requires
        n <= a@.len(),
    ensures
        r@ == a@.subrange(0, n as int),
{
    let mut out: Vec<u8> = Vec::new();
    let mut i: usize = 0;
    while i < n
        invariant
            i <= n,
            n <= a@.len(),
            out@ == a@.subrange(0, i as int),
        decreases n - i,
    {
        out.push(a[i]);
        proof {
            assert(out@ =~= a@.subrange(0, i + 1));
        }
        i = i + 1;
    }
    out
}

} // verus!
