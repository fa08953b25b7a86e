use vstd::prelude::*;

use crate::cmd::Encode;
use crate::event::{
    address_of, double_colon_from, group_val, groups_of,
    is_address_text, is_group, lemma_split_colons_nonempty, split_colons, Ipv6Address, COLON,
};
use crate::payload::{Payload, PayloadView};
use crate::utils::{be16, byte_hex, hex_of, u16_to_hex_bytes};

verus! {

/// The command's name: `SKJOIN`.
pub open spec fn skjoin_name() -> Seq<u8> {
    seq![0x53, 0x4B, 0x4A, 0x4F, 0x49, 0x4E]
}

pub fn skjoin_name_bytes() -> (r: Vec<u8>)
    ensures
        r@ == skjoin_name(),
{
    let r = vec![0x53u8, 0x4B, 0x4A, 0x4F, 0x49, 0x4E];
    assert(r@ =~= skjoin_name());
    r
}

/// Parts joined in order, the separator between each two.
pub open spec fn join_with(sep: Seq<u8>, parts: Seq<Seq<u8>>) -> Seq<u8>
    decreases parts.len(),
{
    if parts.len() == 0 {
        seq![]
    } else if parts.len() == 1 {
        parts[0]
    } else {
        join_with(sep, parts.drop_last()) + sep + parts.last()
    }
}

/// Relies on `bstr::join`: the parts in order, with the separator between each two.
#[verifier::external_body]
fn join_bytes(sep: &[u8], parts: &Vec<Vec<u8>>) -> (r: Vec<u8>)
    ensures
        r@ == join_with(sep@, parts@.map_values(|p: Vec<u8>| p@)),
{
    bstr::join(sep, parts)
}

/// An address written in full: its eight segments as four hex digits each, joined by colons.
pub open spec fn address_text(segments: Seq<u16>) -> Seq<u8> {
    join_with(seq![0x3Au8], segments.map_values(|s: u16| hex_of(be16(s))))
}

pub open spec fn colon_free(s: Seq<u8>) -> bool {
    forall|i: int| 0 <= i < s.len() ==> #[trigger] s[i] != COLON
}

proof fn lemma_split_word(s: Seq<u8>, w: Seq<u8>)
    requires
        colon_free(w),
    ensures
        ({
            let p = split_colons(s);
            split_colons(s + w) == p.update(p.len() - 1, p.last() + w)
        }),
    decreases w.len(),
{
    lemma_split_colons_nonempty(s);
    let p = split_colons(s);
    if w.len() == 0 {
        assert(s + w =~= s);
        assert(p.last() + w =~= p.last());
        assert(p.update(p.len() - 1, p.last()) =~= p);
    } else {
        let v = w.drop_last();
        lemma_split_word(s, v);
        assert((s + w).drop_last() =~= s + v);
        let q = p.update(p.len() - 1, p.last() + v);
        assert((s + w).last() == w.last());
        assert(w.last() != COLON);
        assert(q.len() == p.len());
        assert(q.last() == p.last() + v);
        assert(q.last().push(w.last()) =~= p.last() + w);
        assert(q.update(q.len() - 1, q.last().push(w.last())) =~= p.update(p.len() - 1, p.last() + w));
    }
}

/// Joined parts that are non-empty and hold no colon: split back into those parts, with no
/// two colons side by side, and ending in a byte that is no colon.
proof fn lemma_join_split(parts: Seq<Seq<u8>>)
    requires
        parts.len() >= 1,
        forall|k: int| 0 <= k < parts.len() ==> (#[trigger] parts[k]).len() > 0 && colon_free(parts[k]),
    ensures
        ({
            let t = join_with(seq![COLON], parts);
            &&& split_colons(t) == parts
            &&& t.len() > 0 && t.last() != COLON
            &&& forall|i: int| 0 <= i < t.len() - 1 ==> !(#[trigger] t[i] == COLON && t[i + 1] == COLON)
        }),
    decreases parts.len(),
{
    let t = join_with(seq![COLON], parts);
    if parts.len() == 1 {
        lemma_split_word(seq![], parts[0]);
        assert(seq![] + parts[0] =~= parts[0]);
        assert(seq![seq![]].update(0, seq![] + parts[0]) =~= parts);
    } else {
        let init = parts.drop_last();
        let a = parts.last();
        lemma_join_split(init);
        let u = join_with(seq![COLON], init);
        assert(t == u + seq![COLON] + a);
        let x = u + seq![COLON];
        assert(x.drop_last() =~= u);
        lemma_split_colons_nonempty(u);
        assert(split_colons(x) == split_colons(u).push(seq![]));
        lemma_split_word(x, a);
        assert(split_colons(u).push(seq![]).update(init.len() as int, seq![] + a) =~= parts);
        assert(t.last() == a.last());
        assert forall|i: int| 0 <= i < t.len() - 1 implies !(#[trigger] t[i] == COLON && t[i + 1] == COLON) by {
            if i < u.len() - 1 {
                assert(t[i] == u[i] && t[i + 1] == u[i + 1]);
            } else if i == u.len() - 1 {
                assert(t[i] == u.last());
            } else if i == u.len() {
                assert(t[i + 1] == a[0]);
            } else {
                assert(t[i] == a[i - u.len() - 1]);
            }
        }
    }
}

proof fn lemma_no_double_colon(t: Seq<u8>, i: int)
    requires
        0 <= i,
        forall|j: int| 0 <= j < t.len() - 1 ==> !(#[trigger] t[j] == COLON && t[j + 1] == COLON),
    ensures
        double_colon_from(t, i) == -1,
    decreases t.len() - i,
{
    if i + 1 < t.len() {
        lemma_no_double_colon(t, i + 1);
    }
}

proof fn lemma_segment_group(u: u16)
    ensures
        is_group(hex_of(be16(u))),
        colon_free(hex_of(be16(u))),
        group_val(hex_of(be16(u))) == u,
{
    let b = be16(u);
    assert(b.drop_last().drop_last() =~= Seq::<u8>::empty());
    assert(b.drop_last() =~= seq![b[0]]);
    assert(hex_of(Seq::<u8>::empty()) == Seq::<u8>::empty());
    assert(hex_of(seq![b[0]]) == hex_of(seq![b[0]].drop_last()) + byte_hex(b[0]));
    assert(seq![b[0]].drop_last() =~= Seq::<u8>::empty());
    let h = hex_of(b);
    assert(h =~= byte_hex(b[0]) + byte_hex(b[1]));
    let e = Seq::<u8>::empty();
    let h0 = seq![h[0]];
    let h1 = seq![h[0], h[1]];
    let h2 = seq![h[0], h[1], h[2]];
    assert(h0.drop_last() =~= e);
    assert(h1.drop_last() =~= h0);
    assert(h2.drop_last() =~= h1);
    assert(h.drop_last() =~= h2);
    assert(group_val(e) == 0);
    assert(group_val(h0) == group_val(h0.drop_last()) * 16 + crate::event::addr_digit_value(h0.last()));
    assert(group_val(h1) == group_val(h1.drop_last()) * 16 + crate::event::addr_digit_value(h1.last()));
    assert(group_val(h2) == group_val(h2.drop_last()) * 16 + crate::event::addr_digit_value(h2.last()));
    assert(group_val(h) == group_val(h.drop_last()) * 16 + crate::event::addr_digit_value(h.last()));
    let hi = (u / 0x100) as u8;
    let lo = (u % 0x100) as u8;
    assert(u == (hi / 16) * 0x1000 + (hi % 16) * 0x100 + (lo / 16) * 0x10 + lo % 16) by (nonlinear_arith)
        requires
            hi == u / 0x100,
            lo == u % 0x100,
            u < 0x1_0000,
    {
    }
}

/// Address round trip: an address written in full, as the join command writes it, is read
/// back as the same eight segments.
pub proof fn lemma_address_round_trip(segments: Seq<u16>)
    requires
        segments.len() == 8,
    ensures
        is_address_text(address_text(segments)),
        address_of(address_text(segments)) == segments,
{
    let parts = segments.map_values(|s: u16| hex_of(be16(s)));
    assert forall|k: int| 0 <= k < parts.len() implies (#[trigger] parts[k]).len() > 0 && colon_free(
        parts[k],
    ) by {
        lemma_segment_group(segments[k]);
    }
    lemma_join_split(parts);
    let t = address_text(segments);
    lemma_no_double_colon(t, 0);
    let ts = split_colons(t);
    assert forall|k: int| 0 <= k < ts.len() implies is_group(#[trigger] ts[k]) by {
        lemma_segment_group(segments[k]);
    }
    let g = groups_of(t)->Some_0;
    assert(groups_of(t) is Some);
    assert forall|k: int| 0 <= k < 8 implies #[trigger] g[k] == segments[k] by {
        lemma_segment_group(segments[k]);
    }
    assert(g =~= segments);
}

/// Starts the authentication that joins the network of a coordinator.
#[derive(Clone, Debug)]
pub struct Input {
    pub ip_addr: Ipv6Address,
}

impl Encode for Input {
    open spec fn frame(&self) -> PayloadView {
        PayloadView { name: skjoin_name(), args: seq![address_text(self.ip_addr.segments@)] }
    }

    fn encode(&self) -> (r: Payload) {
        let mut parts: Vec<Vec<u8>> = Vec::new();
        let mut i: usize = 0;
        while i < 8
            invariant
                i <= 8,
                parts@.map_values(|p: Vec<u8>| p@) == self.ip_addr.segments@.subrange(
                    0,
                    i as int,
                ).map_values(|s: u16| hex_of(be16(s))),
            decreases 8 - i,
        {
            let ghost prev = parts@;
            let h = u16_to_hex_bytes(self.ip_addr.segments[i]);
            parts.push(h);
            assert(parts@.map_values(|p: Vec<u8>| p@) =~= prev.map_values(|p: Vec<u8>| p@).push(h@));
            assert(self.ip_addr.segments@.subrange(0, i + 1).map_values(|s: u16| hex_of(be16(s)))
                =~= self.ip_addr.segments@.subrange(0, i as int).map_values(|s: u16| hex_of(be16(s))).push(
                hex_of(be16(self.ip_addr.segments@[i as int]))));
            assert(parts@.map_values(|p: Vec<u8>| p@) =~= self.ip_addr.segments@.subrange(
                0,
                i + 1,
            ).map_values(|s: u16| hex_of(be16(s))));
            i = i + 1;
        }
        assert(self.ip_addr.segments@.subrange(0, 8) =~= self.ip_addr.segments@);
        let sep = vec![0x3Au8];
        assert(sep@ =~= seq![0x3Au8]);
        let args = vec![join_bytes(sep.as_slice(), &parts)];
        let r = Payload { name: skjoin_name_bytes(), args };
        assert(r@.args =~= self.frame().args);
        r
    }
}

} // verus!
