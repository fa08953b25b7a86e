use vstd::prelude::*;

use crate::utils::{copy_bytes, push_bytes};

verus! {

/// The byte that separates a frame's name and arguments.
pub const SPACE: u8 = 0x20;

/// A line of the protocol: a name and its ordered arguments.
#[derive(Clone, Debug, PartialEq, Eq)]
pub struct Payload {
    pub name: Vec<u8>,
    pub args: Vec<Vec<u8>>,
}

/// What a frame holds, as mathematical sequences.
pub struct PayloadView {
    pub name: Seq<u8>,
    pub args: Seq<Seq<u8>>,
}

impl View for Payload {
    type V = PayloadView;

    open spec fn view(&self) -> PayloadView {
        PayloadView { name: self.name@, args: self.args@.map_values(|a: Vec<u8>| a@) }
    }
}

/// The tokens of a line: the pieces between single spaces, empty ones kept.
pub open spec fn split_spaces(s: Seq<u8>) -> Seq<Seq<u8>>
    decreases s.len(),
{
    if s.len() == 0 {
        seq![seq![]]
    } else {
        let p = split_spaces(s.drop_last());
        if s.last() == SPACE {
            p.push(seq![])
        } else {
            p.update(p.len() - 1, p.last().push(s.last()))
        }
    }
}

/// The frame that a line holds; a line whose first token is empty holds none.
pub open spec fn parse_line(line: Seq<u8>) -> Option<PayloadView> {
    let t = split_spaces(line);
    if t[0].len() == 0 {
        None
    } else {
        Some(PayloadView { name: t[0], args: t.drop_first() })
    }
}

/// The arguments on the wire: each one after a single space.
pub open spec fn args_wire(args: Seq<Seq<u8>>) -> Seq<u8>
    decreases args.len(),
{
    if args.len() == 0 {
        seq![]
    } else {
        args_wire(args.drop_last()) + seq![SPACE] + args.last()
    }
}

/// A frame on the wire, without the line terminator.
pub open spec fn wire(f: PayloadView) -> Seq<u8> {
    f.name + args_wire(f.args)
}

pub open spec fn space_free(s: Seq<u8>) -> bool {
    forall|i: int| 0 <= i < s.len() ==> #[trigger] s[i] != SPACE
}

pub proof fn lemma_split_nonempty(s: Seq<u8>)
    ensures
        split_spaces(s).len() >= 1,
    decreases s.len(),
{
    if s.len() > 0 {
        lemma_split_nonempty(s.drop_last());
    }
}

/// The first token of a line is the line up to its first space, or all of it.
pub proof fn lemma_first_token(s: Seq<u8>)
    ensures
        ({
            let t = split_spaces(s);
            &&& t.len() >= 1
            &&& t[0].len() <= s.len()
            &&& t[0] == s.subrange(0, t[0].len() as int)
            &&& t[0].len() < s.len() ==> s[t[0].len() as int] == SPACE
            &&& t.len() > 1 ==> t[0].len() < s.len()
            &&& t.len() == 1 ==> t[0] == s
        }),
    decreases s.len(),
{
    if s.len() == 0 {
        assert(s.subrange(0, 0) =~= s);
    } else {
        let s0 = s.drop_last();
        lemma_first_token(s0);
        let p = split_spaces(s0);
        let t = split_spaces(s);
        let n = p[0].len() as int;
        if s.last() == SPACE {
            assert(t == p.push(seq![]));
            assert(t[0] == p[0]);
            assert(s.subrange(0, n) =~= s0.subrange(0, n));
            if n < s0.len() {
                assert(s[n] == s0[n]);
            }
        } else if p.len() == 1 {
            assert(t[0] == p[0].push(s.last()));
            assert(t[0] =~= s);
            assert(s.subrange(0, s.len() as int) =~= s);
        } else {
            assert(t[0] == p[0]);
            assert(s.subrange(0, n) =~= s0.subrange(0, n));
            assert(s[n] == s0[n]);
        }
    }
}

proof fn lemma_split_word(s: Seq<u8>, w: Seq<u8>)
    requires
        space_free(w),
    ensures
        ({
            let p = split_spaces(s);
            split_spaces(s + w) == p.update(p.len() - 1, p.last() + w)
        }),
    decreases w.len(),
{
    lemma_split_nonempty(s);
    let p = split_spaces(s);
    if w.len() == 0 {
        assert(s + w =~= s);
        assert(p.last() + w =~= p.last());
        assert(p.update(p.len() - 1, p.last()) =~= p);
    } else {
        let v = w.drop_last();
        lemma_split_word(s, v);
        assert((s + w).drop_last() =~= s + v);
        assert(p.last() + v + seq![w.last()] =~= p.last() + w);
        let q = p.update(p.len() - 1, p.last() + v);
        assert((s + w).last() == w.last());
        assert(w.last() != SPACE);
        assert(q.len() == p.len());
        assert(q.last() == p.last() + v);
        assert(q.last().push(w.last()) =~= p.last() + w);
        assert(q.update(q.len() - 1, q.last().push(w.last())) =~= p.update(p.len() - 1, p.last() + w));
    }
}

proof fn lemma_split_wire(name: Seq<u8>, args: Seq<Seq<u8>>)
    requires
        space_free(name),
        forall|i: int| 0 <= i < args.len() ==> space_free(#[trigger] args[i]),
    ensures
        split_spaces(name + args_wire(args)) == seq![name] + args,
    decreases args.len(),
{
    if args.len() == 0 {
        lemma_split_word(seq![], name);
        assert(seq![] + name =~= name);
        assert(name + args_wire(args) =~= name);
        assert(seq![name] + args =~= seq![name]);
        assert(seq![seq![]].update(0, seq![] + name) =~= seq![name]);
    } else {
        let rest = args.drop_last();
        let a = args.last();
        lemma_split_wire(name, rest);
        let x = name + args_wire(rest);
        assert(name + args_wire(args) =~= (x + seq![SPACE]) + a);
        assert((x + seq![SPACE]).drop_last() =~= x);
        lemma_split_nonempty(x);
        assert(split_spaces(x + seq![SPACE]) == split_spaces(x).push(seq![]));
        lemma_split_word(x + seq![SPACE], a);
        let p = split_spaces(x).push(seq![]);
        assert(p.update(p.len() - 1, p.last() + a) =~= (seq![name] + rest).push(a));
        assert((seq![name] + rest).push(a) =~= seq![name] + args);
    }
}

/// Frame round trip: a frame whose name is non-empty and whose name and arguments hold no
/// space is parsed back from its wire form unchanged.
pub proof fn lemma_frame_round_trip(f: PayloadView)
    requires
        f.name.len() > 0,
        space_free(f.name),
        forall|i: int| 0 <= i < f.args.len() ==> space_free(#[trigger] f.args[i]),
    ensures
        parse_line(wire(f)) == Some(f),
{
    lemma_split_wire(f.name, f.args);
    let t = seq![f.name] + f.args;
    assert(t[0] == f.name);
    assert(t.drop_first() =~= f.args);
}

/// Errors of reading a frame from a line.
#[derive(Clone, Copy, Debug, PartialEq, Eq)]
pub enum FrameError {
    /// The line is empty or begins with a space, so it names nothing.
    NoName,
}

impl Payload {
    /// Splits a line on every single space; the first token is the name, the others the
    /// arguments, empty ones included.
    pub fn parse(line: &[u8]) -> (r: Result<Payload, FrameError>)
        ensures
            r is Ok <==> parse_line(line@) is Some,
            r is Ok ==> r->Ok_0@ == parse_line(line@)->Some_0,
    {
        let mut tokens: Vec<Vec<u8>> = Vec::new();
        let mut cur: Vec<u8> = Vec::new();
        let mut i: usize = 0;
        while i < line.len()
            invariant
                i <= line.len(),
                tokens@.map_values(|a: Vec<u8>| a@).push(cur@) == split_spaces(
                    line@.subrange(0, i as int),
                ),
            decreases line.len() - i,
        {
            let ghost before = tokens@.map_values(|a: Vec<u8>| a@).push(cur@);
            let b = line[i];
            proof {
                let s = line@.subrange(0, i + 1);
                assert(s.drop_last() =~= line@.subrange(0, i as int));
            }
            if b == SPACE {
                let done = cur;
                tokens.push(done);
                cur = Vec::new();
                assert(tokens@.map_values(|a: Vec<u8>| a@).push(cur@) =~= before.push(seq![]));
            } else {
                cur.push(b);
                assert(tokens@.map_values(|a: Vec<u8>| a@).push(cur@) =~= before.update(
                    before.len() - 1,
                    before.last().push(b),
                ));
            }
            i = i + 1;
        }
        assert(line@.subrange(0, i as int) =~= line@);
        let ghost all = tokens@.map_values(|a: Vec<u8>| a@).push(cur@);
        if tokens.len() == 0 {
            if cur.len() == 0 {
                return Err(FrameError::NoName);
            }
            let args: Vec<Vec<u8>> = Vec::new();
            let r = Payload { name: cur, args };
            assert(r@.args =~= all.drop_first());
            Ok(r)
        } else {
            let name = tokens.remove(0);
            if name.len() == 0 {
                assert(all[0] == name@);
                return Err(FrameError::NoName);
            }
            tokens.push(cur);
            let r = Payload { name, args: tokens };
            assert(r@.args =~= all.drop_first());
            Ok(r)
        }
    }

    /// A copy of this frame.
    pub fn copy(&self) -> (r: Payload)
        ensures
            r@ == self@,
    {
        let mut args: Vec<Vec<u8>> = Vec::new();
        let mut i: usize = 0;
        while i < self.args.len()
            invariant
                i <= self.args.len(),
                args@.map_values(|a: Vec<u8>| a@) == self@.args.subrange(0, i as int),
            decreases self.args.len() - i,
        {
            let a = copy_bytes(self.args[i].as_slice());
            let ghost prev = args@;
            args.push(a);
            assert(self@.args[i as int] == self.args@[i as int]@);
            assert(args@.map_values(|a: Vec<u8>| a@) =~= prev.map_values(|a: Vec<u8>| a@).push(a@));
            assert(args@.map_values(|a: Vec<u8>| a@) =~= self@.args.subrange(0, i + 1));
            i = i + 1;
        }
        let r = Payload { name: copy_bytes(self.name.as_slice()), args };
        assert(r@.args =~= self@.args);
        r
    }

    /// The frame on the wire: the name, then each argument after a single space.
    pub fn serialize(&self) -> (r: Vec<u8>)
        ensures
            r@ == wire(self@),
    {
        let mut out = copy_bytes(self.name.as_slice());
        let mut i: usize = 0;
        while i < self.args.len()
            invariant
                i <= self.args.len(),
                out@ == self.name@ + args_wire(self@.args.subrange(0, i as int)),
            decreases self.args.len() - i,
        {
            out.push(SPACE);
            push_bytes(&mut out, self.args[i].as_slice());
            proof {
                let s = self@.args.subrange(0, i + 1);
                assert(s.drop_last() =~= self@.args.subrange(0, i as int));
                assert(out@ =~= self.name@ + args_wire(s));
            }
            i = i + 1;
        }
        assert(self@.args.subrange(0, i as int) =~= self@.args);
        out
    }
}

} // verus!
