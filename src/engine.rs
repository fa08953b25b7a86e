use vstd::prelude::*;

use crate::event::epandesc::{
    after, empty_desc, epandesc_marker, epandesc_name, has_prefix, indent, is_indented,
    merge_field, DescView, EPanDesc,
};
use crate::event::{address_of, code_of, event_error, event_marker, event_name, is_address_text, Ipv6Address, event_body_of, side_of, Event, EventBody};
use crate::cmd::Encode;
use crate::payload::{lemma_frame_round_trip, space_free, lemma_first_token, parse_line, split_spaces, wire, Payload, PayloadView, SPACE};
use crate::utils::{bytes_eq, copy_bytes};

verus! {

/// The name of the frame that ends a successful command: `OK`.
pub open spec fn ok_name() -> Seq<u8> {
    seq![0x4F, 0x4B]
}

pub fn ok_marker() -> (r: Vec<u8>)
    ensures
        r@ == ok_name(),
{
    let r = vec![0x4Fu8, 0x4B];
    assert(r@ =~= ok_name());
    r
}

/// The name of the frame that reports a failed command: `FAIL`.
pub open spec fn fail_name() -> Seq<u8> {
    seq![0x46, 0x41, 0x49, 0x4C]
}

pub fn fail_marker() -> (r: Vec<u8>)
    ensures
        r@ == fail_name(),
{
    let r = vec![0x46u8, 0x41, 0x49, 0x4C];
    assert(r@ =~= fail_name());
    r
}

/// Whether a wait is for the reply to a command, so that a `FAIL` from the module ends it.
pub open spec fn awaits_reply(w: WaitView) -> bool {
    match w.goal {
        GoalView::Frame => false,
        GoalView::Event(_) => false,
        GoalView::EventWhere(_) => false,
        GoalView::Scan => !w.acked,
        _ => true,
    }
}

/// Whether a name is one the module's commands begin with, so that a line of that name is
/// the echo of a command: `SK`, `W` or `R`.
pub open spec fn is_echo_name(n: Seq<u8>) -> bool {
    ||| (n.len() >= 2 && n[0] == 0x53 && n[1] == 0x4B)
    ||| (n.len() >= 1 && n[0] == 0x57)
    ||| (n.len() >= 1 && n[0] == 0x52)
}

/// A line without its terminator: a final LF, then a final CR, removed.
pub open spec fn strip_eol(l: Seq<u8>) -> Seq<u8> {
    let a = if l.len() > 0 && l.last() == 0x0A {
        l.drop_last()
    } else {
        l
    };
    if a.len() > 0 && a.last() == 0x0D {
        a.drop_last()
    } else {
        a
    }
}

/// The frame that a line from the module brings to its waiters: none for a line that names
/// nothing, or for the echo of a command.
pub open spec fn line_frame(l: Seq<u8>) -> Option<PayloadView> {
    match parse_line(strip_eol(l)) {
        Some(f) => if is_echo_name(f.name) {
            None
        } else {
            Some(f)
        },
        None => None,
    }
}

/// A test on a decoded event: each field that is given must be equal to the event's.
#[derive(Clone, Copy, Debug)]
pub struct EventFilter {
    /// The event's code.
    pub code: Option<u8>,
    /// The whole variant, with what it carries.
    pub body: Option<EventBody>,
    /// The sender.
    pub sender: Option<Ipv6Address>,
    /// The side.
    pub side: Option<u8>,
}

/// Whether the event of variant `b` that frame `p` notifies passes a filter.
pub open spec fn filter_accepts(f: EventFilter, b: EventBody, p: PayloadView) -> bool {
    &&& (f.code matches Some(c) ==> code_of(b) == c)
    &&& (f.body matches Some(x) ==> b == x)
    &&& (f.sender matches Some(a) ==> a.segments@ == address_of(p.args[1]))
    &&& (f.side matches Some(s) ==> side_of(p.args[2]) == s)
}

fn segments_eq(a: &[u16; 8], b: &[u16; 8]) -> (r: bool)
    ensures
        r == (a@ == b@),
{
    let mut i: usize = 0;
    while i < 8
        invariant
            i <= 8,
            forall|j: int| 0 <= j < i ==> a@[j] == b@[j],
        decreases 8 - i,
    {
        if a[i] != b[i] {
            return false;
        }
        i = i + 1;
    }
    assert(a@ =~= b@);
    true
}

impl EventFilter {
    /// Whether an event passes this filter.
    pub fn accepts(&self, e: &Event) -> (r: bool)
        ensures
            r == ({
                &&& (self.code matches Some(c) ==> code_of(e.body) == c)
                &&& (self.body matches Some(x) ==> e.body == x)
                &&& (self.sender matches Some(a) ==> a.segments@ == e.header.sender.segments@)
                &&& (self.side matches Some(s) ==> e.header.side == s)
            }),
    {
        let code_ok = match self.code {
            Some(c) => e.body.code() == c,
            None => true,
        };
        let body_ok = match self.body {
            Some(x) => e.body == x,
            None => true,
        };
        let sender_ok = match &self.sender {
            Some(a) => segments_eq(&a.segments, &e.header.sender.segments),
            None => true,
        };
        let side_ok = match self.side {
            Some(s) => e.header.side == s,
            None => true,
        };
        code_ok && body_ok && sender_ok && side_ok
    }
}

/// What a wait is looking for.
pub enum Goal {
    /// The next frame, whatever it is.
    Frame,
    /// The first frame of the given name.
    Name(Vec<u8>),
    /// The reply of the given name, then the `OK` that follows it; the wait ends with the reply.
    Response(Vec<u8>),
    /// The `OK` after this reply.
    ResponseAck(Payload),
    /// The first event of the given code; an event frame that cannot be decoded ends the
    /// wait with its decode error.
    Event(u8),
    /// The first event that passes a filter; an event frame that cannot be decoded ends the
    /// wait with its decode error.
    EventWhere(EventFilter),
    /// The first line that is an IPv6 address alone.
    Address,
    /// The descriptors of an active scan, up to the event that ends it.
    Scan,
    /// The event that says the network layer is connected.
    Join,
    /// The `OK` that follows that event.
    JoinAck,
}

pub enum GoalView {
    Frame,
    Name(Seq<u8>),
    Response(Seq<u8>),
    ResponseAck(PayloadView),
    Event(u8),
    EventWhere(EventFilter),
    Address,
    Scan,
    Join,
    JoinAck,
}

impl View for Goal {
    type V = GoalView;

    open spec fn view(&self) -> GoalView {
        match self {
            Goal::Frame => GoalView::Frame,
            Goal::Name(n) => GoalView::Name(n@),
            Goal::Response(t) => GoalView::Response(t@),
            Goal::ResponseAck(r) => GoalView::ResponseAck(r@),
            Goal::Event(c) => GoalView::Event(*c),
            Goal::EventWhere(f) => GoalView::EventWhere(*f),
            Goal::Address => GoalView::Address,
            Goal::Scan => GoalView::Scan,
            Goal::Join => GoalView::Join,
            Goal::JoinAck => GoalView::JoinAck,
        }
    }
}

/// A wait in progress: its goal, the frames it passed over, and what an active scan has
/// gathered.
pub struct Wait {
    goal: Goal,
    staged: Vec<Payload>,
    descs: Vec<EPanDesc>,
    desc: Option<EPanDesc>,
    malformed: bool,
    acked: bool,
}

pub struct WaitView {
    pub goal: GoalView,
    pub staged: Seq<PayloadView>,
    pub descs: Seq<DescView>,
    pub desc: Option<DescView>,
    pub malformed: bool,
    pub acked: bool,
}

pub open spec fn frames_view(v: Seq<Payload>) -> Seq<PayloadView> {
    v.map_values(|p: Payload| p@)
}

pub open spec fn descs_view(v: Seq<EPanDesc>) -> Seq<DescView> {
    v.map_values(|d: EPanDesc| d@)
}

pub open spec fn desc_opt_view(d: Option<EPanDesc>) -> Option<DescView> {
    match d {
        Some(x) => Some(x@),
        None => None,
    }
}

impl View for Wait {
    type V = WaitView;

    closed spec fn view(&self) -> WaitView {
        WaitView {
            goal: self.goal@,
            staged: frames_view(self.staged@),
            descs: descs_view(self.descs@),
            desc: desc_opt_view(self.desc),
            malformed: self.malformed,
            acked: self.acked,
        }
    }
}

/// A wait that has just begun.
pub open spec fn fresh(g: GoalView) -> WaitView {
    WaitView {
        goal: g,
        staged: seq![],
        descs: seq![],
        desc: None,
        malformed: false,
        acked: false,
    }
}

/// What a wait ends with.
pub enum Outcome {
    /// The frame that was waited for.
    Frame(Payload),
    /// The event that was waited for.
    Event(Event),
    /// The descriptors of an active scan, in the order received, or the error of one of its
    /// fields.
    Scanned(Result<Vec<EPanDesc>, crate::utils::DecodeError>),
    /// The network is joined.
    Joined,
    /// The module reported that the command failed, with this frame.
    Failed(Payload),
    /// A wait for an event met an event frame that it could not decode.
    Undecodable(crate::utils::DecodeError),
}

pub enum OutcomeView {
    Frame(PayloadView),
    /// The event that this frame notifies.
    Event(PayloadView),
    Scanned(Seq<DescView>),
    Malformed,
    Joined,
    Failed(PayloadView),
    Undecodable(crate::utils::DecodeError),
}

/// Whether an outcome is the one that the model describes.
pub open spec fn outcome_is(o: Outcome, v: OutcomeView) -> bool {
    match v {
        OutcomeView::Frame(f) => o matches Outcome::Frame(p) && p@ == f,
        OutcomeView::Event(f) => o matches Outcome::Event(e) && event_body_of(f.name, f.args) == Some(
            e.body,
        ) && e.header.side == side_of(f.args[2]) && e.header.sender.segments@ == address_of(
            f.args[1],
        ),
        OutcomeView::Scanned(d) => o matches Outcome::Scanned(Ok(v)) && descs_view(v@) == d,
        OutcomeView::Malformed => o matches Outcome::Scanned(Err(_)),
        OutcomeView::Joined => o is Joined,
        OutcomeView::Failed(f) => o matches Outcome::Failed(p) && p@ == f,
        OutcomeView::Undecodable(e) => o == Outcome::Undecodable(e),
    }
}

/// What a wait does with one frame.
pub enum ClassView {
    /// It uses the frame up and goes on in a new state.
    Consume(WaitView),
    /// It passes over the frame, which is kept for later.
    Continue,
    /// It ends.
    Finish(OutcomeView),
}

/// The decision of a wait on one frame: a wait for a command's reply ends on a `FAIL`
/// unless that is the name it waits for.
pub open spec fn classify(w: WaitView, p: PayloadView) -> ClassView {
    if awaits_reply(w) && p.name == fail_name() && w.goal != GoalView::Name(fail_name()) {
        ClassView::Finish(OutcomeView::Failed(p))
    } else {
        classify_goal(w, p)
    }
}

/// The decision of a wait on one frame, by its goal.
pub open spec fn classify_goal(w: WaitView, p: PayloadView) -> ClassView {
    match w.goal {
        GoalView::Frame => ClassView::Finish(OutcomeView::Frame(p)),
        GoalView::Name(t) => if p.name == t {
            ClassView::Finish(OutcomeView::Frame(p))
        } else {
            ClassView::Continue
        },
        GoalView::Response(t) => if p.name == t {
            ClassView::Consume(WaitView { goal: GoalView::ResponseAck(p), ..w })
        } else {
            ClassView::Continue
        },
        GoalView::ResponseAck(r) => if p.name == ok_name() {
            ClassView::Finish(OutcomeView::Frame(r))
        } else {
            ClassView::Continue
        },
        GoalView::Event(c) => match event_body_of(p.name, p.args) {
            Some(b) => if code_of(b) == c {
                ClassView::Finish(OutcomeView::Event(p))
            } else {
                ClassView::Continue
            },
            None => if p.name == event_name() {
                ClassView::Finish(OutcomeView::Undecodable(event_error(p.name, p.args)))
            } else {
                ClassView::Continue
            },
        },
        GoalView::EventWhere(f) => match event_body_of(p.name, p.args) {
            Some(b) => if filter_accepts(f, b, p) {
                ClassView::Finish(OutcomeView::Event(p))
            } else {
                ClassView::Continue
            },
            None => if p.name == event_name() {
                ClassView::Finish(OutcomeView::Undecodable(event_error(p.name, p.args)))
            } else {
                ClassView::Continue
            },
        },
        GoalView::Address => if is_address_text(p.name) && p.args.len() == 0 {
            ClassView::Finish(OutcomeView::Frame(p))
        } else {
            ClassView::Continue
        },
        GoalView::Scan => if p.name == epandesc_name() {
            ClassView::Consume(WaitView { desc: Some(empty_desc()), acked: true, ..w })
        } else if !w.acked && p.name == ok_name() {
            ClassView::Consume(WaitView { acked: true, ..w })
        } else if event_body_of(p.name, p.args) == Some(EventBody::ActiveScanFinished) {
            ClassView::Finish(
                if w.malformed {
                    OutcomeView::Malformed
                } else {
                    OutcomeView::Scanned(w.descs)
                },
            )
        } else {
            ClassView::Continue
        },
        GoalView::Join => if event_body_of(p.name, p.args) == Some(EventBody::PanaConnected) {
            ClassView::Consume(WaitView { goal: GoalView::JoinAck, ..w })
        } else {
            ClassView::Continue
        },
        GoalView::JoinAck => if p.name == ok_name() {
            ClassView::Finish(OutcomeView::Joined)
        } else {
            ClassView::Continue
        },
    }
}

/// One frame taken by a wait, the rest of the buffer being `buf`: a frame passed over is
/// staged; when the wait ends, the staged frames go back to the head of the buffer in the
/// order they were seen.
pub open spec fn take(buf: Seq<PayloadView>, w: WaitView, p: PayloadView) -> (
    Seq<PayloadView>,
    WaitView,
    Option<OutcomeView>,
) {
    match classify(w, p) {
        ClassView::Consume(w2) => (buf, w2, None),
        ClassView::Continue => (buf, WaitView { staged: w.staged.push(p), ..w }, None),
        ClassView::Finish(o) => (w.staged + buf, WaitView { staged: seq![], ..w }, Some(o)),
    }
}

/// A wait run on the buffer: it takes frames from the head until it ends, the buffer is
/// empty, or a descriptor block needs lines of its own.
pub open spec fn run(buf: Seq<PayloadView>, w: WaitView) -> (
    Seq<PayloadView>,
    WaitView,
    Option<OutcomeView>,
)
    decreases buf.len(),
{
    if w.desc is Some || buf.len() == 0 {
        (buf, w, None)
    } else {
        let t = take(buf.drop_first(), w, buf[0]);
        if t.2 is Some || t.0.len() >= buf.len() {
            t
        } else {
            run(t.0, t.1)
        }
    }
}

/// One line of a descriptor block: an indented line is merged into the descriptor; any other
/// line ends the block, and the frame it holds goes to the tail of the buffer.
pub open spec fn desc_line(buf: Seq<PayloadView>, w: WaitView, l: Seq<u8>) -> (
    Seq<PayloadView>,
    WaitView,
)
    recommends
        w.desc is Some,
{
    let d = w.desc->Some_0;
    if has_prefix(l, indent()) {
        match merge_field(d, after(l, indent())) {
            Some(d2) => (buf, WaitView { desc: Some(d2), ..w }),
            None => (buf, WaitView { malformed: true, ..w }),
        }
    } else {
        let w2 = WaitView { descs: w.descs.push(d), desc: None, ..w };
        match parse_line(l) {
            Some(f) => (buf.push(f), w2),
            None => (buf, w2),
        }
    }
}

/// A line from the module handed to a wait, and the wait run on.
pub open spec fn feed_line(buf: Seq<PayloadView>, w: WaitView, line: Seq<u8>) -> (
    Seq<PayloadView>,
    WaitView,
    Option<OutcomeView>,
) {
    if w.desc is Some {
        let s = desc_line(buf, w, strip_eol(line));
        run(s.0, s.1)
    } else {
        match line_frame(line) {
            Some(f) => run(buf.push(f), w),
            None => run(buf, w),
        }
    }
}

proof fn lemma_echo_line(buf: Seq<PayloadView>, w: WaitView, l: Seq<u8>)
    requires
        w.desc is None,
        is_echo_name(l),
    ensures
        feed_line(buf, w, l + seq![0x0Du8, 0x0Au8]) == run(buf, w),
{
    let m = l + seq![0x0Du8, 0x0Au8];
    assert(m.drop_last() =~= l + seq![0x0Du8]);
    assert(m.drop_last().drop_last() =~= l);
    assert(strip_eol(m) == l);
    lemma_first_token(l);
    let t = split_spaces(l);
    let n = t[0].len();
    assert(l[0] != SPACE);
    assert(n >= 1);
    if l[0] == 0x53 && l[1] == 0x4B {
        assert(l[1] != SPACE);
        assert(n >= 2);
        assert(t[0][1] == l.subrange(0, n as int)[1]);
    }
    assert(t[0][0] == l.subrange(0, n as int)[0]);
    assert(is_echo_name(t[0]));
}

/// Echo suppression: the echo of a command, the line that was sent for any frame whose name
/// begins as the module's commands do, changes nothing in a session outside a descriptor
/// block; a wait that asked for a line asks for the next one, exactly as if the echo had not
/// come.
pub proof fn lemma_echo_suppressed(buf: Seq<PayloadView>, w: WaitView, f: PayloadView)
    requires
        w.desc is None,
        is_echo_name(f.name),
    ensures
        feed_line(buf, w, wire(f) + seq![0x0Du8, 0x0Au8]) == run(buf, w),
        run(buf, w) == (buf, w, None::<OutcomeView>) ==> feed_line(
            buf,
            w,
            wire(f) + seq![0x0Du8, 0x0Au8],
        ) == (buf, w, None::<OutcomeView>),
{
    let l = wire(f);
    assert(l[0] == f.name[0]);
    if f.name.len() >= 2 {
        assert(l[1] == f.name[1]);
    }
    lemma_echo_line(buf, w, l);
}

proof fn lemma_name_wait_finds(buf: Seq<PayloadView>, w: WaitView, t: Seq<u8>, k: int)
    requires
        w.goal == GoalView::Name(t),
        w.desc is None,
        0 <= k < buf.len(),
        buf[k].name == t,
        forall|j: int| 0 <= j < k ==> (#[trigger] buf[j]).name != t,
        forall|j: int| 0 <= j < k ==> (#[trigger] buf[j]).name != fail_name(),
    ensures
        run(buf, w) == (w.staged + buf.remove(k), WaitView { staged: seq![], ..w }, Some(
            OutcomeView::Frame(buf[k]),
        )),
    decreases k,
{
    if k == 0 {
        assert(buf.remove(0) =~= buf.drop_first());
    } else {
        let rest = buf.drop_first();
        let w2 = WaitView { staged: w.staged.push(buf[0]), ..w };
        assert(buf[0].name != t);
        assert(buf[0].name != fail_name());
        assert forall|j: int| 0 <= j < k - 1 implies (#[trigger] rest[j]).name != t by {
            assert(rest[j] == buf[j + 1]);
        }
        assert forall|j: int| 0 <= j < k - 1 implies (#[trigger] rest[j]).name != fail_name() by {
            assert(rest[j] == buf[j + 1]);
        }
        lemma_name_wait_finds(rest, w2, t, k - 1);
        assert(w2.staged + rest.remove(k - 1) =~= w.staged + buf.remove(k));
        assert(WaitView { staged: seq![], ..w2 } == WaitView { staged: seq![], ..w });
    }
}

/// Reorder fairness: a wait for a name, run on frames of which the `k`-th is the first of
/// that name and none before it reports a failure, ends with that frame, and leaves all the
/// others buffered in the order they came, so that the next frames received are exactly
/// those.
pub proof fn lemma_reorder_fairness(buf: Seq<PayloadView>, t: Seq<u8>, k: int)
    requires
        0 <= k < buf.len(),
        buf[k].name == t,
        forall|j: int| 0 <= j < k ==> (#[trigger] buf[j]).name != t,
        forall|j: int| 0 <= j < k ==> (#[trigger] buf[j]).name != fail_name(),
    ensures
        run(buf, fresh(GoalView::Name(t))) == (buf.remove(k), fresh(GoalView::Name(t)), Some(
            OutcomeView::Frame(buf[k]),
        )),
{
    let w = fresh(GoalView::Name(t));
    lemma_name_wait_finds(buf, w, t, k);
    assert(w.staged + buf.remove(k) =~= buf.remove(k));
    assert(WaitView { staged: seq![], ..w } == w);
}

/// Nothing is lost while waiting: a wait that passes over every buffered frame keeps them
/// all, in the order they came, behind the frames it had already passed over, and asks for
/// a line.
pub proof fn lemma_passed_over_frames_kept(buf: Seq<PayloadView>, w: WaitView)
    requires
        w.desc is None,
        forall|j: int| 0 <= j < buf.len() ==> classify(w, #[trigger] buf[j]) is Continue,
    ensures
        run(buf, w) == (Seq::<PayloadView>::empty(), WaitView { staged: w.staged + buf, ..w }, None::<
            OutcomeView,
        >),
    decreases buf.len(),
{
    if buf.len() == 0 {
        assert(w.staged + buf =~= w.staged);
        assert(buf =~= Seq::<PayloadView>::empty());
    } else {
        let rest = buf.drop_first();
        let w2 = WaitView { staged: w.staged.push(buf[0]), ..w };
        assert(classify(w, buf[0]) is Continue);
        assert forall|j: int| 0 <= j < rest.len() implies classify(w2, #[trigger] rest[j]) is Continue by {
            assert(rest[j] == buf[j + 1]);
            assert(classify(w, buf[j + 1]) is Continue);
        }
        lemma_passed_over_frames_kept(rest, w2);
        assert(w2.staged + rest =~= w.staged + buf);
    }
}

/// CR LF, the end of every line.
pub open spec fn crlf() -> Seq<u8> {
    seq![0x0Du8, 0x0Au8]
}

/// Lines from the module handed to a wait one after the other, up to the one that ends it.
pub open spec fn feed_all(buf: Seq<PayloadView>, w: WaitView, lines: Seq<Seq<u8>>) -> (
    Seq<PayloadView>,
    WaitView,
    Option<OutcomeView>,
)
    decreases lines.len(),
{
    if lines.len() == 0 {
        (buf, w, None)
    } else {
        let r = feed_line(buf, w, lines[0]);
        if r.2 is Some {
            r
        } else {
            feed_all(r.0, r.1, lines.drop_first())
        }
    }
}

/// A frame that its wire form gives back: a non-empty name, and no space in it or in an
/// argument.
pub open spec fn plain_frame(f: PayloadView) -> bool {
    &&& f.name.len() > 0
    &&& space_free(f.name)
    &&& forall|i: int| 0 <= i < f.args.len() ==> space_free(#[trigger] f.args[i])
}

/// The line that carries a frame.
pub open spec fn line_of(f: PayloadView) -> Seq<u8> {
    wire(f) + crlf()
}

/// A descriptor after field lines are merged into it in order; `None` if one is malformed.
pub open spec fn merge_all(d: DescView, fields: Seq<Seq<u8>>) -> Option<DescView>
    decreases fields.len(),
{
    if fields.len() == 0 {
        Some(d)
    } else {
        match merge_field(d, fields[0]) {
            Some(d2) => merge_all(d2, fields.drop_first()),
            None => None,
        }
    }
}

/// The lines of a descriptor block's fields: each indented, each ended.
pub open spec fn field_lines(fields: Seq<Seq<u8>>) -> Seq<Seq<u8>> {
    fields.map_values(|f: Seq<u8>| indent() + f + crlf())
}

/// The frame that introduces a descriptor block.
pub open spec fn epandesc_frame() -> PayloadView {
    PayloadView { name: epandesc_name(), args: seq![] }
}

proof fn lemma_feed_all_append(
    buf: Seq<PayloadView>,
    w: WaitView,
    x: Seq<Seq<u8>>,
    y: Seq<Seq<u8>>,
)
    ensures
        feed_all(buf, w, x + y) == ({
            let r = feed_all(buf, w, x);
            if r.2 is Some {
                r
            } else {
                feed_all(r.0, r.1, y)
            }
        }),
    decreases x.len(),
{
    if x.len() == 0 {
        assert(x + y =~= y);
    } else {
        assert((x + y)[0] == x[0]);
        assert((x + y).drop_first() =~= x.drop_first() + y);
        let r = feed_line(buf, w, x[0]);
        if r.2 is None {
            lemma_feed_all_append(r.0, r.1, x.drop_first(), y);
        }
    }
}

proof fn lemma_line_frame(f: PayloadView)
    requires
        plain_frame(f),
    ensures
        strip_eol(line_of(f)) == wire(f),
        parse_line(wire(f)) == Some(f),
        !has_prefix(wire(f), indent()),
{
    let l = line_of(f);
    assert(l.drop_last() =~= wire(f) + seq![0x0Du8]);
    assert(l.drop_last().drop_last() =~= wire(f));
    lemma_frame_round_trip(f);
    assert(wire(f)[0] == f.name[0]);
    assert(indent()[0] == SPACE);
    if has_prefix(wire(f), indent()) {
        assert(wire(f).subrange(0, 2)[0] == wire(f)[0]);
    }
}

proof fn lemma_fields(buf: Seq<PayloadView>, w: WaitView, d: DescView, fields: Seq<Seq<u8>>)
    requires
        w.desc == Some(d),
        merge_all(d, fields) is Some,
    ensures
        feed_all(buf, w, field_lines(fields)) == (buf, WaitView { desc: merge_all(d, fields), ..w }, None::<
            OutcomeView,
        >),
    decreases fields.len(),
{
    if fields.len() == 0 {
        assert(WaitView { desc: Some(d), ..w } == w);
    } else {
        let f = fields[0];
        let l = indent() + f + crlf();
        assert(field_lines(fields)[0] == l);
        assert(l.drop_last() =~= indent() + f + seq![0x0Du8]);
        assert(l.drop_last().drop_last() =~= indent() + f);
        let s = indent() + f;
        assert(s.subrange(0, 2) =~= indent());
        assert(after(s, indent()) =~= f);
        let d2 = merge_field(d, f)->Some_0;
        let w2 = WaitView { desc: Some(d2), ..w };
        assert(feed_line(buf, w, l) == (buf, w2, None::<OutcomeView>));
        assert(field_lines(fields).drop_first() =~= field_lines(fields.drop_first()));
        lemma_fields(buf, w2, d2, fields.drop_first());
    }
}

/// A descriptor block: the introducing line, its field lines and a line that is none of
/// them, handed to a scan with nothing buffered, add exactly the descriptor those fields
/// build, and show that the scan command was accepted; the scan then goes on as if the last
/// line had come alone.
pub proof fn lemma_descriptor_block(w: WaitView, fields: Seq<Seq<u8>>, g: PayloadView)
    requires
        w.goal == GoalView::Scan,
        w.desc is None,
        merge_all(empty_desc(), fields) is Some,
        plain_frame(g),
        !is_echo_name(g.name),
    ensures
        feed_all(
            seq![],
            w,
            seq![line_of(epandesc_frame())] + field_lines(fields) + seq![line_of(g)],
        ) == feed_line(
            seq![],
            WaitView {
                descs: w.descs.push(merge_all(empty_desc(), fields)->Some_0),
                acked: true,
                ..w
            },
            line_of(g),
        ),
{
    let e = epandesc_frame();
    let none = Seq::<PayloadView>::empty();
    assert(space_free(e.name));
    lemma_line_frame(e);
    lemma_line_frame(g);
    assert(e.name != fail_name());
    let w1 = WaitView { desc: Some(empty_desc()), acked: true, ..w };
    assert(line_frame(line_of(e)) == Some(e));
    assert(none.push(e).drop_first() =~= none);
    assert(none.push(e)[0] == e);
    assert(classify_goal(w, e) == ClassView::Consume(w1));
    assert(classify(w, e) == ClassView::Consume(w1));
    assert(take(none, w, e) == (none, w1, None::<OutcomeView>));
    assert(run(none, w1) == (none, w1, None::<OutcomeView>));
    assert(run(none.push(e), w) == (none, w1, None::<OutcomeView>));
    assert(feed_line(none, w, line_of(e)) == (none, w1, None::<OutcomeView>));
    assert(seq![line_of(e)].drop_first() =~= Seq::<Seq<u8>>::empty());
    assert(feed_all(none, w1, Seq::<Seq<u8>>::empty()) == (none, w1, None::<OutcomeView>));
    assert(seq![line_of(e)][0] == line_of(e));
    assert(feed_all(none, w, seq![line_of(e)]) == (none, w1, None::<OutcomeView>));
    lemma_feed_all_append(none, w, seq![line_of(e)], field_lines(fields));
    lemma_fields(none, w1, empty_desc(), fields);
    let d = merge_all(empty_desc(), fields)->Some_0;
    let w2 = WaitView { desc: Some(d), acked: true, ..w };
    lemma_feed_all_append(
        none,
        w,
        seq![line_of(e)] + field_lines(fields),
        seq![line_of(g)],
    );
    assert(seq![line_of(g)].drop_first() =~= Seq::<Seq<u8>>::empty());
    let r = feed_line(none, w2, line_of(g));
    if r.2 is None {
        assert(feed_all(r.0, r.1, Seq::<Seq<u8>>::empty()) == r);
    }
    assert(WaitView { descs: w2.descs.push(d), desc: None, ..w2 } == WaitView {
        descs: w.descs.push(d),
        acked: true,
        ..w
    });
}

proof fn lemma_feed_all_one(buf: Seq<PayloadView>, w: WaitView, l: Seq<u8>)
    ensures
        feed_all(buf, w, seq![l]) == feed_line(buf, w, l),
{
    let r = feed_line(buf, w, l);
    assert(seq![l][0] == l);
    assert(seq![l].drop_first() =~= Seq::<Seq<u8>>::empty());
    if r.2 is None {
        assert(feed_all(r.0, r.1, Seq::<Seq<u8>>::empty()) == r);
    }
}

/// A frame that a scan passes over and keeps.
pub open spec fn other_frame(f: PayloadView) -> bool {
    &&& plain_frame(f)
    &&& !is_echo_name(f.name)
    &&& f.name != epandesc_name()
    &&& event_body_of(f.name, f.args) != Some(EventBody::ActiveScanFinished)
}

/// A scan from end to end: the command's `OK`, a frame `b1`, a descriptor block ended by a
/// frame `b2`, and a second block ended by the event that finishes the scan. The scan ends
/// with exactly the two descriptors, in the order received, and `b1` and `b2` are buffered
/// in that order: nothing but the `OK`, the blocks and the final event is used up.
pub proof fn lemma_scan_end_to_end(
    b1: PayloadView,
    fields1: Seq<Seq<u8>>,
    b2: PayloadView,
    fields2: Seq<Seq<u8>>,
    ev: PayloadView,
)
    requires
        other_frame(b1),
        other_frame(b2),
        plain_frame(ev),
        !is_echo_name(ev.name),
        event_body_of(ev.name, ev.args) == Some(EventBody::ActiveScanFinished),
        merge_all(empty_desc(), fields1) is Some,
        merge_all(empty_desc(), fields2) is Some,
    ensures
        ({
            let d1 = merge_all(empty_desc(), fields1)->Some_0;
            let d2 = merge_all(empty_desc(), fields2)->Some_0;
            let e = line_of(epandesc_frame());
            let lines = seq![line_of(PayloadView { name: ok_name(), args: seq![] }), line_of(b1)]
                + (seq![e] + field_lines(fields1) + seq![line_of(b2)]) + (seq![e] + field_lines(
                fields2,
            ) + seq![line_of(ev)]);
            feed_all(seq![], fresh(GoalView::Scan), lines) == (
                seq![b1, b2],
                WaitView {
                    goal: GoalView::Scan,
                    staged: seq![],
                    descs: seq![d1, d2],
                    desc: None,
                    malformed: false,
                    acked: true,
                },
                Some(OutcomeView::Scanned(seq![d1, d2])),
            )
        }),
{
    let none = Seq::<PayloadView>::empty();
    let d1 = merge_all(empty_desc(), fields1)->Some_0;
    let d2 = merge_all(empty_desc(), fields2)->Some_0;
    let e = line_of(epandesc_frame());
    let okf = PayloadView { name: ok_name(), args: seq![] };
    let x0 = seq![line_of(okf), line_of(b1)];
    let blk1 = seq![e] + field_lines(fields1) + seq![line_of(b2)];
    let blk2 = seq![e] + field_lines(fields2) + seq![line_of(ev)];
    let w0 = fresh(GoalView::Scan);
    // the command's OK
    assert(space_free(okf.name));
    lemma_line_frame(okf);
    assert(okf.name != fail_name());
    assert(okf.name != epandesc_name());
    let wa = WaitView { acked: true, ..w0 };
    assert(none.push(okf)[0] == okf);
    assert(none.push(okf).drop_first() =~= none);
    assert(classify(w0, okf) == ClassView::Consume(wa));
    assert(take(none, w0, okf) == (none, wa, None::<OutcomeView>));
    assert(run(none, wa) == (none, wa, None::<OutcomeView>));
    assert(run(none.push(okf), w0) == (none, wa, None::<OutcomeView>));
    assert(feed_line(none, w0, line_of(okf)) == (none, wa, None::<OutcomeView>));
    // b1, passed over
    lemma_line_frame(b1);
    let wb = WaitView { staged: seq![b1], ..wa };
    assert(none.push(b1)[0] == b1);
    assert(none.push(b1).drop_first() =~= none);
    assert(classify(wa, b1) == ClassView::Continue);
    assert(none.push(b1) =~= seq![b1]);
    assert(wa.staged.push(b1) =~= seq![b1]);
    assert(take(none, wa, b1) == (none, wb, None::<OutcomeView>));
    assert(run(none, wb) == (none, wb, None::<OutcomeView>));
    assert(run(none.push(b1), wa) == (none, wb, None::<OutcomeView>));
    assert(feed_line(none, wa, line_of(b1)) == (none, wb, None::<OutcomeView>));
    lemma_feed_all_one(wa.staged, wa, line_of(b1));
    lemma_feed_all_append(none, w0, seq![line_of(okf)], seq![line_of(b1)]);
    lemma_feed_all_one(none, w0, line_of(okf));
    assert(seq![line_of(okf)] + seq![line_of(b1)] =~= x0);
    assert(feed_all(none, w0, x0) == (none, wb, None::<OutcomeView>));
    // the first block, ended by b2
    lemma_descriptor_block(wb, fields1, b2);
    lemma_line_frame(b2);
    let wb1 = WaitView { descs: seq![d1], ..wb };
    assert(wb.descs.push(d1) =~= seq![d1]);
    let wc = WaitView { staged: seq![b1, b2], ..wb1 };
    assert(none.push(b2)[0] == b2);
    assert(none.push(b2).drop_first() =~= none);
    assert(classify(wb1, b2) == ClassView::Continue);
    assert(wb1.staged.push(b2) =~= seq![b1, b2]);
    assert(take(none, wb1, b2) == (none, wc, None::<OutcomeView>));
    assert(run(none, wc) == (none, wc, None::<OutcomeView>));
    assert(run(none.push(b2), wb1) == (none, wc, None::<OutcomeView>));
    assert(feed_all(none, wb, blk1) == (none, wc, None::<OutcomeView>));
    // the second block, ended by the event
    lemma_descriptor_block(wc, fields2, ev);
    lemma_line_frame(ev);
    let wd = WaitView { descs: seq![d1, d2], ..wc };
    assert(wc.descs.push(d2) =~= seq![d1, d2]);
    assert(none.push(ev)[0] == ev);
    assert(ev.name == crate::event::event_name());
    assert(ev.name != epandesc_name());
    assert(classify(wd, ev) == ClassView::Finish(OutcomeView::Scanned(seq![d1, d2])));
    assert(wd.staged + none.push(ev).drop_first() =~= seq![b1, b2]);
    assert(take(none, wd, ev) == (
        seq![b1, b2],
        WaitView { staged: seq![], ..wd },
        Some(OutcomeView::Scanned(seq![d1, d2])),
    ));
    assert(run(none.push(ev), wd) == (
        seq![b1, b2],
        WaitView { staged: seq![], ..wd },
        Some(OutcomeView::Scanned(seq![d1, d2])),
    ));
    lemma_feed_all_append(none, w0, x0, blk1);
    lemma_feed_all_append(none, w0, x0 + blk1, blk2);
    assert(x0 + (blk1) + blk2 =~= x0 + blk1 + blk2);
}

proof fn lemma_pass_line(w: WaitView, f: PayloadView)
    requires
        plain_frame(f),
        !is_echo_name(f.name),
        w.desc is None,
        classify(w, f) is Continue,
    ensures
        feed_line(seq![], w, line_of(f)) == (
            Seq::<PayloadView>::empty(),
            WaitView { staged: w.staged.push(f), ..w },
            None::<OutcomeView>,
        ),
{
    let none = Seq::<PayloadView>::empty();
    lemma_line_frame(f);
    let w2 = WaitView { staged: w.staged.push(f), ..w };
    assert(none.push(f)[0] == f);
    assert(none.push(f).drop_first() =~= none);
    assert(take(none, w, f) == (none, w2, None::<OutcomeView>));
    assert(run(none, w2) == (none, w2, None::<OutcomeView>));
}

/// Reorder fairness over the lines that the module sends: a wait for a name, handed the lines
/// of two frames of other names that report no failure, then the line of a frame of that
/// name, ends with the last and leaves exactly the first two buffered, in order; it asks for
/// no line after it.
pub proof fn lemma_reorder_fairness_lines(t: Seq<u8>, a: PayloadView, b: PayloadView, x: PayloadView)
    requires
        plain_frame(a),
        plain_frame(b),
        plain_frame(x),
        !is_echo_name(a.name),
        !is_echo_name(b.name),
        !is_echo_name(x.name),
        a.name != t && a.name != fail_name(),
        b.name != t && b.name != fail_name(),
        x.name == t,
    ensures
        feed_all(seq![], fresh(GoalView::Name(t)), seq![line_of(a), line_of(b), line_of(x)]) == (
            seq![a, b],
            fresh(GoalView::Name(t)),
            Some(OutcomeView::Frame(x)),
        ),
{
    let none = Seq::<PayloadView>::empty();
    let w0 = fresh(GoalView::Name(t));
    let wa = WaitView { staged: w0.staged.push(a), ..w0 };
    let wb = WaitView { staged: wa.staged.push(b), ..wa };
    lemma_pass_line(w0, a);
    lemma_pass_line(wa, b);
    lemma_line_frame(x);
    assert(none.push(x)[0] == x);
    assert(none.push(x).drop_first() =~= none);
    assert(wb.staged =~= seq![a, b]);
    assert(wb.staged + none =~= seq![a, b]);
    assert(WaitView { staged: seq![], ..wb } == w0);
    assert(take(none, wb, x) == (seq![a, b], w0, Some(OutcomeView::Frame(x))));
    assert(feed_line(none, wb, line_of(x)) == (seq![a, b], w0, Some(OutcomeView::Frame(x))));
    let l = seq![line_of(a), line_of(b), line_of(x)];
    assert(l[0] == line_of(a));
    assert(l.drop_first()[0] == line_of(b));
    assert(l.drop_first().drop_first()[0] == line_of(x));
    let l1 = l.drop_first();
    let l2 = l1.drop_first();
    assert(feed_all(none, wb, l2) == feed_line(none, wb, line_of(x)));
    assert(feed_all(none, wa, l1) == feed_all(none, wb, l2));
    assert(feed_all(none, w0, l) == feed_all(none, wa, l1));
}

/// The conclusion of a frame handed to a wait.
pub enum WaitMap<T> {
    /// The wait used the frame up.
    Consume,
    /// The wait passed over the frame; it is kept for later.
    Continue(Payload),
    /// The wait ended.
    Finish(T),
}

/// What the caller does next for a wait.
pub enum Action {
    /// Read one line from the module and hand it to `feed`.
    ReadLine,
    /// The wait is over.
    Done(Outcome),
}

fn copy_descs(v: &Vec<EPanDesc>) -> (r: Vec<EPanDesc>)
    ensures
        r@ == v@,
{
    let mut out: Vec<EPanDesc> = Vec::new();
    let mut i: usize = 0;
    while i < v.len()
        invariant
            i <= v.len(),
            out@ == v@.subrange(0, i as int),
        decreases v.len() - i,
    {
        out.push(v[i]);
        proof {
            assert(out@ =~= v@.subrange(0, i + 1));
        }
        i = i + 1;
    }
    assert(out@ =~= v@);
    out
}

impl Wait {
    fn start(goal: Goal) -> (r: Wait)
        ensures
            r@ == fresh(goal@),
    {
        let r = Wait {
            goal,
            staged: Vec::new(),
            descs: Vec::new(),
            desc: None,
            malformed: false,
            acked: false,
        };
        assert(r@.staged =~= seq![]);
        assert(r@.descs =~= seq![]);
        r
    }

    /// A wait for the next frame.
    pub fn frame() -> (r: Wait)
        ensures
            r@ == fresh(GoalView::Frame),
    {
        Wait::start(Goal::Frame)
    }

    /// A wait for the first frame of a name.
    pub fn name(tag: Vec<u8>) -> (r: Wait)
        ensures
            r@ == fresh(GoalView::Name(tag@)),
    {
        Wait::start(Goal::Name(tag))
    }

    /// A wait for the `OK` that ends a command.
    pub fn ok() -> (r: Wait)
        ensures
            r@ == fresh(GoalView::Name(ok_name())),
    {
        Wait::start(Goal::Name(ok_marker()))
    }

    /// A wait for the reply of a query: the frame of the given name, then the `OK` that
    /// ends the command.
    pub fn response(tag: Vec<u8>) -> (r: Wait)
        ensures
            r@ == fresh(GoalView::Response(tag@)),
    {
        Wait::start(Goal::Response(tag))
    }

    /// A wait for the first event of a code.
    pub fn event(code: u8) -> (r: Wait)
        ensures
            r@ == fresh(GoalView::Event(code)),
    {
        Wait::start(Goal::Event(code))
    }

    /// A wait for the first event that passes a filter.
    pub fn event_where(filter: EventFilter) -> (r: Wait)
        ensures
            r@ == fresh(GoalView::EventWhere(filter)),
    {
        Wait::start(Goal::EventWhere(filter))
    }

    /// A wait for a line that holds an IPv6 address alone.
    pub fn address() -> (r: Wait)
        ensures
            r@ == fresh(GoalView::Address),
    {
        Wait::start(Goal::Address)
    }

    /// The wait of an active scan, begun when its command is sent.
    pub fn scan() -> (r: Wait)
        ensures
            r@ == fresh(GoalView::Scan),
    {
        Wait::start(Goal::Scan)
    }

    /// The wait of a network join, begun when its command is sent.
    pub fn join() -> (r: Wait)
        ensures
            r@ == fresh(GoalView::Join),
    {
        Wait::start(Goal::Join)
    }

    /// Whether a descriptor block is being read, so that the next line is one of its own.
    pub fn in_descriptor(&self) -> (r: bool)
        ensures
            r == self@.desc is Some,
    {
        self.desc.is_some()
    }

    /// Decides what this wait does with one frame.
    pub fn classify(&mut self, p: Payload) -> (r: WaitMap<Outcome>)
        requires
            old(self)@.desc is None,
        ensures
            match classify(old(self)@, p@) {
                ClassView::Consume(w2) => r is Consume && final(self)@ == w2,
                ClassView::Continue => r matches WaitMap::Continue(q) && q@ == p@ && final(self)@
                    == old(self)@,
                ClassView::Finish(o) => r matches WaitMap::Finish(x) && outcome_is(x, o)
                    && final(self)@ == old(self)@,
            },
    {
        let awaits = match &self.goal {
            Goal::Frame => false,
            Goal::Event(_) => false,
            Goal::EventWhere(_) => false,
            Goal::Scan => !self.acked,
            _ => true,
        };
        if awaits {
            let fail = fail_marker();
            let named_fail = match &self.goal {
                Goal::Name(t) => bytes_eq(t.as_slice(), fail.as_slice()),
                _ => false,
            };
            if !named_fail && bytes_eq(p.name.as_slice(), fail.as_slice()) {
                return WaitMap::Finish(Outcome::Failed(p));
            }
        }
        match &self.goal {
            Goal::Frame => WaitMap::Finish(Outcome::Frame(p)),
            Goal::Name(t) => {
                if bytes_eq(p.name.as_slice(), t.as_slice()) {
                    WaitMap::Finish(Outcome::Frame(p))
                } else {
                    WaitMap::Continue(p)
                }
            },
            Goal::Response(t) => {
                if bytes_eq(p.name.as_slice(), t.as_slice()) {
                    self.goal = Goal::ResponseAck(p);
                    WaitMap::Consume
                } else {
                    WaitMap::Continue(p)
                }
            },
            Goal::ResponseAck(r) => {
                let ok = ok_marker();
                if bytes_eq(p.name.as_slice(), ok.as_slice()) {
                    WaitMap::Finish(Outcome::Frame(r.copy()))
                } else {
                    WaitMap::Continue(p)
                }
            },
            Goal::Event(c) => {
                match Event::decode(&p) {
                    Ok(e) => {
                        if e.body.code() == *c {
                            WaitMap::Finish(Outcome::Event(e))
                        } else {
                            WaitMap::Continue(p)
                        }
                    },
                    Err(e) => {
                        let marker = event_marker();
                        if bytes_eq(p.name.as_slice(), marker.as_slice()) {
                            WaitMap::Finish(Outcome::Undecodable(e))
                        } else {
                            WaitMap::Continue(p)
                        }
                    },
                }
            },
            Goal::EventWhere(f) => {
                match Event::decode(&p) {
                    Ok(e) => {
                        if f.accepts(&e) {
                            WaitMap::Finish(Outcome::Event(e))
                        } else {
                            WaitMap::Continue(p)
                        }
                    },
                    Err(e) => {
                        let marker = event_marker();
                        if bytes_eq(p.name.as_slice(), marker.as_slice()) {
                            WaitMap::Finish(Outcome::Undecodable(e))
                        } else {
                            WaitMap::Continue(p)
                        }
                    },
                }
            },
            Goal::Address => {
                if p.args.len() == 0 && Ipv6Address::parse(p.name.as_slice()).is_ok() {
                    WaitMap::Finish(Outcome::Frame(p))
                } else {
                    WaitMap::Continue(p)
                }
            },
            Goal::Scan => {
                let marker = epandesc_marker();
                let ok = ok_marker();
                if bytes_eq(p.name.as_slice(), marker.as_slice()) {
                    self.desc = Some(EPanDesc::empty());
                    self.acked = true;
                    WaitMap::Consume
                } else if !self.acked && bytes_eq(p.name.as_slice(), ok.as_slice()) {
                    self.acked = true;
                    WaitMap::Consume
                } else {
                    let finished = match Event::decode(&p) {
                        Ok(e) => match e.body {
                            EventBody::ActiveScanFinished => true,
                            _ => false,
                        },
                        Err(_) => false,
                    };
                    if finished {
                        if self.malformed {
                            WaitMap::Finish(Outcome::Scanned(Err(crate::utils::DecodeError::Shape)))
                        } else {
                            WaitMap::Finish(Outcome::Scanned(Ok(copy_descs(&self.descs))))
                        }
                    } else {
                        WaitMap::Continue(p)
                    }
                }
            },
            Goal::Join => {
                let connected = match Event::decode(&p) {
                    Ok(e) => match e.body {
                        EventBody::PanaConnected => true,
                        _ => false,
                    },
                    Err(_) => false,
                };
                if connected {
                    self.goal = Goal::JoinAck;
                    WaitMap::Consume
                } else {
                    WaitMap::Continue(p)
                }
            },
            Goal::JoinAck => {
                let ok = ok_marker();
                if bytes_eq(p.name.as_slice(), ok.as_slice()) {
                    WaitMap::Finish(Outcome::Joined)
                } else {
                    WaitMap::Continue(p)
                }
            },
        }
    }
}

/// The protocol engine of one session: the frames that were read and not yet used, oldest
/// first.
pub struct Bp35c0 {
    buf: Vec<Payload>,
}

impl View for Bp35c0 {
    type V = Seq<PayloadView>;

    closed spec fn view(&self) -> Seq<PayloadView> {
        frames_view(self.buf@)
    }
}

impl Bp35c0 {
    /// A session with nothing buffered.
    pub fn new() -> (r: Bp35c0)
        ensures
            r@ == Seq::<PayloadView>::empty(),
    {
        let r = Bp35c0 { buf: Vec::new() };
        assert(r@ =~= Seq::<PayloadView>::empty());
        r
    }

    /// The bytes to write for a frame: its wire form, then CR LF.
    pub fn send_payload(payload: &Payload) -> (r: Vec<u8>)
        ensures
            r@ == wire(payload@) + seq![0x0Du8, 0x0Au8],
    {
        let mut r = payload.serialize();
        r.push(0x0D);
        r.push(0x0A);
        assert(r@ =~= wire(payload@) + seq![0x0Du8, 0x0Au8]);
        r
    }

    /// The bytes to write for a command's input.
    pub fn send<E: Encode>(input: &E) -> (r: Vec<u8>)
        ensures
            r@ == wire(input.frame()) + seq![0x0Du8, 0x0Au8],
    {
        let p = input.encode();
        Bp35c0::send_payload(&p)
    }

    /// The bytes that end whatever partial command the module holds: CR LF alone.
    pub fn send_crlf() -> (r: Vec<u8>)
        ensures
            r@ == seq![0x0Du8, 0x0Au8],
    {
        let r = vec![0x0Du8, 0x0A];
        assert(r@ =~= seq![0x0Du8, 0x0Au8]);
        r
    }

    /// The number of buffered frames.
    pub fn buffered(&self) -> (r: usize)
        ensures
            r == self@.len(),
    {
        self.buf.len()
    }

    /// The oldest buffered frame, taken out; `None` when nothing is buffered, and a line
    /// must be read.
    pub fn receive_payload(&mut self) -> (r: Option<Payload>)
        ensures
            old(self)@.len() == 0 ==> r is None && final(self)@ == old(self)@,
            old(self)@.len() > 0 ==> (r matches Some(p) && p@ == old(self)@[0] && final(self)@
                == old(self)@.drop_first()),
    {
        if self.buf.len() == 0 {
            None
        } else {
            let p = self.buf.remove(0);
            assert(self@ =~= old(self)@.drop_first());
            Some(p)
        }
    }

    /// Applies the conclusion of a wait on one frame: a frame passed over is staged; when
    /// the wait ends, its staged frames go back to the head of the buffer, in order.
    pub fn wait_map(&mut self, w: &mut Wait, m: WaitMap<Outcome>) -> (r: Option<Outcome>)
        ensures
            match m {
                WaitMap::Consume => r is None && final(self)@ == old(self)@ && final(w)@ == old(w)@,
                WaitMap::Continue(p) => r is None && final(self)@ == old(self)@ && final(w)@
                    == WaitView { staged: old(w)@.staged.push(p@), ..old(w)@ },
                WaitMap::Finish(o) => r == Some(o) && final(self)@ == old(w)@.staged + old(self)@
                    && final(w)@ == WaitView { staged: seq![], ..old(w)@ },
            },
    {
        match m {
            WaitMap::Consume => None,
            WaitMap::Continue(p) => {
                w.staged.push(p);
                assert(w@.staged =~= old(w)@.staged.push(p@));
                None
            },
            WaitMap::Finish(o) => {
                let mut staged: Vec<Payload> = Vec::new();
                core::mem::swap(&mut staged, &mut w.staged);
                staged.append(&mut self.buf);
                self.buf = staged;
                assert(self@ =~= old(w)@.staged + old(self)@);
                assert(w@.staged =~= seq![]);
                Some(o)
            },
        }
    }

    /// Runs a wait on the buffered frames, oldest first, until it ends, nothing is buffered,
    /// or a descriptor block needs lines of its own.
    pub fn poll(&mut self, w: &mut Wait) -> (r: Action)
        ensures
            ({
                let t = run(old(self)@, old(w)@);
                &&& final(self)@ == t.0
                &&& final(w)@ == t.1
                &&& match r {
                    Action::ReadLine => t.2 is None,
                    Action::Done(o) => t.2 is Some && outcome_is(o, t.2->Some_0),
                }
            }),
    {
        loop
            invariant
                run(self@, w@) == run(old(self)@, old(w)@),
            decreases self@.len(),
        {
            if w.desc.is_some() || self.buf.len() == 0 {
                return Action::ReadLine;
            }
            let ghost b0 = self@;
            let p = self.buf.remove(0);
            assert(self@ =~= b0.drop_first());
            let m = w.classify(p);
            let r = self.wait_map(w, m);
            match r {
                Some(o) => {
                    return Action::Done(o);
                },
                None => {},
            }
        }
    }

    /// Hands a line read from the module to a wait, and runs it on.
    pub fn feed(&mut self, w: &mut Wait, line: &[u8]) -> (r: Action)
        ensures
            ({
                let t = feed_line(old(self)@, old(w)@, line@);
                &&& final(self)@ == t.0
                &&& final(w)@ == t.1
                &&& match r {
                    Action::ReadLine => t.2 is None,
                    Action::Done(o) => t.2 is Some && outcome_is(o, t.2->Some_0),
                }
            }),
    {
        if w.desc.is_some() {
            let l = strip_line(line);
            self.receive_epandesc(w, l.as_slice());
        } else {
            match Bp35c0::receive_payload_unbuffered(line) {
                Some(p) => {
                    self.buf.push(p);
                    assert(self@ =~= old(self)@.push(p@));
                },
                None => {},
            }
        }
        self.poll(w)
    }

    /// One line of a descriptor block, its terminator removed: an indented line is merged
    /// into the descriptor being read; any other line ends the block and goes, as a frame,
    /// to the tail of the buffer.
    pub fn receive_epandesc(&mut self, w: &mut Wait, l: &[u8])
        requires
            old(w)@.desc is Some,
        ensures
            (final(self)@, final(w)@) == desc_line(old(self)@, old(w)@, l@),
    {
        let d = match w.desc {
            Some(d) => d,
            None => return,
        };
        if is_indented(l) {
            let mut d2 = d;
            match d2.merge_line(l) {
                Ok(()) => {
                    w.desc = Some(d2);
                },
                Err(_) => {
                    w.malformed = true;
                },
            }
        } else {
            w.descs.push(d);
            w.desc = None;
            assert(w@.descs =~= old(w)@.descs.push(d@));
            match Payload::parse(l) {
                Ok(p) => {
                    self.buf.push(p);
                    assert(self@ =~= old(self)@.push(p@));
                },
                Err(_) => {},
            }
        }
    }

    /// The frame that a line from the module brings: `None` for a line that names nothing,
    /// or for the echo of a command.
    pub fn receive_payload_unbuffered(line: &[u8]) -> (r: Option<Payload>)
        ensures
            match line_frame(line@) {
                Some(f) => r matches Some(p) && p@ == f,
                None => r is None,
            },
    {
        let l = strip_line(line);
        match Payload::parse(l.as_slice()) {
            Ok(p) => {
                if is_echo(p.name.as_slice()) {
                    None
                } else {
                    Some(p)
                }
            },
            Err(_) => None,
        }
    }
}

/// Whether a name is that of an echoed command.
pub fn is_echo(n: &[u8]) -> (r: bool)
    ensures
        r == is_echo_name(n@),
{
    (n.len() >= 2 && n[0] == 0x53 && n[1] == 0x4B) || (n.len() >= 1 && n[0] == 0x57) || (n.len()
        >= 1 && n[0] == 0x52)
}

/// A line without its terminator.
pub fn strip_line(line: &[u8]) -> (r: Vec<u8>)
    ensures
        r@ == strip_eol(line@),
{
    let mut v = copy_bytes(line);
    if v.len() > 0 && v[v.len() - 1] == 0x0A {
        v.pop();
    }
    if v.len() > 0 && v[v.len() - 1] == 0x0D {
        v.pop();
    }
    v
}

} // verus!
