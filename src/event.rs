use vstd::prelude::*;

use crate::payload::Payload;
use crate::utils::{bytes_eq, bytes_of_hex, copy_bytes, digit_value, is_hex_digit, is_hex_text, parse_hex_bytes, DecodeError};

pub mod epandesc;

verus! {

/// The name of a frame that notifies an event: `EVENT`.
pub open spec fn event_name() -> Seq<u8> {
    seq![0x45, 0x56, 0x45, 0x4E, 0x54]
}

pub fn event_marker() -> (r: Vec<u8>)
    ensures
        r@ == event_name(),
{
    let r = vec![0x45u8, 0x56, 0x45, 0x4E, 0x54];
    assert(r@ =~= event_name());
    r
}

/// An IPv6 address as its eight 16-bit segments.
#[derive(Clone, Copy, Debug, PartialEq, Eq)]
pub struct Ipv6Address {
    pub segments: [u16; 8],
}

/// A digit of an address: a hexadecimal digit of either case.
pub open spec fn is_addr_digit(b: u8) -> bool {
    is_hex_digit(b) || (0x61 <= b <= 0x66)
}

/// The value of a digit of an address.
pub open spec fn addr_digit_value(b: u8) -> u8 {
    if b >= 0x61 {
        (b - 0x57) as u8
    } else {
        digit_value(b)
    }
}

fn addr_digit(b: u8) -> (r: Option<u8>)
    ensures
        r == (if is_addr_digit(b) { Some(addr_digit_value(b)) } else { None::<u8> }),
{
    if 0x61 <= b && b <= 0x66 {
        Some(b - 0x57)
    } else {
        crate::utils::atoi(b)
    }
}

/// The byte that separates the groups of an address.
pub const COLON: u8 = 0x3A;

/// The pieces of a text between colons, empty ones kept.
pub open spec fn split_colons(s: Seq<u8>) -> Seq<Seq<u8>>
    decreases s.len(),
{
    if s.len() == 0 {
        seq![seq![]]
    } else {
        let p = split_colons(s.drop_last());
        if s.last() == COLON {
            p.push(seq![])
        } else {
            p.update(p.len() - 1, p.last().push(s.last()))
        }
    }
}

pub proof fn lemma_split_colons_nonempty(s: Seq<u8>)
    ensures
        split_colons(s).len() >= 1,
    decreases s.len(),
{
    if s.len() > 0 {
        lemma_split_colons_nonempty(s.drop_last());
    }
}

/// A group of an address: one to four hex digits of either case.
pub open spec fn is_group(g: Seq<u8>) -> bool {
    &&& 1 <= g.len() <= 4
    &&& forall|i: int| 0 <= i < g.len() ==> is_addr_digit(#[trigger] g[i])
}

/// The value of a group's digits.
pub open spec fn group_val(g: Seq<u8>) -> int
    decreases g.len(),
{
    if g.len() == 0 {
        0
    } else {
        group_val(g.drop_last()) * 16 + addr_digit_value(g.last())
    }
}

/// The segments that colon-separated groups give; empty text gives none.
pub open spec fn groups_of(x: Seq<u8>) -> Option<Seq<u16>> {
    let ts = split_colons(x);
    if x.len() == 0 {
        Some(seq![])
    } else if forall|k: int| 0 <= k < ts.len() ==> is_group(#[trigger] ts[k]) {
        Some(Seq::new(ts.len(), |k: int| group_val(ts[k]) as u16))
    } else {
        None
    }
}

/// The first place from `i` on where two colons follow each other; `-1` if there is none.
pub open spec fn double_colon_from(t: Seq<u8>, i: int) -> int
    decreases t.len() - i,
{
    if i < 0 || i + 1 >= t.len() {
        -1
    } else if t[i] == COLON && t[i + 1] == COLON {
        i
    } else {
        double_colon_from(t, i + 1)
    }
}

/// The segments that the text of an IPv6 address denotes: eight groups, or groups before
/// and after one `::` that stands for as many zero segments as make eight, at least one.
pub open spec fn address_text_of(t: Seq<u8>) -> Option<Seq<u16>> {
    let i = double_colon_from(t, 0);
    if i < 0 {
        match groups_of(t) {
            Some(g) => if g.len() == 8 {
                Some(g)
            } else {
                None
            },
            None => None,
        }
    } else {
        match (groups_of(t.subrange(0, i)), groups_of(t.subrange(i + 2, t.len() as int))) {
            (Some(a), Some(b)) => if a.len() + b.len() <= 7 {
                Some(a + Seq::new((8 - a.len() - b.len()) as nat, |k: int| 0u16) + b)
            } else {
                None
            },
            _ => None,
        }
    }
}

/// Whether a text is that of an IPv6 address.
pub open spec fn is_address_text(t: Seq<u8>) -> bool {
    address_text_of(t) is Some
}

/// The address that its text names.
pub open spec fn address_of(t: Seq<u8>) -> Seq<u16> {
    address_text_of(t)->Some_0
}

pub open spec fn pow16(d: int) -> int
    decreases d,
{
    if d <= 0 {
        1
    } else {
        16 * pow16(d - 1)
    }
}

proof fn lemma_group_val_bound(g: Seq<u8>)
    requires
        forall|i: int| 0 <= i < g.len() ==> is_addr_digit(#[trigger] g[i]),
    ensures
        0 <= group_val(g) < pow16(g.len() as int),
    decreases g.len(),
{
    if g.len() > 0 {
        let h = g.drop_last();
        assert forall|i: int| 0 <= i < h.len() implies is_addr_digit(#[trigger] h[i]) by {
            assert(h[i] == g[i]);
        }
        lemma_group_val_bound(h);
        assert(is_addr_digit(g[g.len() - 1]));
    }
}

proof fn lemma_pow16_small()
    ensures
        pow16(0) == 1,
        pow16(1) == 16,
        pow16(2) == 256,
        pow16(3) == 4096,
        pow16(4) == 65536,
{
    assert(pow16(1) == 16 * pow16(0));
    assert(pow16(2) == 16 * pow16(1));
    assert(pow16(3) == 16 * pow16(2));
    assert(pow16(4) == 16 * pow16(3));
}

/// Whether the groups read so far can still all be groups: those that a colon ended are,
/// and the last one is not yet too long.
pub open spec fn groups_so_far(ts: Seq<Seq<u8>>) -> bool {
    &&& forall|k: int| 0 <= k < ts.len() - 1 ==> is_group(#[trigger] ts[k])
    &&& ts.last().len() <= 4
    &&& forall|i: int| 0 <= i < ts.last().len() ==> is_addr_digit(#[trigger] ts.last()[i])
}

/// Reads colon-separated groups.
fn parse_groups(x: &[u8]) -> (r: Option<Vec<u16>>)
    ensures
        match groups_of(x@) {
            Some(g) => r matches Some(v) && v@ == g,
            None => r is None,
        },
{
    if x.len() == 0 {
        let v: Vec<u16> = Vec::new();
        assert(v@ =~= seq![]);
        return Some(v);
    }
    let mut vals: Vec<u16> = Vec::new();
    let mut cur: u32 = 0;
    let mut cnt: usize = 0;
    let mut bad = false;
    let mut i: usize = 0;
    proof {
        lemma_pow16_small();
    }
    while i < x.len()
        invariant
            i <= x.len(),
            pow16(4) == 65536,
            ({
                let ts = split_colons(x@.subrange(0, i as int));
                &&& ts.len() >= 1
                &&& bad == !groups_so_far(ts)
                &&& !bad ==> {
                    &&& vals@ == Seq::new((ts.len() - 1) as nat, |k: int| group_val(ts[k]) as u16)
                    &&& cur as int == group_val(ts.last())
                    &&& cnt == ts.last().len()
                }
            }),
        decreases x.len() - i,
    {
        let ghost s0 = x@.subrange(0, i as int);
        let ghost ts0 = split_colons(s0);
        let c = x[i];
        let ghost s1 = x@.subrange(0, i + 1);
        proof {
            assert(s1.drop_last() =~= s0);
            assert(s1.last() == c);
            lemma_split_colons_nonempty(s0);
        }
        let ghost ts1 = split_colons(s1);
        if c == COLON {
            assert(ts1 == ts0.push(seq![]));
            if !bad {
                if cnt == 0 {
                    assert(!is_group(ts1[ts0.len() - 1]));
                    bad = true;
                } else {
                    proof {
                        lemma_group_val_bound(ts0.last());
                    }
                    vals.push(cur as u16);
                    cur = 0;
                    cnt = 0;
                    assert(vals@ =~= Seq::new((ts1.len() - 1) as nat, |k: int| group_val(ts1[k]) as u16));
                    assert(groups_so_far(ts1)) by {
                        assert forall|k: int| 0 <= k < ts1.len() - 1 implies is_group(#[trigger] ts1[k]) by {
                            assert(ts1[k] == ts0[k]);
                        }
                    }
                }
            } else {
                assert(!groups_so_far(ts1)) by {
                    if groups_so_far(ts1) {
                        assert forall|k: int| 0 <= k < ts0.len() - 1 implies is_group(#[trigger] ts0[k]) by {
                            assert(ts1[k] == ts0[k]);
                        }
                        assert(is_group(ts1[ts0.len() - 1]));
                    }
                }
            }
        } else {
            let ghost last = ts0.last();
            assert(ts1 == ts0.update(ts0.len() - 1, last.push(c)));
            assert(ts1.last() == last.push(c));
            assert forall|k: int| 0 <= k < ts1.len() - 1 implies ts1[k] == ts0[k] by {}
            if bad {
                assert(!groups_so_far(ts1)) by {
                    if groups_so_far(ts1) {
                        assert forall|j: int| 0 <= j < last.len() implies is_addr_digit(#[trigger] last[j]) by {
                            assert(ts1.last()[j] == last[j]);
                        }
                        assert forall|k: int| 0 <= k < ts0.len() - 1 implies is_group(#[trigger] ts0[k]) by {
                            assert(ts1[k] == ts0[k]);
                        }
                    }
                }
            } else {
                match addr_digit(c) {
                    None => {
                        assert(!is_addr_digit(ts1.last()[last.len() as int]));
                        bad = true;
                    },
                    Some(d) => {
                        if cnt == 4 {
                            bad = true;
                        } else {
                            proof {
                                lemma_group_val_bound(last);
                                assert(pow16(last.len() as int) <= 4096) by {
                                    lemma_pow16_small();
                                }
                                assert(last.push(c).drop_last() =~= last);
                            }
                            cur = cur * 16 + d as u32;
                            cnt = cnt + 1;
                            assert(vals@ =~= Seq::new((ts1.len() - 1) as nat, |k: int| group_val(ts1[k]) as u16));
                            assert(groups_so_far(ts1)) by {
                                assert forall|j: int| 0 <= j < ts1.last().len() implies is_addr_digit(#[trigger] ts1.last()[j]) by {
                                    if j < last.len() {
                                        assert(ts1.last()[j] == last[j]);
                                    }
                                }
                            }
                        }
                    },
                }
            }
        }
        i = i + 1;
    }
    let ghost ts = split_colons(x@);
    assert(x@.subrange(0, i as int) =~= x@);
    if bad || cnt == 0 {
        assert(!(forall|k: int| 0 <= k < ts.len() ==> is_group(#[trigger] ts[k]))) by {
            if !bad {
                assert(!is_group(ts[ts.len() - 1]));
            } else if forall|k: int| 0 <= k < ts.len() ==> is_group(#[trigger] ts[k]) {
                assert(is_group(ts[ts.len() - 1]));
            }
        }
        return None;
    }
    proof {
        lemma_group_val_bound(ts.last());
    }
    vals.push(cur as u16);
    assert(vals@ =~= Seq::new(ts.len(), |k: int| group_val(ts[k]) as u16));
    assert(forall|k: int| 0 <= k < ts.len() ==> is_group(#[trigger] ts[k])) by {
        assert forall|k: int| 0 <= k < ts.len() implies is_group(#[trigger] ts[k]) by {
            if k < ts.len() - 1 {
            }
        }
    }
    Some(vals)
}

/// The first place where two colons follow each other.
fn find_double_colon(t: &[u8]) -> (r: Option<usize>)
    ensures
        match r {
            Some(i) => i as int == double_colon_from(t@, 0) && i + 1 < t@.len(),
            None => double_colon_from(t@, 0) < 0,
        },
{
    if t.len() < 2 {
        return None;
    }
    let mut i: usize = 0;
    while i < t.len() - 1
        invariant
            t.len() >= 2,
            double_colon_from(t@, 0) == double_colon_from(t@, i as int),
        decreases t.len() - i,
    {
        if t[i] == COLON && t[i + 1] == COLON {
            return Some(i);
        }
        i = i + 1;
    }
    None
}

impl Ipv6Address {
    /// Reads the text of an IPv6 address: eight groups of one to four hex digits of either
    /// case, or fewer around one `::`, as `FE80::1D:1290:1234:5678`.
    pub fn parse(t: &[u8]) -> (r: Result<Ipv6Address, DecodeError>)
        ensures
            r is Ok <==> is_address_text(t@),
            r is Ok ==> r->Ok_0.segments@ == address_of(t@),
            r is Err ==> r->Err_0 == DecodeError::Shape,
    {
        let mut segments = [0u16; 8];
        match find_double_colon(t) {
            None => {
                let g = match parse_groups(t) {
                    Some(g) => g,
                    None => return Err(DecodeError::Shape),
                };
                if g.len() != 8 {
                    return Err(DecodeError::Shape);
                }
                let mut k: usize = 0;
                while k < 8
                    invariant
                        k <= 8,
                        g@.len() == 8,
                        forall|j: int| 0 <= j < k ==> segments@[j] == g@[j],
                    decreases 8 - k,
                {
                    segments[k] = g[k];
                    k = k + 1;
                }
                assert(segments@ =~= g@);
            },
            Some(i) => {
                let n = t.len();
                assert(i + 1 < n);
                let head = crate::utils::head_bytes(t, i);
                let tail = crate::utils::tail_bytes(t, i + 2);
                let a = match parse_groups(head.as_slice()) {
                    Some(a) => a,
                    None => return Err(DecodeError::Shape),
                };
                let b = match parse_groups(tail.as_slice()) {
                    Some(b) => b,
                    None => return Err(DecodeError::Shape),
                };
                if a.len() > 7 || b.len() > 7 - a.len() {
                    return Err(DecodeError::Shape);
                }
                let ghost want = a@ + Seq::new((8 - a@.len() - b@.len()) as nat, |k: int| 0u16) + b@;
                let mut k: usize = 0;
                while k < a.len()
                    invariant
                        k <= a.len(),
                        a.len() + b.len() <= 7,
                        forall|j: int| 0 <= j < k ==> segments@[j] == a@[j],
                        forall|j: int| k <= j < 8 ==> segments@[j] == 0,
                    decreases a.len() - k,
                {
                    segments[k] = a[k];
                    k = k + 1;
                }
                let off = 8 - b.len();
                let mut k: usize = 0;
                while k < b.len()
                    invariant
                        k <= b.len(),
                        off == 8 - b.len(),
                        a.len() + b.len() <= 7,
                        forall|j: int| 0 <= j < a.len() ==> segments@[j] == a@[j],
                        forall|j: int| a.len() <= j < off ==> segments@[j] == 0,
                        forall|j: int| 0 <= j < k ==> segments@[off + j] == b@[j],
                    decreases b.len() - k,
                {
                    segments[off + k] = b[k];
                    k = k + 1;
                }
                assert(segments@ =~= want);
            },
        }
        Ok(Ipv6Address { segments })
    }
}

/// The result that a `UDPSendFinished` event reports.
#[derive(Clone, Copy, Debug, PartialEq, Eq, Structural)]
pub enum UDPSendResult {
    Success,
    Failure,
    NSDispatched,
}

pub open spec fn send_result_of(b: u8) -> Option<UDPSendResult> {
    if b == 0 {
        Some(UDPSendResult::Success)
    } else if b == 1 {
        Some(UDPSendResult::Failure)
    } else if b == 2 {
        Some(UDPSendResult::NSDispatched)
    } else {
        None
    }
}

impl UDPSendResult {
    pub fn from_code(b: u8) -> (r: Option<UDPSendResult>)
        ensures
            r == send_result_of(b),
    {
        if b == 0 {
            Some(UDPSendResult::Success)
        } else if b == 1 {
            Some(UDPSendResult::Failure)
        } else if b == 2 {
            Some(UDPSendResult::NSDispatched)
        } else {
            None
        }
    }
}

/// An event notification, classified by its code.
#[derive(Clone, Copy, Debug, PartialEq, Eq, Structural)]
pub enum EventBody {
    NSReceived,
    NAReceived,
    EchoRequest,
    EDScanFinished,
    Beacon,
    UDPSendFinished { result: UDPSendResult },
    ActiveScanFinished,
    PanaError,
    PanaConnected,
    PanaTerminationRequest,
    PanaTerminated,
    PanaTerminationTimeout,
    PanaTimedOut,
    Arib108QuotaExceeded,
    Arib108QuotaRecovered,
    InvalidCipherReceived { actual: u8 },
    KeyUpdateTimedOut,
    KeyUpdateRequested,
    KeyUpdateResponse,
    KeyUpdateNoResponse,
    KeyRequest,
    KeyDistributionStarted,
    KeyDistributionFinished,
    InitialSetupStarted,
    InitialSetupFinished,
}

/// The byte that an event's parameter holds as two hex digits.
pub open spec fn param_byte(param: Option<Seq<u8>>) -> Option<u8> {
    match param {
        Some(p) => if p.len() == 2 && is_hex_text(p) {
            Some(bytes_of_hex(p)[0])
        } else {
            None
        },
        None => None,
    }
}

/// The variant that an event code and its parameter stand for; `None` for a code outside
/// the known set, or for a parameter that the variant needs and that is missing or malformed.
pub open spec fn body_of(code: u8, param: Option<Seq<u8>>) -> Option<EventBody> {
    match code {
        0x01 => Some(EventBody::NSReceived),
        0x02 => Some(EventBody::NAReceived),
        0x05 => Some(EventBody::EchoRequest),
        0x1F => Some(EventBody::EDScanFinished),
        0x20 => Some(EventBody::Beacon),
        0x21 => match param_byte(param) {
            Some(b) => match send_result_of(b) {
                Some(result) => Some(EventBody::UDPSendFinished { result }),
                None => None,
            },
            None => None,
        },
        0x22 => Some(EventBody::ActiveScanFinished),
        0x24 => Some(EventBody::PanaError),
        0x25 => Some(EventBody::PanaConnected),
        0x26 => Some(EventBody::PanaTerminationRequest),
        0x27 => Some(EventBody::PanaTerminated),
        0x28 => Some(EventBody::PanaTerminationTimeout),
        0x29 => Some(EventBody::PanaTimedOut),
        0x32 => Some(EventBody::Arib108QuotaExceeded),
        0x33 => Some(EventBody::Arib108QuotaRecovered),
        0x45 => match param_byte(param) {
            Some(actual) => Some(EventBody::InvalidCipherReceived { actual }),
            None => None,
        },
        0x46 => Some(EventBody::KeyUpdateTimedOut),
        0x50 => Some(EventBody::KeyUpdateRequested),
        0x51 => Some(EventBody::KeyUpdateResponse),
        0x52 => Some(EventBody::KeyUpdateNoResponse),
        0x53 => Some(EventBody::KeyRequest),
        0x54 => Some(EventBody::KeyDistributionStarted),
        0x55 => Some(EventBody::KeyDistributionFinished),
        0x56 => Some(EventBody::InitialSetupStarted),
        0x57 => Some(EventBody::InitialSetupFinished),
        _ => None,
    }
}

/// The code of each variant.
pub open spec fn code_of(b: EventBody) -> u8 {
    match b {
        EventBody::NSReceived => 0x01,
        EventBody::NAReceived => 0x02,
        EventBody::EchoRequest => 0x05,
        EventBody::EDScanFinished => 0x1F,
        EventBody::Beacon => 0x20,
        EventBody::UDPSendFinished { .. } => 0x21,
        EventBody::ActiveScanFinished => 0x22,
        EventBody::PanaError => 0x24,
        EventBody::PanaConnected => 0x25,
        EventBody::PanaTerminationRequest => 0x26,
        EventBody::PanaTerminated => 0x27,
        EventBody::PanaTerminationTimeout => 0x28,
        EventBody::PanaTimedOut => 0x29,
        EventBody::Arib108QuotaExceeded => 0x32,
        EventBody::Arib108QuotaRecovered => 0x33,
        EventBody::InvalidCipherReceived { .. } => 0x45,
        EventBody::KeyUpdateTimedOut => 0x46,
        EventBody::KeyUpdateRequested => 0x50,
        EventBody::KeyUpdateResponse => 0x51,
        EventBody::KeyUpdateNoResponse => 0x52,
        EventBody::KeyRequest => 0x53,
        EventBody::KeyDistributionStarted => 0x54,
        EventBody::KeyDistributionFinished => 0x55,
        EventBody::InitialSetupStarted => 0x56,
        EventBody::InitialSetupFinished => 0x57,
    }
}

fn byte_param(param: &Option<Vec<u8>>) -> (r: Option<u8>)
    ensures
        r == param_byte(opt_view(param)),
{
    match param {
        Some(p) => {
            if p.len() != 2 {
                return None;
            }
            match parse_hex_bytes(p.as_slice()) {
                Ok(b) => {
                    proof {
                        let h = p@;
                        assert(h.subrange(0, 0) =~= seq![]);
                        assert(h.subrange(0, h.len() - 2) =~= h.subrange(0, 0));
                    }
                    Some(b[0])
                },
                Err(_) => None,
            }
        },
        None => None,
    }
}

pub open spec fn opt_view(o: &Option<Vec<u8>>) -> Option<Seq<u8>> {
    match o {
        Some(v) => Some(v@),
        None => None,
    }
}

impl EventBody {
    /// Classifies an event code; an unknown code is an error, never a default.
    pub fn from_raw(code: u8, param: &Option<Vec<u8>>) -> (r: Result<EventBody, DecodeError>)
        ensures
            r is Ok <==> body_of(code, opt_view(param)) is Some,
            r is Err ==> r->Err_0 == body_error(code, opt_view(param)),
            r is Ok ==> r->Ok_0 == body_of(code, opt_view(param))->Some_0,
    {
        let body = match code {
            0x01 => EventBody::NSReceived,
            0x02 => EventBody::NAReceived,
            0x05 => EventBody::EchoRequest,
            0x1F => EventBody::EDScanFinished,
            0x20 => EventBody::Beacon,
            0x21 => {
                let b = match byte_param(param) {
                    Some(b) => b,
                    None => return Err(DecodeError::Shape),
                };
                match UDPSendResult::from_code(b) {
                    Some(result) => EventBody::UDPSendFinished { result },
                    None => return Err(DecodeError::Code),
                }
            },
            0x22 => EventBody::ActiveScanFinished,
            0x24 => EventBody::PanaError,
            0x25 => EventBody::PanaConnected,
            0x26 => EventBody::PanaTerminationRequest,
            0x27 => EventBody::PanaTerminated,
            0x28 => EventBody::PanaTerminationTimeout,
            0x29 => EventBody::PanaTimedOut,
            0x32 => EventBody::Arib108QuotaExceeded,
            0x33 => EventBody::Arib108QuotaRecovered,
            0x45 => match byte_param(param) {
                Some(actual) => EventBody::InvalidCipherReceived { actual },
                None => return Err(DecodeError::Shape),
            },
            0x46 => EventBody::KeyUpdateTimedOut,
            0x50 => EventBody::KeyUpdateRequested,
            0x51 => EventBody::KeyUpdateResponse,
            0x52 => EventBody::KeyUpdateNoResponse,
            0x53 => EventBody::KeyRequest,
            0x54 => EventBody::KeyDistributionStarted,
            0x55 => EventBody::KeyDistributionFinished,
            0x56 => EventBody::InitialSetupStarted,
            0x57 => EventBody::InitialSetupFinished,
            _ => return Err(DecodeError::Code),
        };
        Ok(body)
    }

    /// The event code of this variant.
    pub fn code(&self) -> (r: u8)
        ensures
            r == code_of(*self),
    {
        match self {
            EventBody::NSReceived => 0x01,
            EventBody::NAReceived => 0x02,
            EventBody::EchoRequest => 0x05,
            EventBody::EDScanFinished => 0x1F,
            EventBody::Beacon => 0x20,
            EventBody::UDPSendFinished { .. } => 0x21,
            EventBody::ActiveScanFinished => 0x22,
            EventBody::PanaError => 0x24,
            EventBody::PanaConnected => 0x25,
            EventBody::PanaTerminationRequest => 0x26,
            EventBody::PanaTerminated => 0x27,
            EventBody::PanaTerminationTimeout => 0x28,
            EventBody::PanaTimedOut => 0x29,
            EventBody::Arib108QuotaExceeded => 0x32,
            EventBody::Arib108QuotaRecovered => 0x33,
            EventBody::InvalidCipherReceived { .. } => 0x45,
            EventBody::KeyUpdateTimedOut => 0x46,
            EventBody::KeyUpdateRequested => 0x50,
            EventBody::KeyUpdateResponse => 0x51,
            EventBody::KeyUpdateNoResponse => 0x52,
            EventBody::KeyRequest => 0x53,
            EventBody::KeyDistributionStarted => 0x54,
            EventBody::KeyDistributionFinished => 0x55,
            EventBody::InitialSetupStarted => 0x56,
            EventBody::InitialSetupFinished => 0x57,
        }
    }
}

/// Who sent an event, and on which side.
#[derive(Clone, Copy, Debug, PartialEq, Eq)]
pub struct Header {
    pub sender: Ipv6Address,
    pub side: u8,
}

/// An event notification: its header and its classified body.
#[derive(Clone, Copy, Debug, PartialEq, Eq)]
pub struct Event {
    pub header: Header,
    pub body: EventBody,
}

/// An event frame's fields before classification.
#[derive(Clone, Debug)]
pub struct RawEvent {
    pub num: u8,
    pub sender: Ipv6Address,
    pub side: u8,
    pub param: Option<Vec<u8>>,
}

/// Whether a frame's fields have the shape of an event: the marker as name, a code of two
/// digits, the text of an IPv6 address, and a non-empty side.
pub open spec fn is_raw_event(name: Seq<u8>, args: Seq<Seq<u8>>) -> bool {
    &&& name == event_name()
    &&& args.len() >= 3
    &&& args[0].len() == 2
    &&& is_hex_text(args[0])
    &&& is_address_text(args[1])
    &&& args[2].len() > 0
}

/// Why a frame has not the shape of an event: another name, a missing argument or a code
/// not of two digits, a code that is not hex, or a malformed address or side.
pub open spec fn raw_event_error(name: Seq<u8>, args: Seq<Seq<u8>>) -> DecodeError {
    if name != event_name() {
        DecodeError::Name
    } else if args.len() < 3 || args[0].len() != 2 {
        DecodeError::Shape
    } else if !is_hex_text(args[0]) {
        DecodeError::Hex
    } else {
        DecodeError::Shape
    }
}

/// Why a code and parameter stand for no variant: a variant's parameter missing or malformed,
/// or an unknown code or send result.
pub open spec fn body_error(code: u8, param: Option<Seq<u8>>) -> DecodeError {
    if code == 0x45 || (code == 0x21 && param_byte(param) is None) {
        DecodeError::Shape
    } else {
        DecodeError::Code
    }
}

/// Why a frame notifies no event of the known set.
pub open spec fn event_error(name: Seq<u8>, args: Seq<Seq<u8>>) -> DecodeError {
    if is_raw_event(name, args) {
        body_error(bytes_of_hex(args[0])[0], param_of(args))
    } else {
        raw_event_error(name, args)
    }
}

/// The side that a side field names: `1` for a field that starts with `1`, else `0`.
pub open spec fn side_of(a: Seq<u8>) -> u8 {
    if a[0] == 0x31 {
        1
    } else {
        0
    }
}

/// The optional fourth argument of an event.
pub open spec fn param_of(args: Seq<Seq<u8>>) -> Option<Seq<u8>> {
    if args.len() > 3 {
        Some(args[3])
    } else {
        None
    }
}

/// The variant of the event that a frame notifies, if it is one.
pub open spec fn event_body_of(name: Seq<u8>, args: Seq<Seq<u8>>) -> Option<EventBody> {
    if is_raw_event(name, args) {
        body_of(bytes_of_hex(args[0])[0], param_of(args))
    } else {
        None
    }
}

/// Event classification: an event frame with code `22` is the end of an active scan, whatever
/// its parameter, and one with the unassigned code `99` is no event of the known set.
pub proof fn lemma_event_classification(args: Seq<Seq<u8>>)
    requires
        is_raw_event(event_name(), args),
    ensures
        bytes_of_hex(args[0])[0] == 0x22 ==> event_body_of(event_name(), args) == Some(
            EventBody::ActiveScanFinished,
        ),
        bytes_of_hex(args[0])[0] == 0x99 ==> event_body_of(event_name(), args) is None,
{
}

impl RawEvent {
    /// Reads the fields of an event frame.
    pub fn decode(p: &Payload) -> (r: Result<RawEvent, DecodeError>)
        ensures
            r is Ok <==> is_raw_event(p@.name, p@.args),
            r is Err ==> r->Err_0 == raw_event_error(p@.name, p@.args),
            r is Ok ==> {
                let e = r->Ok_0;
                &&& e.num == bytes_of_hex(p@.args[0])[0]
                &&& e.sender.segments@ == address_of(p@.args[1])
                &&& e.side == side_of(p@.args[2])
                &&& opt_view(&e.param) == param_of(p@.args)
            },
    {
        let marker = event_marker();
        if !bytes_eq(p.name.as_slice(), marker.as_slice()) {
            return Err(DecodeError::Name);
        }
        if p.args.len() < 3 {
            return Err(DecodeError::Shape);
        }
        assert(p@.args[0] == p.args@[0]@);
        assert(p@.args[1] == p.args@[1]@);
        assert(p@.args[2] == p.args@[2]@);
        if p.args[0].len() != 2 {
            return Err(DecodeError::Shape);
        }
        let num = match parse_hex_bytes(p.args[0].as_slice()) {
            Ok(b) => {
                proof {
                    let h = p@.args[0];
                    assert(h.subrange(0, h.len() - 2) =~= seq![]);
                }
                b[0]
            },
            Err(e) => return Err(e),
        };
        let sender = match Ipv6Address::parse(p.args[1].as_slice()) {
            Ok(a) => a,
            Err(e) => return Err(e),
        };
        if p.args[2].len() == 0 {
            return Err(DecodeError::Shape);
        }
        let side: u8 = if p.args[2][0] == 0x31 { 1 } else { 0 };
        let param = if p.args.len() > 3 {
            assert(p@.args[3] == p.args@[3]@);
            Some(copy_bytes(p.args[3].as_slice()))
        } else {
            None
        };
        Ok(RawEvent { num, sender, side, param })
    }
}

impl Event {
    /// Classifies an event frame: its fields are read, then its code is mapped to a variant.
    pub fn decode(p: &Payload) -> (r: Result<Event, DecodeError>)
        ensures
            r is Ok <==> event_body_of(p@.name, p@.args) is Some,
            r is Err ==> r->Err_0 == event_error(p@.name, p@.args),
            r is Ok ==> {
                &&& r->Ok_0.body == event_body_of(p@.name, p@.args)->Some_0
                &&& r->Ok_0.header.side == side_of(p@.args[2])
                &&& r->Ok_0.header.sender.segments@ == address_of(p@.args[1])
            },
    {
        let raw = match RawEvent::decode(p) {
            Ok(raw) => raw,
            Err(e) => return Err(e),
        };
        let body = match EventBody::from_raw(raw.num, &raw.param) {
            Ok(b) => b,
            Err(e) => return Err(e),
        };
        Ok(Event { header: Header { sender: raw.sender, side: raw.side }, body })
    }
}

} // verus!
