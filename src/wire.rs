//! The fixed-width binary layout of the messages.
//!
//! An enum is written as its variant index in one byte followed by its fields,
//! an `Option` as a tag byte (0 for `None`, 1 for `Some`) followed by the
//! value, integers in little-endian order, and a struct as its fields in
//! declaration order. A buffer parses only when it holds exactly one value.
use crate::date_time::SDateTime;
use crate::message::{Command, Funct, Payload, RejectReason, Response};
use vstd::bytes::*;
use vstd::prelude::*;

verus! {

/// Length of a date-time in the layout.
pub const DATE_TIME_WIRE_LEN: usize = 28;

/// Longest layout of a command.
pub const COMMAND_WIRE_MAX: usize = 38;

/// Longest layout of a response.
pub const RESPONSE_WIRE_MAX: usize = 49;

impl SDateTime {
    /// The layout of a date-time: its seven fields, four bytes each.
    pub open spec fn wire(self) -> Seq<u8> {
        spec_u32_to_le_bytes(self.year as u32) + spec_u32_to_le_bytes(self.month)
            + spec_u32_to_le_bytes(self.day) + spec_u32_to_le_bytes(self.hour)
            + spec_u32_to_le_bytes(self.minute) + spec_u32_to_le_bytes(self.second)
            + spec_u32_to_le_bytes(self.nanoseconds)
    }
}

impl Funct {
    /// The layout of a function.
    pub open spec fn wire(self) -> Seq<u8> {
        match self {
            Funct::Increment => seq![0u8],
            Funct::EnableBlink { period_ms } => seq![1u8] + spec_u64_to_le_bytes(period_ms),
            Funct::DisableBlink => seq![2u8],
            Funct::EnableRgb => seq![3u8],
            Funct::DisableRgb => seq![4u8],
        }
    }
}

/// The layout of an optional date-time.
pub open spec fn option_date_time_wire(t: Option<SDateTime>) -> Seq<u8> {
    match t {
        None => seq![0u8],
        Some(t) => seq![1u8] + t.wire(),
    }
}

impl Command {
    /// The layout of a command.
    pub open spec fn wire(self) -> Seq<u8> {
        match self {
            Command::Reset => seq![0u8],
            Command::Counter => seq![1u8],
            Command::SetDateTime(t) => seq![2u8] + option_date_time_wire(t),
            Command::Immediate(f) => seq![3u8] + f.wire(),
            Command::Schedule(f, t) => seq![4u8] + f.wire() + t.wire(),
        }
    }
}

impl Payload {
    /// The layout of a payload.
    pub open spec fn wire(self) -> Seq<u8> {
        match self {
            Payload::Counter(v) => seq![0u8] + spec_u64_to_le_bytes(v),
        }
    }
}

/// The layout of an optional payload.
pub open spec fn option_payload_wire(p: Option<Payload>) -> Seq<u8> {
    match p {
        None => seq![0u8],
        Some(p) => seq![1u8] + p.wire(),
    }
}

impl RejectReason {
    /// The layout of a reject reason: its variant index.
    pub open spec fn wire(self) -> Seq<u8> {
        match self {
            RejectReason::CorruptedFrame => seq![0u8],
            RejectReason::IllegalCommand => seq![1u8],
            RejectReason::NotImplemented => seq![2u8],
            RejectReason::InternalError => seq![3u8],
        }
    }
}

impl Response {
    /// The layout of a response.
    pub open spec fn wire(self) -> Seq<u8> {
        match self {
            Response::Accepted(p) => seq![0u8] + option_payload_wire(p),
            Response::Rejected(r) => seq![1u8] + r.wire(),
            Response::OkRecovered(p, c) => seq![2u8] + option_payload_wire(p) + c.wire(),
        }
    }
}

/// The date-time laid out in exactly `s`.
pub open spec fn parse_date_time(s: Seq<u8>) -> Option<SDateTime> {
    if s.len() == 28 {
        Some(
            SDateTime {
                year: spec_u32_from_le_bytes(s.subrange(0, 4)) as i32,
                month: spec_u32_from_le_bytes(s.subrange(4, 8)),
                day: spec_u32_from_le_bytes(s.subrange(8, 12)),
                hour: spec_u32_from_le_bytes(s.subrange(12, 16)),
                minute: spec_u32_from_le_bytes(s.subrange(16, 20)),
                second: spec_u32_from_le_bytes(s.subrange(20, 24)),
                nanoseconds: spec_u32_from_le_bytes(s.subrange(24, 28)),
            },
        )
    } else {
        None
    }
}

/// The function laid out in exactly `s`.
pub open spec fn parse_funct(s: Seq<u8>) -> Option<Funct> {
    if s.len() == 1 {
        if s[0] == 0 {
            Some(Funct::Increment)
        } else if s[0] == 2 {
            Some(Funct::DisableBlink)
        } else if s[0] == 3 {
            Some(Funct::EnableRgb)
        } else if s[0] == 4 {
            Some(Funct::DisableRgb)
        } else {
            None
        }
    } else if s.len() == 9 && s[0] == 1 {
        Some(Funct::EnableBlink { period_ms: spec_u64_from_le_bytes(s.subrange(1, 9)) })
    } else {
        None
    }
}

/// The optional date-time laid out in exactly `s`.
pub open spec fn parse_option_date_time(s: Seq<u8>) -> Option<Option<SDateTime>> {
    if s.len() == 1 && s[0] == 0 {
        Some(None)
    } else if s.len() >= 1 && s[0] == 1 {
        match parse_date_time(s.subrange(1, s.len() as int)) {
            Some(t) => Some(Some(t)),
            None => None,
        }
    } else {
        None
    }
}

/// The command laid out in exactly `s`.
pub open spec fn parse_command(s: Seq<u8>) -> Option<Command> {
    if s.len() == 0 {
        None
    } else {
        let body = s.subrange(1, s.len() as int);
        if s[0] == 0 {
            if body.len() == 0 {
                Some(Command::Reset)
            } else {
                None
            }
        } else if s[0] == 1 {
            if body.len() == 0 {
                Some(Command::Counter)
            } else {
                None
            }
        } else if s[0] == 2 {
            match parse_option_date_time(body) {
                Some(t) => Some(Command::SetDateTime(t)),
                None => None,
            }
        } else if s[0] == 3 {
            match parse_funct(body) {
                Some(f) => Some(Command::Immediate(f)),
                None => None,
            }
        } else if s[0] == 4 && body.len() >= 28 {
            let split = body.len() - 28;
            match (parse_funct(body.subrange(0, split)), parse_date_time(body.subrange(split, body.len() as int))) {
                (Some(f), Some(t)) => Some(Command::Schedule(f, t)),
                _ => None,
            }
        } else {
            None
        }
    }
}

/// The payload laid out in exactly `s`.
pub open spec fn parse_payload(s: Seq<u8>) -> Option<Payload> {
    if s.len() == 9 && s[0] == 0 {
        Some(Payload::Counter(spec_u64_from_le_bytes(s.subrange(1, 9))))
    } else {
        None
    }
}

/// The optional payload laid out in exactly `s`.
pub open spec fn parse_option_payload(s: Seq<u8>) -> Option<Option<Payload>> {
    if s.len() == 1 && s[0] == 0 {
        Some(None)
    } else if s.len() >= 1 && s[0] == 1 {
        match parse_payload(s.subrange(1, s.len() as int)) {
            Some(p) => Some(Some(p)),
            None => None,
        }
    } else {
        None
    }
}

/// Length of the optional payload whose layout starts with tag byte `tag`.
pub open spec fn option_payload_len(tag: u8) -> int {
    if tag == 1 {
        10
    } else {
        1
    }
}

/// The reject reason laid out in exactly `s`.
pub open spec fn parse_reject_reason(s: Seq<u8>) -> Option<RejectReason> {
    if s.len() != 1 {
        None
    } else if s[0] == 0 {
        Some(RejectReason::CorruptedFrame)
    } else if s[0] == 1 {
        Some(RejectReason::IllegalCommand)
    } else if s[0] == 2 {
        Some(RejectReason::NotImplemented)
    } else if s[0] == 3 {
        Some(RejectReason::InternalError)
    } else {
        None
    }
}

/// The response laid out in exactly `s`.
pub open spec fn parse_response(s: Seq<u8>) -> Option<Response> {
    if s.len() == 0 {
        None
    } else {
        let body = s.subrange(1, s.len() as int);
        if s[0] == 0 {
            match parse_option_payload(body) {
                Some(p) => Some(Response::Accepted(p)),
                None => None,
            }
        } else if s[0] == 1 {
            match parse_reject_reason(body) {
                Some(r) => Some(Response::Rejected(r)),
                None => None,
            }
        } else if s[0] == 2 && body.len() >= 1 && body.len() >= option_payload_len(body[0]) {
            let split = option_payload_len(body[0]);
            match (parse_option_payload(body.subrange(0, split)), parse_command(body.subrange(split, body.len() as int))) {
                (Some(p), Some(c)) => Some(Response::OkRecovered(p, c)),
                _ => None,
            }
        } else {
            None
        }
    }
}

proof fn lemma_i32_as_u32_round_trip(x: i32)
    ensures
        (x as u32) as i32 == x,
{
    assert((x as u32) as i32 == x) by (bit_vector);
}

/// Every date-time parses back from its layout.
pub proof fn lemma_date_time_round_trip(t: SDateTime)
    ensures
        t.wire().len() == 28,
        parse_date_time(t.wire()) == Some(t),
{
    lemma_auto_spec_u32_to_from_le_bytes();
    lemma_i32_as_u32_round_trip(t.year);
    let w = t.wire();
    assert(w.subrange(0, 4) =~= spec_u32_to_le_bytes(t.year as u32));
    assert(w.subrange(4, 8) =~= spec_u32_to_le_bytes(t.month));
    assert(w.subrange(8, 12) =~= spec_u32_to_le_bytes(t.day));
    assert(w.subrange(12, 16) =~= spec_u32_to_le_bytes(t.hour));
    assert(w.subrange(16, 20) =~= spec_u32_to_le_bytes(t.minute));
    assert(w.subrange(20, 24) =~= spec_u32_to_le_bytes(t.second));
    assert(w.subrange(24, 28) =~= spec_u32_to_le_bytes(t.nanoseconds));
}

/// Every function parses back from its layout.
pub proof fn lemma_funct_round_trip(f: Funct)
    ensures
        f.wire().len() == 1 || f.wire().len() == 9,
        f.wire().len() == 9 <==> f is EnableBlink,
        parse_funct(f.wire()) == Some(f),
{
    lemma_auto_spec_u64_to_from_le_bytes();
    if let Funct::EnableBlink { period_ms } = f {
        assert(f.wire().subrange(1, 9) =~= spec_u64_to_le_bytes(period_ms));
    }
}

/// Every command parses back from its layout, which is at most
/// `COMMAND_WIRE_MAX` bytes long.
pub proof fn lemma_command_round_trip(c: Command)
    ensures
        1 <= c.wire().len() <= COMMAND_WIRE_MAX,
        parse_command(c.wire()) == Some(c),
{
    let w = c.wire();
    let body = w.subrange(1, w.len() as int);
    match c {
        Command::Reset => {},
        Command::Counter => {},
        Command::SetDateTime(t) => {
            assert(body =~= option_date_time_wire(t));
            if let Some(t) = t {
                lemma_date_time_round_trip(t);
                assert(body.subrange(1, body.len() as int) =~= t.wire());
            }
        },
        Command::Immediate(f) => {
            lemma_funct_round_trip(f);
            assert(body =~= f.wire());
        },
        Command::Schedule(f, t) => {
            lemma_funct_round_trip(f);
            lemma_date_time_round_trip(t);
            let split = body.len() - 28;
            assert(body.subrange(0, split) =~= f.wire());
            assert(body.subrange(split, body.len() as int) =~= t.wire());
        },
    }
}

/// Every optional payload parses back from its layout, whose length its
/// first byte gives.
pub proof fn lemma_option_payload_round_trip(p: Option<Payload>)
    ensures
        option_payload_wire(p).len() == option_payload_len(option_payload_wire(p)[0]),
        parse_option_payload(option_payload_wire(p)) == Some(p),
{
    lemma_auto_spec_u64_to_from_le_bytes();
    if let Some(Payload::Counter(v)) = p {
        let w = option_payload_wire(p);
        assert(w.subrange(1, w.len() as int) =~= Payload::Counter(v).wire());
        assert(Payload::Counter(v).wire().subrange(1, 9) =~= spec_u64_to_le_bytes(v));
    }
}

/// Every response parses back from its layout, which is at most
/// `RESPONSE_WIRE_MAX` bytes long.
pub proof fn lemma_response_round_trip(r: Response)
    ensures
        1 <= r.wire().len() <= RESPONSE_WIRE_MAX,
        parse_response(r.wire()) == Some(r),
{
    let w = r.wire();
    let body = w.subrange(1, w.len() as int);
    match r {
        Response::Accepted(p) => {
            lemma_option_payload_round_trip(p);
            assert(body =~= option_payload_wire(p));
        },
        Response::Rejected(reason) => {
            assert(body =~= reason.wire());
        },
        Response::OkRecovered(p, c) => {
            lemma_option_payload_round_trip(p);
            lemma_command_round_trip(c);
            let split = option_payload_len(body[0]);
            assert(body.subrange(0, split) =~= option_payload_wire(p));
            assert(body.subrange(split, body.len() as int) =~= c.wire());
        },
    }
}

proof fn lemma_u32_as_i32_round_trip(x: u32)
    ensures
        (x as i32) as u32 == x,
{
    assert((x as i32) as u32 == x) by (bit_vector);
}

/// What parses as a date-time is that date-time's layout.
proof fn lemma_parse_date_time_exact(s: Seq<u8>)
    requires
        parse_date_time(s) is Some,
    ensures
        parse_date_time(s)->0.wire() == s,
{
    lemma_auto_spec_u32_to_from_le_bytes();
    lemma_u32_as_i32_round_trip(spec_u32_from_le_bytes(s.subrange(0, 4)));
    let t = parse_date_time(s)->0;
    assert(spec_u32_to_le_bytes(t.year as u32) == s.subrange(0, 4));
    assert(s =~= s.subrange(0, 4) + s.subrange(4, 8) + s.subrange(8, 12) + s.subrange(12, 16)
        + s.subrange(16, 20) + s.subrange(20, 24) + s.subrange(24, 28));
}

/// What parses as a function is that function's layout.
proof fn lemma_parse_funct_exact(s: Seq<u8>)
    requires
        parse_funct(s) is Some,
    ensures
        parse_funct(s)->0.wire() == s,
{
    lemma_auto_spec_u64_to_from_le_bytes();
    if s.len() == 9 {
        assert(s =~= seq![1u8] + s.subrange(1, 9));
    } else {
        assert(s =~= seq![s[0]]);
    }
}

/// What parses as a command is that command's layout.
proof fn lemma_parse_command_exact(s: Seq<u8>)
    requires
        parse_command(s) is Some,
    ensures
        parse_command(s)->0.wire() == s,
{
    let body = s.subrange(1, s.len() as int);
    assert(s =~= seq![s[0]] + body);
    if s[0] == 2 {
        if body.len() == 1 && body[0] == 0 {
            assert(body =~= seq![0u8]);
        } else {
            let rest = body.subrange(1, body.len() as int);
            lemma_parse_date_time_exact(rest);
            assert(body =~= seq![1u8] + rest);
        }
    } else if s[0] == 3 {
        lemma_parse_funct_exact(body);
    } else if s[0] == 4 {
        let split = body.len() - 28;
        lemma_parse_funct_exact(body.subrange(0, split));
        lemma_parse_date_time_exact(body.subrange(split, body.len() as int));
        assert(body =~= body.subrange(0, split) + body.subrange(split, body.len() as int));
        assert(s =~= seq![4u8] + body.subrange(0, split) + body.subrange(split, body.len() as int));
    }
}

/// What parses as an optional payload is that optional payload's layout.
proof fn lemma_parse_option_payload_exact(s: Seq<u8>)
    requires
        parse_option_payload(s) is Some,
    ensures
        option_payload_wire(parse_option_payload(s)->0) == s,
{
    lemma_auto_spec_u64_to_from_le_bytes();
    if s.len() == 1 {
        assert(s =~= seq![0u8]);
    } else {
        assert(s =~= seq![1u8] + (seq![0u8] + s.subrange(2, 10)));
    }
}

/// What parses as a response is that response's layout.
proof fn lemma_parse_response_exact(s: Seq<u8>)
    requires
        parse_response(s) is Some,
    ensures
        parse_response(s)->0.wire() == s,
{
    let body = s.subrange(1, s.len() as int);
    assert(s =~= seq![s[0]] + body);
    if s[0] == 0 {
        lemma_parse_option_payload_exact(body);
    } else if s[0] == 1 {
        assert(body =~= seq![body[0]]);
    } else {
        let split = option_payload_len(body[0]);
        lemma_parse_option_payload_exact(body.subrange(0, split));
        lemma_parse_command_exact(body.subrange(split, body.len() as int));
        assert(body =~= body.subrange(0, split) + body.subrange(split, body.len() as int));
        assert(s =~= seq![2u8] + body.subrange(0, split) + body.subrange(split, body.len() as int));
    }
}

/// Bytes parse as the command `c` exactly when they are the layout of `c`.
pub proof fn lemma_command_layout_exact(s: Seq<u8>, c: Command)
    ensures
        parse_command(s) == Some(c) <==> c.wire() == s,
{
    lemma_command_round_trip(c);
    if parse_command(s) is Some {
        lemma_parse_command_exact(s);
    }
}

/// Bytes parse as the response `r` exactly when they are the layout of `r`.
pub proof fn lemma_response_layout_exact(s: Seq<u8>, r: Response)
    ensures
        parse_response(s) == Some(r) <==> r.wire() == s,
{
    lemma_response_round_trip(r);
    if parse_response(s) is Some {
        lemma_parse_response_exact(s);
    }
}

fn push_u32(out: &mut Vec<u8>, x: u32)
    ensures
        final(out)@ == old(out)@ + spec_u32_to_le_bytes(x),
{
    let mut b = u32_to_le_bytes(x);
    out.append(&mut b);
}

fn push_u64(out: &mut Vec<u8>, x: u64)
    ensures
        final(out)@ == old(out)@ + spec_u64_to_le_bytes(x),
{
    let mut b = u64_to_le_bytes(x);
    out.append(&mut b);
}

fn write_date_time(t: &SDateTime, out: &mut Vec<u8>)
    ensures
        final(out)@ == old(out)@ + t.wire(),
{
    let ghost start = out@;
    push_u32(out, t.year as u32);
    push_u32(out, t.month);
    push_u32(out, t.day);
    push_u32(out, t.hour);
    push_u32(out, t.minute);
    push_u32(out, t.second);
    push_u32(out, t.nanoseconds);
    assert(out@ =~= start + t.wire());
}

fn write_funct(f: &Funct, out: &mut Vec<u8>)
    ensures
        final(out)@ == old(out)@ + f.wire(),
{
    let ghost start = out@;
    match f {
        Funct::Increment => out.push(0),
        Funct::EnableBlink { period_ms } => {
            out.push(1);
            push_u64(out, *period_ms);
        },
        Funct::DisableBlink => out.push(2),
        Funct::EnableRgb => out.push(3),
        Funct::DisableRgb => out.push(4),
    }
    assert(out@ =~= start + f.wire());
}

/// Appends the layout of `c` to `out`.
pub fn write_command(c: &Command, out: &mut Vec<u8>)
    ensures
        final(out)@ == old(out)@ + c.wire(),
{
    let ghost start = out@;
    match c {
        Command::Reset => out.push(0),
        Command::Counter => out.push(1),
        Command::SetDateTime(t) => {
            out.push(2);
            match t {
                None => out.push(0),
                Some(t) => {
                    out.push(1);
                    write_date_time(t, out);
                },
            }
        },
        Command::Immediate(f) => {
            out.push(3);
            write_funct(f, out);
        },
        Command::Schedule(f, t) => {
            out.push(4);
            write_funct(f, out);
            write_date_time(t, out);
        },
    }
    assert(out@ =~= start + c.wire());
}

fn write_option_payload(p: &Option<Payload>, out: &mut Vec<u8>)
    ensures
        final(out)@ == old(out)@ + option_payload_wire(*p),
{
    let ghost start = out@;
    match p {
        None => out.push(0),
        Some(Payload::Counter(v)) => {
            out.push(1);
            out.push(0);
            push_u64(out, *v);
        },
    }
    assert(out@ =~= start + option_payload_wire(*p));
}

/// Appends the layout of `r` to `out`.
pub fn write_response(r: &Response, out: &mut Vec<u8>)
    ensures
        final(out)@ == old(out)@ + r.wire(),
{
    let ghost start = out@;
    match r {
        Response::Accepted(p) => {
            out.push(0);
            write_option_payload(p, out);
        },
        Response::Rejected(reason) => {
            out.push(1);
            let b: u8 = match reason {
                RejectReason::CorruptedFrame => 0,
                RejectReason::IllegalCommand => 1,
                RejectReason::NotImplemented => 2,
                RejectReason::InternalError => 3,
            };
            out.push(b);
        },
        Response::OkRecovered(p, c) => {
            out.push(2);
            write_option_payload(p, out);
            write_command(c, out);
        },
    }
    assert(out@ =~= start + r.wire());
}

fn read_u32(s: &[u8], at: usize) -> (r: u32)
    requires
        at + 4 <= s@.len(),
    ensures
        r == spec_u32_from_le_bytes(s@.subrange(at as int, at + 4)),
{
    // A slice's length fits in `usize`, so `at + 4` does too.
    let len = s.len();
    assert(at + 4 <= len);
    u32_from_le_bytes(&s[at..at + 4])
}

fn read_u64(s: &[u8], at: usize) -> (r: u64)
    requires
        at + 8 <= s@.len(),
    ensures
        r == spec_u64_from_le_bytes(s@.subrange(at as int, at + 8)),
{
    // A slice's length fits in `usize`, so `at + 8` does too.
    let len = s.len();
    assert(at + 8 <= len);
    u64_from_le_bytes(&s[at..at + 8])
}

fn read_date_time(s: &[u8], lo: usize, hi: usize) -> (r: Option<SDateTime>)
    requires
        lo <= hi <= s@.len(),
    ensures
        r == parse_date_time(s@.subrange(lo as int, hi as int)),
{
    if hi - lo != DATE_TIME_WIRE_LEN {
        return None;
    }
    let ghost w = s@.subrange(lo as int, hi as int);
    assert(w.subrange(0, 4) =~= s@.subrange(lo as int, lo + 4));
    assert(w.subrange(4, 8) =~= s@.subrange(lo + 4, lo + 8));
    assert(w.subrange(8, 12) =~= s@.subrange(lo + 8, lo + 12));
    assert(w.subrange(12, 16) =~= s@.subrange(lo + 12, lo + 16));
    assert(w.subrange(16, 20) =~= s@.subrange(lo + 16, lo + 20));
    assert(w.subrange(20, 24) =~= s@.subrange(lo + 20, lo + 24));
    assert(w.subrange(24, 28) =~= s@.subrange(lo + 24, lo + 28));
    Some(
        SDateTime {
            year: read_u32(s, lo) as i32,
            month: read_u32(s, lo + 4),
            day: read_u32(s, lo + 8),
            hour: read_u32(s, lo + 12),
            minute: read_u32(s, lo + 16),
            second: read_u32(s, lo + 20),
            nanoseconds: read_u32(s, lo + 24),
        },
    )
}

fn read_funct(s: &[u8], lo: usize, hi: usize) -> (r: Option<Funct>)
    requires
        lo <= hi <= s@.len(),
    ensures
        r == parse_funct(s@.subrange(lo as int, hi as int)),
{
    let ghost w = s@.subrange(lo as int, hi as int);
    let len = hi - lo;
    if len == 1 {
        let tag = s[lo];
        if tag == 0 {
            Some(Funct::Increment)
        } else if tag == 2 {
            Some(Funct::DisableBlink)
        } else if tag == 3 {
            Some(Funct::EnableRgb)
        } else if tag == 4 {
            Some(Funct::DisableRgb)
        } else {
            None
        }
    } else if len == 9 && s[lo] == 1 {
        assert(w.subrange(1, 9) =~= s@.subrange(lo + 1, lo + 9));
        Some(Funct::EnableBlink { period_ms: read_u64(s, lo + 1) })
    } else {
        None
    }
}

fn read_option_date_time(s: &[u8], lo: usize, hi: usize) -> (r: Option<Option<SDateTime>>)
    requires
        lo <= hi <= s@.len(),
    ensures
        r == parse_option_date_time(s@.subrange(lo as int, hi as int)),
{
    let ghost w = s@.subrange(lo as int, hi as int);
    if hi - lo == 1 && s[lo] == 0 {
        Some(None)
    } else if hi - lo >= 1 && s[lo] == 1 {
        assert(w.subrange(1, w.len() as int) =~= s@.subrange(lo + 1, hi as int));
        match read_date_time(s, lo + 1, hi) {
            Some(t) => Some(Some(t)),
            None => None,
        }
    } else {
        None
    }
}

/// Parses the command laid out in exactly `s[lo..hi]`.
pub fn read_command(s: &[u8], lo: usize, hi: usize) -> (r: Option<Command>)
    requires
        lo <= hi <= s@.len(),
    ensures
        r == parse_command(s@.subrange(lo as int, hi as int)),
{
    let ghost w = s@.subrange(lo as int, hi as int);
    if hi == lo {
        return None;
    }
    let tag = s[lo];
    let body = lo + 1;
    assert(w.subrange(1, w.len() as int) =~= s@.subrange(body as int, hi as int));
    if tag == 0 {
        if body == hi {
            Some(Command::Reset)
        } else {
            None
        }
    } else if tag == 1 {
        if body == hi {
            Some(Command::Counter)
        } else {
            None
        }
    } else if tag == 2 {
        match read_option_date_time(s, body, hi) {
            Some(t) => Some(Command::SetDateTime(t)),
            None => None,
        }
    } else if tag == 3 {
        match read_funct(s, body, hi) {
            Some(f) => Some(Command::Immediate(f)),
            None => None,
        }
    } else if tag == 4 && hi - body >= DATE_TIME_WIRE_LEN {
        let split = hi - DATE_TIME_WIRE_LEN;
        let ghost b = s@.subrange(body as int, hi as int);
        assert(b.subrange(0, b.len() - 28) =~= s@.subrange(body as int, split as int));
        assert(b.subrange(b.len() - 28, b.len() as int) =~= s@.subrange(split as int, hi as int));
        match (read_funct(s, body, split), read_date_time(s, split, hi)) {
            (Some(f), Some(t)) => Some(Command::Schedule(f, t)),
            _ => None,
        }
    } else {
        None
    }
}

fn read_option_payload(s: &[u8], lo: usize, hi: usize) -> (r: Option<Option<Payload>>)
    requires
        lo <= hi <= s@.len(),
    ensures
        r == parse_option_payload(s@.subrange(lo as int, hi as int)),
{
    let ghost w = s@.subrange(lo as int, hi as int);
    if hi - lo == 1 && s[lo] == 0 {
        Some(None)
    } else if hi - lo == 10 && s[lo] == 1 && s[lo + 1] == 0 {
        assert(w.subrange(1, w.len() as int).subrange(1, 9) =~= s@.subrange(lo + 2, lo + 10));
        Some(Some(Payload::Counter(read_u64(s, lo + 2))))
    } else {
        None
    }
}

/// Parses the response laid out in exactly `s[lo..hi]`.
pub fn read_response(s: &[u8], lo: usize, hi: usize) -> (r: Option<Response>)
    requires
        lo <= hi <= s@.len(),
    ensures
        r == parse_response(s@.subrange(lo as int, hi as int)),
{
    let ghost w = s@.subrange(lo as int, hi as int);
    if hi == lo {
        return None;
    }
    let tag = s[lo];
    let body = lo + 1;
    assert(w.subrange(1, w.len() as int) =~= s@.subrange(body as int, hi as int));
    if tag == 0 {
        match read_option_payload(s, body, hi) {
            Some(p) => Some(Response::Accepted(p)),
            None => None,
        }
    } else if tag == 1 {
        if hi - body != 1 {
            return None;
        }
        let b = s[body];
        if b == 0 {
            Some(Response::Rejected(RejectReason::CorruptedFrame))
        } else if b == 1 {
            Some(Response::Rejected(RejectReason::IllegalCommand))
        } else if b == 2 {
            Some(Response::Rejected(RejectReason::NotImplemented))
        } else if b == 3 {
            Some(Response::Rejected(RejectReason::InternalError))
        } else {
            None
        }
    } else if tag == 2 && hi > body {
        let opt_len: usize = if s[body] == 1 {
            10
        } else {
            1
        };
        if hi - body < opt_len {
            return None;
        }
        let split = body + opt_len;
        let ghost b = s@.subrange(body as int, hi as int);
        assert(b.subrange(0, opt_len as int) =~= s@.subrange(body as int, split as int));
        assert(b.subrange(opt_len as int, b.len() as int) =~= s@.subrange(split as int, hi as int));
        match (read_option_payload(s, body, split), read_command(s, split, hi)) {
            (Some(p), Some(c)) => Some(Response::OkRecovered(p, c)),
            _ => None,
        }
    } else {
        None
    }
}

} // verus!
