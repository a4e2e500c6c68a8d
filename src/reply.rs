//! Recognising one reply in a byte stream.
//!
//! A reply is either a text line, ended by a line feed, or a binary block:
//! `#`, one digit `n`, `n` digits giving a length, that many payload bytes,
//! and a line ending. The grammar is stated once, as `reply_state` over the
//! bytes read so far; the decoders take one byte at a time and are proved to
//! follow it, so a caller reads exactly the bytes of one reply and no more.
//! A count digit of `0` is accepted: the length field is then empty and the
//! payload has length zero.
use vstd::prelude::*;
use crate::frame::{
    all_digits, crlf, digits_value, is_digit, lemma_digits_value_bound, pow10, remove_newline,
    strip_line_end, CR, HASH, LF, ZERO,
};

verus! {

/// What is wrong with a binary block.
#[derive(PartialEq, Eq, Structural, Clone, Copy, Debug)]
pub enum FrameFault {
    /// The byte after `#` is not a decimal digit.
    CountNotDigit,
    /// The length field holds a byte that is not a decimal digit.
    LengthNotDigits,
    /// Bytes other than a line ending follow the payload.
    TrailingBytes,
}

/// One decoded reply.
#[derive(PartialEq, Eq, Debug)]
pub enum Response {
    /// A text line, its line ending removed.
    Text(Vec<u8>),
    /// The payload of a binary block.
    Binary(Vec<u8>),
}

/// The result of handing one byte to a decoder.
#[derive(PartialEq, Eq, Debug)]
pub enum Step<T> {
    /// The reply is not complete yet.
    Pending,
    /// The byte completed a reply.
    Done(T),
    /// The byte showed that the block is malformed; the bytes of the
    /// reply up to here are consumed.
    Failed(FrameFault),
}

/// The meaning of a sequence of bytes read from the start of a reply.
pub enum Decoded {
    /// Not a whole reply yet.
    Pending,
    /// A complete text reply, its line ending removed.
    Text(Seq<u8>),
    /// A complete block, with its payload.
    Binary(Seq<u8>),
    /// A block that cannot be well-formed.
    Malformed(FrameFault),
}

/// The count digit of a block, as a number.
pub open spec fn count_of(s: Seq<u8>) -> int {
    (s[1] - ZERO) as int
}

/// The length field of a block.
pub open spec fn length_field(s: Seq<u8>) -> Seq<u8> {
    s.subrange(2, 2 + count_of(s))
}

/// Where the payload of a block ends.
pub open spec fn payload_end(s: Seq<u8>) -> int {
    2 + count_of(s) + digits_value(length_field(s))
}

/// The payload of a block.
pub open spec fn payload(s: Seq<u8>) -> Seq<u8> {
    s.subrange(2 + count_of(s), payload_end(s))
}

/// What follows the payload of a block.
pub open spec fn trailer(s: Seq<u8>) -> Seq<u8> {
    s.subrange(payload_end(s), s.len() as int)
}

/// The grammar of one reply, over the bytes `s` read from its start, when
/// no shorter start of `s` was already complete or malformed.
///
/// A text reply is complete at its first line feed. A block is malformed as
/// soon as its count byte is not a digit, or once its whole length field is
/// read and is not all digits; it is complete at the first line feed after
/// the payload, when only `\n` or `\r\n` follows the payload.
pub open spec fn reply_state(s: Seq<u8>) -> Decoded {
    if s.len() == 0 {
        Decoded::Pending
    } else if s[0] != HASH {
        if s.last() == LF {
            Decoded::Text(strip_line_end(s))
        } else {
            Decoded::Pending
        }
    } else if s.len() < 2 {
        Decoded::Pending
    } else if !is_digit(s[1]) {
        Decoded::Malformed(FrameFault::CountNotDigit)
    } else if s.len() < 2 + count_of(s) {
        Decoded::Pending
    } else if !all_digits(length_field(s)) {
        Decoded::Malformed(FrameFault::LengthNotDigits)
    } else if s.len() <= payload_end(s) || s.last() != LF {
        Decoded::Pending
    } else if trailer(s) == seq![LF] || trailer(s) == crlf() {
        Decoded::Binary(payload(s))
    } else {
        Decoded::Malformed(FrameFault::TrailingBytes)
    }
}

/// What a step of the reply decoder says, in the terms of `reply_state`.
pub open spec fn step_meaning(r: Step<Response>) -> Decoded {
    match r {
        Step::Pending => Decoded::Pending,
        Step::Done(Response::Text(v)) => Decoded::Text(v@),
        Step::Done(Response::Binary(v)) => Decoded::Binary(v@),
        Step::Failed(f) => Decoded::Malformed(f),
    }
}

/// The grammar of a reply that is only ever text: complete at its first line
/// feed, with the line ending removed.
pub open spec fn line_state(s: Seq<u8>) -> Option<Seq<u8>> {
    if s.len() > 0 && s.last() == LF {
        Some(strip_line_end(s))
    } else {
        None
    }
}

/// What a step of the text decoder says, in the terms of `line_state`.
pub open spec fn line_meaning(r: Step<Vec<u8>>) -> Option<Seq<u8>> {
    match r {
        Step::Done(v) => Some(v@),
        _ => None,
    }
}

/// A way of reading one reply from a byte stream, one byte at a time.
pub trait LxiHook: Sized {
    /// What a complete reply decodes to.
    type Output;

    /// Whether the decoder may be handed another byte.
    spec fn ready(&self) -> bool;

    /// A decoder that has read nothing.
    fn start() -> (r: Self)
        ensures
            r.ready(),
    ;

    /// Hands the decoder the next byte of the stream. After a step other
    /// than `Pending` the decoder is back at the start of the next reply.
    fn feed(&mut self, byte: u8) -> (r: Step<Self::Output>)
        requires
            old(self).ready(),
        ensures
            final(self).ready(),
    ;
}

/// The decoder of text replies: every reply is one line.
pub struct LxiTextHook {
    line: Vec<u8>,
}

impl LxiTextHook {
    /// The bytes of the current line read so far.
    pub closed spec fn consumed(&self) -> Seq<u8> {
        self.line@
    }

    /// No line feed has been read since the start of the line.
    pub closed spec fn wf(&self) -> bool {
        line_state(self.line@) is None
    }

    /// A decoder at the start of a line.
    pub fn new() -> (r: LxiTextHook)
        ensures
            r.wf(),
            r.consumed() == Seq::<u8>::empty(),
    {
        LxiTextHook { line: Vec::new() }
    }

    /// Reads one byte; at a line feed, hands out the line without its line
    /// ending and starts the next one.
    pub fn push(&mut self, byte: u8) -> (r: Step<Vec<u8>>)
        requires
            old(self).wf(),
        ensures
            final(self).wf(),
            !(r is Failed),
            line_meaning(r) == line_state(old(self).consumed().push(byte)),
            r is Pending ==> final(self).consumed() == old(self).consumed().push(byte),
            !(r is Pending) ==> final(self).consumed() == Seq::<u8>::empty(),
    {
        self.line.push(byte);
        if byte == LF {
            let mut out: Vec<u8> = Vec::new();
            std::mem::swap(&mut out, &mut self.line);
            remove_newline(&mut out);
            Step::Done(out)
        } else {
            Step::Pending
        }
    }
}

impl LxiHook for LxiTextHook {
    type Output = Vec<u8>;

    open spec fn ready(&self) -> bool {
        self.wf()
    }

    fn start() -> (r: LxiTextHook) {
        LxiTextHook::new()
    }

    fn feed(&mut self, byte: u8) -> (r: Step<Vec<u8>>) {
        self.push(byte)
    }
}

/// What has followed the payload of a block, before any line feed.
#[derive(PartialEq, Eq, Structural, Clone, Copy, Debug)]
enum Tail {
    Empty,
    Cr,
    Other,
}

/// Where a reply decoder stands.
#[derive(Clone, Copy, Debug)]
enum Phase {
    Start,
    Text,
    Count,
    Length { digits: usize, read: usize, value: usize, ok: bool },
    Payload { digits: usize, length: usize },
    Trailer { digits: usize, length: usize, tail: Tail },
}

/// Whether `s` begins with a complete, well-formed block header whose count
/// is `digits` and whose length field spells `length`.
pub open spec fn header_read(s: Seq<u8>, digits: int, length: int) -> bool {
    &&& s.len() >= 2
    &&& s[0] == HASH
    &&& is_digit(s[1])
    &&& digits == count_of(s)
    &&& s.len() >= 2 + digits
    &&& all_digits(length_field(s))
    &&& length == digits_value(length_field(s))
}

spec fn tail_matches(tail: Tail, t: Seq<u8>) -> bool {
    match tail {
        Tail::Empty => t.len() == 0,
        Tail::Cr => t == seq![CR],
        Tail::Other => t.len() > 0 && t != seq![CR],
    }
}

proof fn lemma_all_digits_push(f: Seq<u8>, b: u8)
    ensures
        all_digits(f.push(b)) == (all_digits(f) && is_digit(b)),
{
    let g = f.push(b);
    if all_digits(g) {
        assert(is_digit(g[f.len() as int]));
        assert forall|i: int| 0 <= i < f.len() implies is_digit(#[trigger] f[i]) by {
            assert(g[i] == f[i]);
        }
    }
    if all_digits(f) && is_digit(b) {
        assert forall|i: int| 0 <= i < g.len() implies is_digit(#[trigger] g[i]) by {
            if i < f.len() {
                assert(g[i] == f[i]);
            }
        }
    }
}

proof fn lemma_pow10_le(k: nat, m: nat)
    requires
        k <= m,
    ensures
        pow10(k) <= pow10(m),
    decreases m,
{
    if k < m {
        lemma_pow10_le(k, (m - 1) as nat);
    }
}

/// The decoder of replies that are either text lines or binary blocks.
pub struct ReplyDecoder {
    phase: Phase,
    buf: Vec<u8>,
    seen: Ghost<Seq<u8>>,
}

impl ReplyDecoder {
    /// The bytes of the current reply read so far.
    pub closed spec fn consumed(&self) -> Seq<u8> {
        self.seen@
    }

    /// The decoder's state agrees with the bytes it has read.
    pub closed spec fn wf(&self) -> bool {
        let s = self.seen@;
        &&& reply_state(s) is Pending
        &&& match self.phase {
            Phase::Start => s.len() == 0 && self.buf@.len() == 0,
            Phase::Text => s.len() > 0 && s[0] != HASH && self.buf@ == s,
            Phase::Count => s == seq![HASH] && self.buf@.len() == 0,
            Phase::Length { digits, read, value, ok } => {
                &&& s.len() == 2 + read
                &&& s[0] == HASH
                &&& is_digit(s[1])
                &&& digits == count_of(s)
                &&& read < digits
                &&& ok == all_digits(s.subrange(2, s.len() as int))
                &&& ok ==> value == digits_value(s.subrange(2, s.len() as int))
                &&& self.buf@.len() == 0
            },
            Phase::Payload { digits, length } => {
                &&& header_read(s, digits as int, length as int)
                &&& s.len() < 2 + digits + length
                &&& self.buf@ == s.subrange(2 + digits, s.len() as int)
            },
            Phase::Trailer { digits, length, tail } => {
                &&& header_read(s, digits as int, length as int)
                &&& s.len() >= 2 + digits + length
                &&& self.buf@ == s.subrange(2 + digits, 2 + digits + length)
                &&& tail_matches(tail, s.subrange(2 + digits + length, s.len() as int))
            },
        }
    }

    /// A decoder at the start of a reply.
    pub fn new() -> (r: ReplyDecoder)
        ensures
            r.wf(),
            r.consumed() == Seq::<u8>::empty(),
    {
        ReplyDecoder { phase: Phase::Start, buf: Vec::new(), seen: Ghost(Seq::empty()) }
    }

    /// Hands out the bytes collected and goes back to the start.
    fn finish(&mut self) -> (r: Vec<u8>)
        ensures
            r@ == old(self).buf@,
            final(self).wf(),
            final(self).consumed() == Seq::<u8>::empty(),
    {
        let mut out: Vec<u8> = Vec::new();
        std::mem::swap(&mut out, &mut self.buf);
        self.phase = Phase::Start;
        self.seen = Ghost(Seq::empty());
        out
    }

    /// The state after a complete, well-formed header: the payload is read
    /// next, or the trailer when the payload is empty.
    fn enter_payload(&mut self, digits: usize, length: usize)
        requires
            header_read(old(self).seen@, digits as int, length as int),
            old(self).seen@.len() == 2 + digits,
            old(self).buf@.len() == 0,
        ensures
            final(self).wf(),
            final(self).seen@ == old(self).seen@,
    {
        let ghost s = self.seen@;
        if length == 0 {
            self.phase = Phase::Trailer { digits, length, tail: Tail::Empty };
            assert(self.buf@ =~= s.subrange(2 + digits, 2 + digits + length));
            assert(s.subrange(2 + digits + length, s.len() as int).len() == 0);
        } else {
            self.phase = Phase::Payload { digits, length };
            assert(self.buf@ =~= s.subrange(2 + digits, s.len() as int));
        }
        assert(reply_state(s) is Pending);
    }

    /// Reads one byte of the reply. When the byte completes the reply, or
    /// shows it malformed, the decoder goes back to the start of the next.
    pub fn push(&mut self, byte: u8) -> (r: Step<Response>)
        requires
            old(self).wf(),
        ensures
            final(self).wf(),
            step_meaning(r) == reply_state(old(self).consumed().push(byte)),
            r is Pending ==> final(self).consumed() == old(self).consumed().push(byte),
            !(r is Pending) ==> final(self).consumed() == Seq::<u8>::empty(),
    {
        let ghost s0 = self.seen@;
        let ghost s = s0.push(byte);
        assert(s.drop_last() =~= s0);
        match self.phase {
            Phase::Start => {
                self.seen = Ghost(s);
                assert(s =~= seq![byte]);
                assert(self.buf@.push(byte) =~= s);
                if byte == HASH {
                    self.phase = Phase::Count;
                    Step::Pending
                } else {
                    self.phase = Phase::Text;
                    self.push_text(byte)
                }
            },
            Phase::Text => {
                self.seen = Ghost(s);
                self.push_text(byte)
            },
            Phase::Count => {
                if byte < ZERO || byte > ZERO + 9 {
                    self.finish();
                    Step::Failed(FrameFault::CountNotDigit)
                } else {
                    let digits = (byte - ZERO) as usize;
                    self.seen = Ghost(s);
                    if digits == 0 {
                        assert(length_field(s) =~= Seq::<u8>::empty());
                        self.enter_payload(0, 0);
                    } else {
                        assert(s.subrange(2, s.len() as int) =~= Seq::<u8>::empty());
                        self.phase = Phase::Length { digits, read: 0, value: 0, ok: true };
                    }
                    Step::Pending
                }
            },
            Phase::Length { digits, read, value, ok } => {
                self.push_length(byte, digits, read, value, ok)
            },
            Phase::Payload { digits, length } => {
                self.push_payload(byte, digits, length)
            },
            Phase::Trailer { digits, length, tail } => {
                self.push_trailer(byte, digits, length, tail)
            },
        }
    }

    fn push_text(&mut self, byte: u8) -> (r: Step<Response>)
        requires
            old(self).phase is Text,
            old(self).seen@.len() > 0,
            old(self).seen@[0] != HASH,
            old(self).seen@.last() == byte,
            old(self).buf@.push(byte) == old(self).seen@,
        ensures
            final(self).wf(),
            step_meaning(r) == reply_state(old(self).seen@),
            r is Pending ==> final(self).consumed() == old(self).seen@,
            !(r is Pending) ==> final(self).consumed() == Seq::<u8>::empty(),
    {
        self.buf.push(byte);
        if byte == LF {
            let mut out = self.finish();
            remove_newline(&mut out);
            Step::Done(Response::Text(out))
        } else {
            Step::Pending
        }
    }

    fn push_length(&mut self, byte: u8, digits: usize, read: usize, value: usize, ok: bool) -> (r:
        Step<Response>)
        requires
            old(self).wf(),
            old(self).phase == (Phase::Length { digits, read, value, ok }),
        ensures
            final(self).wf(),
            step_meaning(r) == reply_state(old(self).consumed().push(byte)),
            r is Pending ==> final(self).consumed() == old(self).consumed().push(byte),
            !(r is Pending) ==> final(self).consumed() == Seq::<u8>::empty(),
    {
        let ghost s0 = self.seen@;
        let ghost s = s0.push(byte);
        let ghost f0 = s0.subrange(2, s0.len() as int);
        let ghost f = s.subrange(2, s.len() as int);
        proof {
            assert(f =~= f0.push(byte));
            lemma_all_digits_push(f0, byte);
            assert(f.drop_last() =~= f0);
        }
        let ok2 = ok && ZERO <= byte && byte <= ZERO + 9;
        let mut value2: usize = 0;
        if ok2 {
            proof {
                lemma_digits_value_bound(f0);
                lemma_pow10_le(read as nat, 8);
                reveal_with_fuel(pow10, 9);
            }
            value2 = value * 10 + (byte - ZERO) as usize;
        }
        let read2 = read + 1;
        self.seen = Ghost(s);
        if read2 == digits {
            assert(length_field(s) =~= f);
            if !ok2 {
                self.finish();
                Step::Failed(FrameFault::LengthNotDigits)
            } else {
                self.enter_payload(digits, value2);
                Step::Pending
            }
        } else {
            self.phase = Phase::Length { digits, read: read2, value: value2, ok: ok2 };
            Step::Pending
        }
    }

    fn push_payload(&mut self, byte: u8, digits: usize, length: usize) -> (r: Step<Response>)
        requires
            old(self).wf(),
            old(self).phase == (Phase::Payload { digits, length }),
        ensures
            final(self).wf(),
            step_meaning(r) == reply_state(old(self).consumed().push(byte)),
            r is Pending ==> final(self).consumed() == old(self).consumed().push(byte),
            !(r is Pending) ==> final(self).consumed() == Seq::<u8>::empty(),
    {
        let ghost s0 = self.seen@;
        let ghost s = s0.push(byte);
        proof {
            assert(length_field(s) =~= length_field(s0));
        }
        self.buf.push(byte);
        self.seen = Ghost(s);
        assert(self.buf@ =~= s.subrange(2 + digits, s.len() as int));
        if self.buf.len() == length {
            self.phase = Phase::Trailer { digits, length, tail: Tail::Empty };
            assert(self.buf@ =~= s.subrange(2 + digits, 2 + digits + length));
            assert(s.subrange(2 + digits + length, s.len() as int).len() == 0);
        }
        Step::Pending
    }

    fn push_trailer(&mut self, byte: u8, digits: usize, length: usize, tail: Tail) -> (r: Step<
        Response,
    >)
        requires
            old(self).wf(),
            old(self).phase == (Phase::Trailer { digits, length, tail }),
        ensures
            final(self).wf(),
            step_meaning(r) == reply_state(old(self).consumed().push(byte)),
            r is Pending ==> final(self).consumed() == old(self).consumed().push(byte),
            !(r is Pending) ==> final(self).consumed() == Seq::<u8>::empty(),
    {
        let ghost s0 = self.seen@;
        let ghost s = s0.push(byte);
        let ghost pe = 2 + digits + length;
        let ghost t0 = s0.subrange(pe, s0.len() as int);
        let ghost t = s.subrange(pe, s.len() as int);
        proof {
            assert(length_field(s) =~= length_field(s0));
            assert(t =~= t0.push(byte));
            assert(payload(s) =~= s0.subrange(2 + digits, pe));
            assert(trailer(s) == t);
        }
        if byte == LF {
            if tail == Tail::Other {
                proof {
                    if t0.len() == 1 {
                        assert(t0 =~= seq![t0[0]]);
                        assert(t0[0] != CR);
                        assert(t[0] != seq![CR, LF][0]);
                    }
                    assert(t.len() != 1);
                }
                self.finish();
                Step::Failed(FrameFault::TrailingBytes)
            } else {
                proof {
                    if tail == Tail::Empty {
                        assert(t =~= seq![LF]);
                    } else {
                        assert(t =~= crlf());
                    }
                }
                let out = self.finish();
                Step::Done(Response::Binary(out))
            }
        } else {
            let tail2 = if tail == Tail::Empty && byte == CR {
                Tail::Cr
            } else {
                Tail::Other
            };
            self.seen = Ghost(s);
            self.phase = Phase::Trailer { digits, length, tail: tail2 };
            proof {
                if tail2 == Tail::Cr {
                    assert(t =~= seq![CR]);
                } else if tail == Tail::Empty {
                    assert(t =~= seq![byte]);
                    assert(t[0] != seq![CR][0]);
                } else {
                    assert(t.len() >= 2);
                }
            }
            Step::Pending
        }
    }
}

impl LxiHook for ReplyDecoder {
    type Output = Response;

    open spec fn ready(&self) -> bool {
        self.wf()
    }

    fn start() -> (r: ReplyDecoder) {
        ReplyDecoder::new()
    }

    fn feed(&mut self, byte: u8) -> (r: Step<Response>) {
        self.push(byte)
    }
}

/// Decodes the first reply in `bytes`. Returns the step at which the reply
/// ended, or `Pending` when `bytes` holds no whole reply, with the number of
/// bytes the reply took.
pub fn decode_reply(bytes: &[u8]) -> (r: (Step<Response>, usize))
    ensures
        r.1 <= bytes@.len(),
        step_meaning(r.0) == reply_state(bytes@.take(r.1 as int)),
        forall|i: int| 0 <= i < r.1 ==> reply_state(#[trigger] bytes@.take(i)) is Pending,
        r.0 is Pending ==> r.1 == bytes@.len(),
{
    let mut d = ReplyDecoder::new();
    let mut i: usize = 0;
    assert(bytes@.take(0) =~= Seq::<u8>::empty());
    while i < bytes.len()
        invariant
            d.wf(),
            i <= bytes@.len(),
            d.consumed() == bytes@.take(i as int),
            forall|j: int| 0 <= j <= i ==> reply_state(#[trigger] bytes@.take(j)) is Pending,
        decreases bytes@.len() - i,
    {
        assert(bytes@.take(i as int).push(bytes@[i as int]) =~= bytes@.take(i + 1));
        let r = d.push(bytes[i]);
        i = i + 1;
        if !matches!(r, Step::Pending) {
            return (r, i);
        }
    }
    (Step::Pending, i)
}

} // verus!
