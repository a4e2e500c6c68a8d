//! Byte-level framing: the command terminator, line-end stripping and the
//! decimal length field of a binary block.
use vstd::prelude::*;

verus! {

/// Line feed, the byte that ends every frame.
pub const LF: u8 = 10;

/// Carriage return, optionally sent before the line feed.
pub const CR: u8 = 13;

/// `#`, the first byte of a binary block.
pub const HASH: u8 = 35;

/// ASCII `0`.
pub const ZERO: u8 = 48;

/// The two bytes that end a command: carriage return, line feed.
pub open spec fn crlf() -> Seq<u8> {
    seq![CR, LF]
}

/// `s` with one trailing line feed removed, and then one carriage return
/// directly before it; `s` itself when it does not end in a line feed.
pub open spec fn strip_line_end(s: Seq<u8>) -> Seq<u8> {
    if s.len() > 0 && s.last() == LF {
        let t = s.drop_last();
        if t.len() > 0 && t.last() == CR {
            t.drop_last()
        } else {
            t
        }
    } else {
        s
    }
}

/// Whether `b` is one of the ASCII digits `0` to `9`.
pub open spec fn is_digit(b: u8) -> bool {
    ZERO <= b && b <= ZERO + 9
}

/// Whether every byte of `s` is an ASCII digit.
pub open spec fn all_digits(s: Seq<u8>) -> bool {
    forall|i: int| 0 <= i < s.len() ==> is_digit(#[trigger] s[i])
}

/// The number that the ASCII digits `s` spell in decimal, most significant
/// first; the empty field is zero.
pub open spec fn digits_value(s: Seq<u8>) -> nat
    decreases s.len(),
{
    if s.len() == 0 {
        0
    } else {
        digits_value(s.drop_last()) * 10 + (s.last() - ZERO) as nat
    }
}

/// Ten to the power `k`.
pub open spec fn pow10(k: nat) -> nat
    decreases k,
{
    if k == 0 {
        1
    } else {
        10 * pow10((k - 1) as nat)
    }
}

/// A field of `k` digits spells a number below `10^k`.
pub proof fn lemma_digits_value_bound(s: Seq<u8>)
    requires
        all_digits(s),
    ensures
        digits_value(s) < pow10(s.len()),
    decreases s.len(),
{
    if s.len() > 0 {
        let t = s.drop_last();
        assert(all_digits(t)) by {
            assert forall|i: int| 0 <= i < t.len() implies is_digit(#[trigger] t[i]) by {
                assert(t[i] == s[i]);
            }
        }
        lemma_digits_value_bound(t);
        assert(is_digit(s[s.len() - 1]));
        let v = digits_value(t);
        let d = (s.last() - ZERO) as nat;
        let p = pow10(t.len());
        assert(pow10(s.len()) == 10 * p);
        assert(v * 10 + d < 10 * p) by (nonlinear_arith)
            requires
                v < p,
                d <= 9,
        ;
    }
}

/// Removes one line ending from the end of `text`: a final `\n`, and a `\r`
/// just before it. Nothing else is touched; text without a final `\n` stays
/// as it is.
pub fn remove_newline(text: &mut Vec<u8>)
    ensures
        final(text)@ == strip_line_end(old(text)@),
{
    match text.pop() {
        Some(b) => {
            if b == LF {
                match text.pop() {
                    Some(c) => {
                        if c != CR {
                            text.push(c);
                        }
                    },
                    None => {},
                }
            } else {
                text.push(b);
            }
        },
        None => {},
    }
    proof {
        let s = old(text)@;
        if s.len() > 0 {
            assert(s.drop_last().push(s.last()) =~= s);
            if s.len() > 1 {
                let t = s.drop_last();
                assert(t.drop_last().push(t.last()) =~= t);
            }
        }
    }
}

/// The bytes sent for a command: the payload, then carriage return and line
/// feed.
pub fn command_frame(data: &[u8]) -> (r: Vec<u8>)
    ensures
        r@ == data@ + crlf(),
{
    let mut r: Vec<u8> = Vec::new();
    let mut i: usize = 0;
    while i < data.len()
        invariant
            i <= data@.len(),
            r@ == data@.subrange(0, i as int),
        decreases data@.len() - i,
    {
        r.push(data[i]);
        i = i + 1;
        assert(r@ =~= data@.subrange(0, i as int));
    }
    r.push(CR);
    r.push(LF);
    assert(r@ =~= data@ + crlf());
    r
}

} // verus!
