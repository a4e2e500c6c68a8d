//! Properties that relate the framing of commands to the decoding of
//! replies.
use vstd::prelude::*;
use crate::frame::{
    all_digits, crlf, digits_value, is_digit, pow10, strip_line_end, CR, HASH, LF, ZERO,
};
use std::time::Duration;
use crate::link::{
    connect_check, fresh_view, put_spec, scoped_spec, take_spec, LinkView, LxiError,
};
use crate::reply::{count_of, length_field, line_state, payload_end, reply_state, Decoded};

verus! {

/// The `k`-digit decimal field, padded with leading zeros, that spells `n`
/// (its lowest `k` digits).
pub open spec fn decimal_field(n: nat, k: nat) -> Seq<u8>
    decreases k,
{
    if k == 0 {
        Seq::empty()
    } else {
        decimal_field(n / 10, (k - 1) as nat).push((ZERO + n % 10) as u8)
    }
}

/// The bytes of a binary block whose length field has `k` digits and whose
/// payload is `b`, ended by `\r\n`.
pub open spec fn block_frame(k: nat, b: Seq<u8>) -> Seq<u8> {
    seq![HASH, (ZERO + k) as u8] + decimal_field(b.len(), k) + b + crlf()
}

/// A decimal field of `k` digits spells the number it was written for.
pub proof fn lemma_decimal_field(n: nat, k: nat)
    requires
        n < pow10(k),
    ensures
        decimal_field(n, k).len() == k,
        all_digits(decimal_field(n, k)),
        digits_value(decimal_field(n, k)) == n,
    decreases k,
{
    if k > 0 {
        let p = pow10((k - 1) as nat);
        assert(n / 10 < p) by (nonlinear_arith)
            requires
                n < 10 * p,
        ;
        lemma_decimal_field(n / 10, (k - 1) as nat);
        let f = decimal_field(n / 10, (k - 1) as nat);
        let g = f.push((ZERO + n % 10) as u8);
        assert(g.drop_last() =~= f);
        assert forall|i: int| 0 <= i < g.len() implies is_digit(#[trigger] g[i]) by {
            if i < f.len() {
                assert(g[i] == f[i]);
            }
        }
        assert((n / 10) * 10 + n % 10 == n);
    }
}

/// A command payload that holds no line ending and does not begin with `#`,
/// sent with its terminator and echoed back as it was sent, decodes as text
/// equal to the payload; no shorter part of the echo completes a reply.
pub proof fn lemma_echo_reads_back(p: Seq<u8>)
    requires
        forall|i: int| 0 <= i < p.len() ==> #[trigger] p[i] != CR && p[i] != LF,
        p.len() == 0 || p[0] != HASH,
    ensures
        reply_state(p + crlf()) == Decoded::Text(p),
        forall|i: int|
            0 <= i < p.len() + 2 ==> reply_state(#[trigger] (p + crlf()).take(i)) is Pending,
{
    let s = p + crlf();
    assert(s[0] != HASH) by {
        if p.len() == 0 {
            assert(s[0] == CR);
        }
    }
    assert(s.drop_last() =~= p.push(CR));
    assert(p.push(CR).drop_last() =~= p);
    assert forall|i: int| 0 <= i < p.len() + 2 implies reply_state(
        #[trigger] s.take(i),
    ) is Pending by {
        if i > 0 {
            let t = s.take(i);
            assert(t[0] == s[0]);
            assert(t.last() == s[i - 1]);
            if i - 1 < p.len() {
                assert(s[i - 1] == p[i - 1]);
            }
        }
    }
}

/// A binary block whose payload `b` has fewer than `10^k` bytes, with `k`
/// at most nine and its length written in exactly `k` digits, decodes to
/// `b`; no shorter part of it completes a reply or shows it malformed.
pub proof fn lemma_block_reads_back(k: nat, b: Seq<u8>)
    requires
        k <= 9,
        b.len() < pow10(k),
    ensures
        reply_state(block_frame(k, b)) == Decoded::Binary(b),
        forall|i: int|
            0 <= i < block_frame(k, b).len() ==> reply_state(
                #[trigger] block_frame(k, b).take(i),
            ) is Pending,
{
    let s = block_frame(k, b);
    let f = decimal_field(b.len(), k);
    lemma_decimal_field(b.len(), k);
    let pe: int = 2 + k as int + b.len() as int;
    assert(s.len() == pe + 2);
    assert(s[1] == (ZERO + k) as u8);
    assert(count_of(s) == k);
    assert(length_field(s) =~= f);
    assert(payload_end(s) == pe);
    assert(s.subrange(2 + k as int, pe) =~= b);
    assert(s.subrange(pe, s.len() as int) =~= crlf());
    assert forall|i: int| 0 <= i < s.len() implies reply_state(#[trigger] s.take(i)) is Pending by {
        let t = s.take(i);
        if i >= 2 {
            assert(t[0] == s[0]);
            assert(t[1] == s[1]);
            assert(count_of(t) == k);
            if i >= 2 + k {
                assert(length_field(t) =~= f);
                if i > pe {
                    assert(i == pe + 1);
                    assert(t.last() == s[pe]);
                }
            }
        }
    }
}

/// Only one line ending is removed: a text reply that ends in `\r\r\n`
/// decodes to text that still ends in `\r`, with either decoder.
pub proof fn lemma_strip_one_level(s: Seq<u8>)
    requires
        s.len() >= 3,
        s[0] != HASH,
        s.subrange(s.len() - 3, s.len() as int) == seq![CR, CR, LF],
    ensures
        reply_state(s) == Decoded::Text(s.take(s.len() - 2)),
        line_state(s) == Some(s.take(s.len() - 2)),
        s.take(s.len() - 2).last() == CR,
{
    let w = s.subrange(s.len() - 3, s.len() as int);
    assert(s[s.len() - 1] == w[2]);
    assert(s[s.len() - 2] == w[1]);
    assert(s[s.len() - 3] == w[0]);
    assert(s.drop_last().drop_last() =~= s.take(s.len() - 2));
    assert(strip_line_end(s) == s.take(s.len() - 2));
}

/// A second connect without a disconnect in between fails with
/// `AlreadyConnected`, whether it is refused before opening a socket or when
/// the new connection is installed, and leaves the first connection in the
/// handle, where it can still be taken for use.
pub proof fn lemma_connect_twice<S>(v: LinkView<S>, first: S, second: S)
    requires
        v.stream is None,
    ensures
        connect_check(v) == Ok::<Option<Duration>, LxiError>(v.timeout),
        put_spec(v, first).0 is Ok,
        connect_check(put_spec(v, first).1) == Err::<Option<Duration>, LxiError>(
            LxiError::AlreadyConnected,
        ),
        put_spec(put_spec(v, first).1, second) == (
            Err::<(), LxiError>(LxiError::AlreadyConnected),
            put_spec(v, first).1,
        ),
        take_spec(put_spec(v, first).1).0 == Ok::<S, LxiError>(first),
{
}

/// Disconnecting a handle that never connected fails with `NotConnected`
/// and leaves the handle as it was.
pub proof fn lemma_disconnect_fresh<S>(host: Seq<char>, port: u16, timeout: Option<Duration>)
    ensures
        take_spec(fresh_view::<S>(host, port, timeout)) == (
            Err::<S, LxiError>(LxiError::NotConnected),
            fresh_view::<S>(host, port, timeout),
        ),
{
}

/// An operation run under a temporary timeout on a connected handle: the
/// connection is taken out and put back whatever the operation did, the
/// handle's own timeout setting is unchanged, and when the operation timed
/// out the reported error is `Timeout`, whether restoring the previous
/// timeout failed or not.
pub proof fn lemma_override_timeout<S, T>(v: LinkView<S>, used: S, restore: Result<(), LxiError>)
    requires
        v.stream is Some,
    ensures
        take_spec(v).0 is Ok,
        put_spec(take_spec(v).1, used).0 is Ok,
        put_spec(take_spec(v).1, used).1 == (LinkView { stream: Some(used), ..v }),
        put_spec(take_spec(v).1, used).1.timeout == v.timeout,
        scoped_spec::<T>(Err(LxiError::Timeout), restore) is Err,
        scoped_spec::<T>(Err(LxiError::Timeout), restore)->Err_0.primary_spec()
            == LxiError::Timeout,
{
}

} // verus!
