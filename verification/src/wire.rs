//! The JSON wire format of ratchet headers and session states: compact JSON
//! objects whose numbers are unsigned decimals and whose byte strings are
//! arrays of decimal bytes, with fields in declaration order.
//!
//! The format is canonical: a header or a session state has exactly one text,
//! the one that this module writes, and the parsers here accept that text and
//! no other. Other JSON spellings of the same value are read by `json.rs`.

use vstd::prelude::*;
use crate::double_ratchet::RatchetHeader;
use crate::session::{RatchetSessionState, SessionModel};

verus! {

/// The ASCII decimal digits of `n`, most significant first, with no leading zero.
pub open spec fn decimal(n: nat) -> Seq<u8>
    decreases n,
{
    if n < 10 {
        seq![(48 + n) as u8]
    } else {
        decimal(n / 10).push((48 + n % 10) as u8)
    }
}

pub open spec fn is_digit(b: u8) -> bool {
    48 <= b && b <= 57
}

/// The number that a sequence of ASCII digits denotes.
pub open spec fn digits_value(s: Seq<u8>) -> nat
    decreases s.len(),
{
    if s.len() == 0 {
        0
    } else {
        digits_value(s.drop_last()) * 10 + (s.last() - 48) as nat
    }
}

/// The elements of a JSON array of bytes: their decimals separated by commas.
pub open spec fn byte_items(s: Seq<u8>) -> Seq<u8>
    decreases s.len(),
{
    if s.len() == 0 {
        seq![]
    } else if s.len() == 1 {
        decimal(s[0] as nat)
    } else {
        decimal(s[0] as nat) + seq![44u8] + byte_items(s.drop_first())
    }
}

/// A byte string as a JSON array of numbers, as `[1,2,3]`.
pub open spec fn byte_list(s: Seq<u8>) -> Seq<u8> {
    seq![91u8] + byte_items(s) + seq![93u8]
}

proof fn lemma_decimal(n: nat)
    ensures
        decimal(n).len() >= 1,
        forall|i: int| 0 <= i < decimal(n).len() ==> is_digit(#[trigger] decimal(n)[i]),
        digits_value(decimal(n)) == n,
    decreases n,
{
    let d = decimal(n);
    if n < 10 {
        assert(d.drop_last() =~= Seq::<u8>::empty());
        assert(digits_value(Seq::<u8>::empty()) == 0);
        assert(((48 + n) as u8) as nat == 48 + n);
        assert(digits_value(d) == digits_value(d.drop_last()) * 10 + (d.last() - 48) as nat);
    } else {
        lemma_decimal(n / 10);
        assert(d.drop_last() =~= decimal(n / 10));
        assert(d.last() == (48 + n % 10) as u8);
        assert(((48 + n % 10) as u8) as nat == 48 + n % 10);
        assert(digits_value(d) == digits_value(decimal(n / 10)) * 10 + n % 10);
        assert forall|i: int| 0 <= i < d.len() implies is_digit(#[trigger] d[i]) by {
            if i < d.len() - 1 {
                assert(d[i] == decimal(n / 10)[i]);
            }
        }
    }
}

proof fn lemma_prefix_value(s: Seq<u8>, k: int)
    requires
        0 <= k <= s.len(),
    ensures
        digits_value(s.take(k)) <= digits_value(s),
    decreases s.len(),
{
    if k < s.len() {
        lemma_prefix_value(s.drop_last(), k);
        assert(s.drop_last().take(k) =~= s.take(k));
    } else {
        assert(s.take(k) =~= s);
    }
}

proof fn lemma_value_step(s: Seq<u8>, b: u8)
    ensures
        digits_value(s.push(b)) == digits_value(s) * 10 + (b - 48) as nat,
{
    assert(s.push(b).drop_last() =~= s);
}

proof fn lemma_items_push(s: Seq<u8>, x: u8)
    requires
        s.len() >= 1,
    ensures
        byte_items(s.push(x)) == byte_items(s) + seq![44u8] + decimal(x as nat),
    decreases s.len(),
{
    if s.len() == 1 {
        assert(s.push(x).drop_first() =~= seq![x]);
        assert(byte_items(seq![x]) == decimal(x as nat));
        assert(byte_items(s) == decimal(s[0] as nat));
        assert(s.push(x)[0] == s[0]);
    } else {
        assert(s.push(x).drop_first() =~= s.drop_first().push(x));
        assert(s.push(x)[0] == s[0]);
        lemma_items_push(s.drop_first(), x);
        assert(byte_items(s.push(x)) =~= byte_items(s) + seq![44u8] + decimal(x as nat));
    }
}

proof fn lemma_items_first(s: Seq<u8>)
    requires
        s.len() >= 1,
    ensures
        byte_items(s) == decimal(s[0] as nat) + (if s.len() == 1 {
            Seq::<u8>::empty()
        } else {
            seq![44u8] + byte_items(s.drop_first())
        }),
{
    if s.len() == 1 {
        assert(decimal(s[0] as nat) + Seq::<u8>::empty() =~= decimal(s[0] as nat));
    } else {
        assert(decimal(s[0] as nat) + seq![44u8] + byte_items(s.drop_first()) =~= decimal(s[0] as nat)
            + (seq![44u8] + byte_items(s.drop_first())));
    }
}

/// The rest of `s` after position `i` starts with `a` followed by `b`:
/// after `a` is consumed, `b` is what remains.
proof fn lemma_consume(s: Seq<u8>, i: int, a: Seq<u8>, b: Seq<u8>)
    requires
        0 <= i <= s.len(),
        s.subrange(i, s.len() as int) == a + b,
    ensures
        i + a.len() <= s.len(),
        s.subrange(i + a.len(), s.len() as int) == b,
        s.subrange(i, i + a.len()) == a,
        a.len() > 0 ==> s[i] == a[0],
{
    assert(s.subrange(i + a.len(), s.len() as int) =~= (a + b).subrange(a.len() as int, (a + b).len() as int));
    assert(s.subrange(i, i + a.len()) =~= (a + b).subrange(0, a.len() as int));
    if a.len() > 0 {
        assert(s.subrange(i, s.len() as int)[0] == s[i]);
    }
}

/// Appends the decimal digits of `n`.
pub fn write_decimal(out: &mut Vec<u8>, n: u32)
    ensures
        final(out)@ == old(out)@ + decimal(n as nat),
    decreases n,
{
    if n >= 10 {
        write_decimal(out, n / 10);
    }
    out.push((48 + n % 10) as u8);
    proof {
        if n >= 10 {
            assert(decimal(n as nat) == decimal((n / 10) as nat).push((48 + n % 10) as u8));
        }
        assert(final(out)@ =~= old(out)@ + decimal(n as nat));
    }
}

/// Appends a byte string as a JSON array.
pub fn write_byte_list(out: &mut Vec<u8>, bytes: &[u8])
    ensures
        final(out)@ == old(out)@ + byte_list(bytes@),
{
    let ghost start = out@;
    out.push(91u8);
    let mut i: usize = 0;
    while i < bytes.len()
        invariant
            0 <= i <= bytes@.len(),
            out@ == start + seq![91u8] + byte_items(bytes@.take(i as int)),
        decreases bytes@.len() - i,
    {
        let ghost before = out@;
        if i > 0 {
            out.push(44u8);
        }
        write_decimal(out, bytes[i] as u32);
        proof {
            let t = bytes@.take(i as int);
            assert(bytes@.take(i + 1) =~= t.push(bytes@[i as int]));
            if i > 0 {
                lemma_items_push(t, bytes@[i as int]);
            } else {
                assert(t.push(bytes@[i as int]) =~= seq![bytes@[i as int]]);
            }
            assert(out@ =~= start + seq![91u8] + byte_items(bytes@.take(i + 1)));
        }
        i = i + 1;
    }
    out.push(93u8);
    proof {
        assert(bytes@.take(bytes@.len() as int) =~= bytes@);
        assert(out@ =~= start + byte_list(bytes@));
    }
}

/// Reads the longest run of digits at `pos` as a number, giving up once it
/// exceeds `max`. Where the input holds the decimal of some `n <= max` at
/// `pos`, not followed by another digit, the result is `n` and the position
/// after its digits.
pub fn read_decimal(bytes: &[u8], pos: usize, max: u32) -> (res: Option<(u32, usize)>)
    requires
        pos <= bytes@.len(),
    ensures
        res matches Some((v, end)) ==> v <= max && pos <= end <= bytes@.len(),
        forall|n: nat, tail: Seq<u8>|
            #![trigger decimal(n) + tail]
            n <= max && bytes@.subrange(pos as int, bytes@.len() as int) == decimal(n) + tail && (
            tail.len() == 0 || !is_digit(tail[0])) ==> res == Some((n as u32, (pos + decimal(n).len()) as usize)),
{
    let mut i: usize = pos;
    let mut v: u64 = 0;
    while i < bytes.len() && 48 <= bytes[i] && bytes[i] <= 57 && v <= max as u64
        invariant
            pos <= i <= bytes@.len(),
            v == digits_value(bytes@.subrange(pos as int, i as int)),
            v <= (max as u64) * 10 + 9,
            forall|j: int| pos <= j < i ==> is_digit(#[trigger] bytes@[j]),
        decreases bytes@.len() - i,
    {
        proof {
            assert(bytes@.subrange(pos as int, i + 1) =~= bytes@.subrange(pos as int, i as int).push(bytes@[i as int]));
            lemma_value_step(bytes@.subrange(pos as int, i as int), bytes@[i as int]);
        }
        v = v * 10 + (bytes[i] - 48) as u64;
        i = i + 1;
    }
    let res = if v > max as u64 {
        None
    } else {
        Some((v as u32, i))
    };
    assert forall|n: nat, tail: Seq<u8>|
        #![trigger decimal(n) + tail]
        n <= max && bytes@.subrange(pos as int, bytes@.len() as int) == decimal(n) + tail && (tail.len() == 0
            || !is_digit(tail[0])) implies res == Some((n as u32, (pos + decimal(n).len()) as usize)) by {
        let d = decimal(n);
        let k = d.len() as int;
        lemma_decimal(n);
        let rest = bytes@.subrange(pos as int, bytes@.len() as int);
        lemma_consume(bytes@, pos as int, d, tail);
        assert forall|j: int| 0 <= j < k implies bytes@[pos + j] == d[j] by {
            assert(rest[j] == (d + tail)[j]);
        }
        if i < pos + k {
            // the loop stopped early: impossible, the next byte is a digit and the value is small
            let s = bytes@.subrange(pos as int, i as int);
            assert(s =~= d.take(i - pos));
            lemma_prefix_value(d, i - pos);
            assert(bytes@[pos + (i - pos)] == d[i - pos]);
            assert(is_digit(d[i - pos]));
            assert(is_digit(bytes@[i as int]));
            assert(false);
        }
        if i > pos + k {
            assert(is_digit(bytes@[pos + k]));
            assert(tail.len() > 0);
            assert(rest[k] == tail[0]);
            assert(false);
        }
        assert(bytes@.subrange(pos as int, i as int) =~= d);
    }
    res
}

/// What follows the element at index `k` of a JSON byte array's elements:
/// nothing after the last one, else a comma and the later elements.
pub open spec fn items_after(t: Seq<u8>, k: int) -> Seq<u8> {
    if k + 1 >= t.len() {
        Seq::<u8>::empty()
    } else {
        seq![44u8] + byte_items(t.skip(k + 1))
    }
}

/// The input holds the JSON array of `t` at `pos`, followed by `tail`.
pub open spec fn list_at(bytes: Seq<u8>, pos: int, t: Seq<u8>, tail: Seq<u8>) -> bool {
    bytes.subrange(pos, bytes.len() as int) == byte_list(t) + tail
}

proof fn lemma_list_open(bytes: Seq<u8>, pos: int, t: Seq<u8>, tail: Seq<u8>)
    requires
        0 <= pos <= bytes.len(),
        list_at(bytes, pos, t, tail),
    ensures
        pos < bytes.len(),
        bytes[pos] == 91u8,
        bytes.subrange(pos + 1, bytes.len() as int) == byte_items(t) + seq![93u8] + tail,
        byte_list(t).len() == byte_items(t).len() + 2,
{
    assert(byte_list(t) + tail =~= seq![91u8] + (byte_items(t) + seq![93u8] + tail));
    lemma_consume(bytes, pos, seq![91u8], byte_items(t) + seq![93u8] + tail);
}

proof fn lemma_list_head(bytes: Seq<u8>, i: int, t: Seq<u8>, k: int, tail: Seq<u8>)
    requires
        0 <= i <= bytes.len(),
        0 <= k < t.len(),
        bytes.subrange(i, bytes.len() as int) == byte_items(t.skip(k)) + seq![93u8] + tail,
    ensures
        bytes.subrange(i, bytes.len() as int) == decimal(t[k] as nat) + (items_after(t, k) + seq![93u8] + tail),
        (items_after(t, k) + seq![93u8] + tail)[0] == (if k + 1 == t.len() {
            93u8
        } else {
            44u8
        }),
        t[k] as nat <= 255,
{
    let rest = t.skip(k);
    lemma_items_first(rest);
    if rest.len() > 1 {
        assert(rest.drop_first() =~= t.skip(k + 1));
    }
    assert(byte_items(rest) + seq![93u8] + tail =~= decimal(t[k] as nat) + (items_after(t, k) + seq![93u8]
        + tail));
}

/// Reads a JSON array of bytes at `pos`. Where the input holds `byte_list(t)`
/// at `pos`, the result is `t` and the position after the array.
pub fn read_byte_list(bytes: &[u8], pos: usize) -> (res: Option<(Vec<u8>, usize)>)
    requires
        pos <= bytes@.len(),
    ensures
        res matches Some((v, end)) ==> pos <= end <= bytes@.len(),
        forall|t: Seq<u8>, tail: Seq<u8>|
            #[trigger] list_at(bytes@, pos as int, t, tail) ==> (res matches Some((v, end)) && v@ == t && end
                == pos + byte_list(t).len()),
{
    if pos >= bytes.len() || bytes[pos] != 91 {
        proof {
            assert forall|t: Seq<u8>, tail: Seq<u8>| #[trigger] list_at(bytes@, pos as int, t, tail) implies false by {
                lemma_list_open(bytes@, pos as int, t, tail);
            }
        }
        return None;
    }
    let mut i: usize = pos + 1;
    let mut out: Vec<u8> = Vec::new();
    if i < bytes.len() && bytes[i] == 93 {
        proof {
            assert forall|t: Seq<u8>, tail: Seq<u8>| #[trigger] list_at(bytes@, pos as int, t, tail) implies t
                =~= Seq::<u8>::empty() && i + 1 == pos + byte_list(t).len() by {
                lemma_list_open(bytes@, pos as int, t, tail);
                if t.len() > 0 {
                    assert(t.skip(0) =~= t);
                    lemma_list_head(bytes@, i as int, t, 0, tail);
                    lemma_decimal(t[0] as nat);
                    assert(bytes@.subrange(i as int, bytes@.len() as int)[0] == decimal(t[0] as nat)[0]);
                    assert(false);
                }
                assert(byte_items(t) =~= Seq::<u8>::empty());
            }
        }
        return Some((out, i + 1));
    }
    proof {
        assert forall|t: Seq<u8>, tail: Seq<u8>| #[trigger] list_at(bytes@, pos as int, t, tail) implies t.len() > 0
            && bytes@.subrange(i as int, bytes@.len() as int) == byte_items(t.skip(0)) + seq![93u8] + tail by {
            lemma_list_open(bytes@, pos as int, t, tail);
            assert(t.skip(0) =~= t);
            if t.len() == 0 {
                assert(byte_items(t) + seq![93u8] + tail =~= seq![93u8] + tail);
                lemma_consume(bytes@, i as int, seq![93u8], tail);
                assert(false);
            }
        }
    }
    let blen = bytes.len();
    loop
        invariant
            pos < i <= bytes@.len(),
            blen == bytes@.len(),
            forall|t: Seq<u8>, tail: Seq<u8>|
                #[trigger] list_at(bytes@, pos as int, t, tail) ==> out@.len() < t.len() && out@ == t.take(
                    out@.len() as int,
                ) && bytes@.subrange(i as int, bytes@.len() as int) == byte_items(t.skip(out@.len() as int))
                    + seq![93u8] + tail,
        decreases bytes@.len() - i,
    {
        let ghost k = out@.len() as int;
        proof {
            assert forall|t: Seq<u8>, tail: Seq<u8>| #[trigger] list_at(bytes@, pos as int, t, tail) implies bytes@.subrange(
                i as int,
                bytes@.len() as int,
            ) == decimal(t[k] as nat) + (items_after(t, k) + seq![93u8] + tail) && t[k] as nat <= 255 by {
                lemma_list_head(bytes@, i as int, t, k, tail);
            }
        }
        let step = read_decimal(bytes, i, 255);
        match step {
            None => {
                proof {
                    assert forall|t: Seq<u8>, tail: Seq<u8>| #[trigger] list_at(bytes@, pos as int, t, tail) implies false by {
                        lemma_list_head(bytes@, i as int, t, k, tail);
                        let after = items_after(t, k) + seq![93u8] + tail;
                        assert(bytes@.subrange(i as int, bytes@.len() as int) == decimal(t[k] as nat) + after);
                    }
                }
                return None;
            },
            Some((value, end)) => {
                let ghost prev_i = i;
                let ghost prev_out = out@;
                out.push(value as u8);
                proof {
                    assert forall|t: Seq<u8>, tail: Seq<u8>| #[trigger] list_at(bytes@, pos as int, t, tail) implies out@
                        =~= t.take(k + 1) && bytes@.subrange(end as int, bytes@.len() as int) == items_after(t, k)
                        + seq![93u8] + tail && bytes@[end as int] == (if k + 1 == t.len() {
                        93u8
                    } else {
                        44u8
                    }) by {
                        lemma_list_head(bytes@, prev_i as int, t, k, tail);
                        let after = items_after(t, k) + seq![93u8] + tail;
                        let dk = decimal(t[k] as nat);
                        assert(bytes@.subrange(prev_i as int, bytes@.len() as int) == dk + after);
                        assert(!is_digit(after[0]));
                        lemma_consume(bytes@, prev_i as int, dk, after);
                        assert(prev_i + dk.len() <= bytes@.len());
                        assert(step == Some((t[k] as u32, (prev_i + dk.len()) as usize)));
                        assert(step == Some((value, end)));
                        assert(end == prev_i + dk.len());
                        assert(prev_out == t.take(k));
                        assert(t.take(k + 1) =~= t.take(k).push(t[k]));
                        assert(bytes@.subrange(end as int, bytes@.len() as int)[0] == bytes@[end as int]);
                    }
                }
                i = end;
                if i < bytes.len() && bytes[i] == 44 {
                    proof {
                        assert forall|t: Seq<u8>, tail: Seq<u8>| #[trigger] list_at(bytes@, pos as int, t, tail) implies out@.len()
                            < t.len() && out@ == t.take(out@.len() as int) && bytes@.subrange(i + 1, bytes@.len() as int)
                            == byte_items(t.skip(out@.len() as int)) + seq![93u8] + tail by {
                            assert(k + 1 < t.len());
                            let rest = byte_items(t.skip(k + 1)) + seq![93u8] + tail;
                            assert(items_after(t, k) + seq![93u8] + tail =~= seq![44u8] + rest);
                            lemma_consume(bytes@, i as int, seq![44u8], rest);
                        }
                    }
                    i = i + 1;
                } else if i < bytes.len() && bytes[i] == 93 {
                    proof {
                        assert forall|t: Seq<u8>, tail: Seq<u8>| #[trigger] list_at(bytes@, pos as int, t, tail) implies out@
                            == t && i + 1 == pos + byte_list(t).len() by {
                            assert(k + 1 == t.len());
                            assert(t.take(k + 1) =~= t);
                            assert(out@ =~= t);
                            lemma_list_open(bytes@, pos as int, t, tail);
                            assert(items_after(t, k) + seq![93u8] + tail =~= seq![93u8] + tail);
                            lemma_consume(bytes@, i as int, seq![93u8], tail);
                            assert(bytes@.subrange(pos as int, bytes@.len() as int).len() == bytes@.len() - pos);
                            assert(bytes@.subrange(i + 1, bytes@.len() as int).len() == bytes@.len() - (i + 1));
                            assert((byte_list(t) + tail).len() == byte_list(t).len() + tail.len());
                        }
                    }
                    return Some((out, i + 1));
                } else {
                    return None;
                }
            },
        }
    }
}

/// The bytes of `{"root_key":`.
pub open spec fn session_open() -> Seq<u8> {
    seq![123u8, 34, 114, 111, 111, 116, 95, 107, 101, 121, 34, 58]
}

fn session_open_bytes() -> (lit: [u8; 12])
    ensures
        lit@ == session_open(),
{
    let lit = [123u8, 34, 114, 111, 111, 116, 95, 107, 101, 121, 34, 58];
    assert(lit@ =~= session_open());
    lit
}

/// The bytes of `,"send_chain_key":`.
pub open spec fn send_chain_field() -> Seq<u8> {
    seq![44u8, 34, 115, 101, 110, 100, 95, 99, 104, 97, 105, 110, 95, 107, 101, 121, 34, 58]
}

fn send_chain_field_bytes() -> (lit: [u8; 18])
    ensures
        lit@ == send_chain_field(),
{
    let lit = [44u8, 34, 115, 101, 110, 100, 95, 99, 104, 97, 105, 110, 95, 107, 101, 121, 34, 58];
    assert(lit@ =~= send_chain_field());
    lit
}

/// The bytes of `,"recv_chain_key":`.
pub open spec fn recv_chain_field() -> Seq<u8> {
    seq![44u8, 34, 114, 101, 99, 118, 95, 99, 104, 97, 105, 110, 95, 107, 101, 121, 34, 58]
}

fn recv_chain_field_bytes() -> (lit: [u8; 18])
    ensures
        lit@ == recv_chain_field(),
{
    let lit = [44u8, 34, 114, 101, 99, 118, 95, 99, 104, 97, 105, 110, 95, 107, 101, 121, 34, 58];
    assert(lit@ =~= recv_chain_field());
    lit
}

/// The bytes of `,"message_number":`.
pub open spec fn message_number_field() -> Seq<u8> {
    seq![44u8, 34, 109, 101, 115, 115, 97, 103, 101, 95, 110, 117, 109, 98, 101, 114, 34, 58]
}

fn message_number_field_bytes() -> (lit: [u8; 18])
    ensures
        lit@ == message_number_field(),
{
    let lit = [44u8, 34, 109, 101, 115, 115, 97, 103, 101, 95, 110, 117, 109, 98, 101, 114, 34, 58];
    assert(lit@ =~= message_number_field());
    lit
}

/// The bytes of `,"previous_chain_length":`.
pub open spec fn previous_chain_field() -> Seq<u8> {
    seq![44u8, 34, 112, 114, 101, 118, 105, 111, 117, 115, 95, 99, 104, 97, 105, 110, 95, 108, 101, 110, 103, 116, 104, 34, 58]
}

fn previous_chain_field_bytes() -> (lit: [u8; 25])
    ensures
        lit@ == previous_chain_field(),
{
    let lit = [44u8, 34, 112, 114, 101, 118, 105, 111, 117, 115, 95, 99, 104, 97, 105, 110, 95, 108, 101, 110, 103, 116, 104, 34, 58];
    assert(lit@ =~= previous_chain_field());
    lit
}

/// The bytes of `,"ratchet_public_key":`.
pub open spec fn ratchet_key_field() -> Seq<u8> {
    seq![44u8, 34, 114, 97, 116, 99, 104, 101, 116, 95, 112, 117, 98, 108, 105, 99, 95, 107, 101, 121, 34, 58]
}

fn ratchet_key_field_bytes() -> (lit: [u8; 22])
    ensures
        lit@ == ratchet_key_field(),
{
    let lit = [44u8, 34, 114, 97, 116, 99, 104, 101, 116, 95, 112, 117, 98, 108, 105, 99, 95, 107, 101, 121, 34, 58];
    assert(lit@ =~= ratchet_key_field());
    lit
}

/// The bytes of `{"n":`.
pub open spec fn header_open() -> Seq<u8> {
    seq![123u8, 34, 110, 34, 58]
}

fn header_open_bytes() -> (lit: [u8; 5])
    ensures
        lit@ == header_open(),
{
    let lit = [123u8, 34, 110, 34, 58];
    assert(lit@ =~= header_open());
    lit
}

/// The bytes of `,"pn":`.
pub open spec fn previous_count_field() -> Seq<u8> {
    seq![44u8, 34, 112, 110, 34, 58]
}

fn previous_count_field_bytes() -> (lit: [u8; 6])
    ensures
        lit@ == previous_count_field(),
{
    let lit = [44u8, 34, 112, 110, 34, 58];
    assert(lit@ =~= previous_count_field());
    lit
}

/// A ratchet header as JSON: `{"n":N,"pn":P}`.
pub open spec fn header_json(h: RatchetHeader) -> Seq<u8> {
    header_open() + (decimal(h.n as nat) + (previous_count_field() + (decimal(h.pn as nat) + seq![125u8])))
}

/// The pieces of a session state's JSON text, in order: the field names
/// with their punctuation, and the field values.
pub open spec fn session_piece(m: SessionModel, k: int) -> Seq<u8> {
    if k == 0 {
        session_open()
    } else if k == 1 {
        byte_list(m.root_key)
    } else if k == 2 {
        send_chain_field()
    } else if k == 3 {
        byte_list(m.send_chain_key)
    } else if k == 4 {
        recv_chain_field()
    } else if k == 5 {
        byte_list(m.recv_chain_key)
    } else if k == 6 {
        message_number_field()
    } else if k == 7 {
        decimal(m.message_number as nat)
    } else if k == 8 {
        previous_chain_field()
    } else if k == 9 {
        decimal(m.previous_chain_length as nat)
    } else if k == 10 {
        ratchet_key_field()
    } else if k == 11 {
        byte_list(m.ratchet_public_key)
    } else {
        seq![125u8]
    }
}

/// The JSON text of a session state from piece `k` on.
pub open spec fn session_json_from(m: SessionModel, k: int) -> Seq<u8>
    decreases 13 - k,
{
    if k >= 13 || k < 0 {
        Seq::empty()
    } else {
        session_piece(m, k) + session_json_from(m, k + 1)
    }
}

/// A session state as compact JSON, its fields in declaration order and each
/// byte string as an array of numbers.
pub open spec fn session_json(m: SessionModel) -> Seq<u8> {
    session_json_from(m, 0)
}

/// Whether the input holds `lit` at `pos`.
fn match_literal(bytes: &[u8], pos: usize, lit: &[u8]) -> (ok: bool)
    requires
        pos <= bytes@.len(),
    ensures
        ok == (pos + lit@.len() <= bytes@.len() && bytes@.subrange(pos as int, pos + lit@.len()) == lit@),
{
    if lit.len() > bytes.len() - pos {
        return false;
    }
    let blen = bytes.len();
    let mut j: usize = 0;
    while j < lit.len()
        invariant
            0 <= j <= lit@.len(),
            blen == bytes@.len(),
            pos + lit@.len() <= bytes@.len(),
            forall|k: int| 0 <= k < j ==> bytes@[pos + k] == lit@[k],
        decreases lit@.len() - j,
    {
        if bytes[pos + j] != lit[j] {
            assert(bytes@.subrange(pos as int, pos + lit@.len())[j as int] == bytes@[pos + j]);
            return false;
        }
        j = j + 1;
    }
    assert(bytes@.subrange(pos as int, pos + lit@.len()) =~= lit@);
    true
}

/// Whether two byte strings are equal.
fn bytes_equal(a: &[u8], b: &[u8]) -> (eq: bool)
    ensures
        eq == (a@ == b@),
{
    if a.len() != b.len() {
        return false;
    }
    let mut j: usize = 0;
    while j < a.len()
        invariant
            0 <= j <= a@.len(),
            a@.len() == b@.len(),
            forall|k: int| 0 <= k < j ==> a@[k] == b@[k],
        decreases a@.len() - j,
    {
        if a[j] != b[j] {
            return false;
        }
        j = j + 1;
    }
    assert(a@ =~= b@);
    true
}

/// The JSON text of a ratchet header.
pub fn header_to_json(h: &RatchetHeader) -> (json: Vec<u8>)
    ensures
        json@ == header_json(*h),
{
    let mut out: Vec<u8> = Vec::new();
    let open = header_open_bytes();
    out.extend_from_slice(open.as_slice());
    write_decimal(&mut out, h.n);
    let field = previous_count_field_bytes();
    out.extend_from_slice(field.as_slice());
    write_decimal(&mut out, h.pn);
    out.push(125u8);
    assert(out@ =~= header_json(*h));
    out
}

/// Parses the JSON text of a ratchet header: exactly the texts that
/// `header_json` produces are accepted (the canonical form only).
pub fn header_from_json(bytes: &[u8]) -> (h: Option<RatchetHeader>)
    ensures
        h matches Some(h) ==> bytes@ == header_json(h),
        forall|g: RatchetHeader| bytes@ == #[trigger] header_json(g) ==> h == Some(g),
{
    let blen = bytes.len();
    assert(bytes@.subrange(0, bytes@.len() as int) =~= bytes@);
    let open = header_open_bytes();
    if !match_literal(bytes, 0, open.as_slice()) {
        proof {
            assert forall|g: RatchetHeader| bytes@ == #[trigger] header_json(g) implies false by {
                lemma_consume(bytes@, 0, header_open(), decimal(g.n as nat) + (previous_count_field() + (decimal(
                    g.pn as nat,
                ) + seq![125u8])));
            }
        }
        return None;
    }
    let i0: usize = 5;
    proof {
        assert forall|g: RatchetHeader| bytes@ == #[trigger] header_json(g) implies bytes@.subrange(
            i0 as int,
            bytes@.len() as int,
        ) == decimal(g.n as nat) + (previous_count_field() + (decimal(g.pn as nat) + seq![125u8])) by {
            lemma_consume(bytes@, 0, header_open(), decimal(g.n as nat) + (previous_count_field() + (decimal(
                g.pn as nat,
            ) + seq![125u8])));
        }
    }
    let first = read_decimal(bytes, i0, u32::MAX);
    let (n, i1) = match first {
        Some(p) => p,
        None => {
            proof {
                assert forall|g: RatchetHeader| bytes@ == #[trigger] header_json(g) implies false by {
                    let tail = previous_count_field() + (decimal(g.pn as nat) + seq![125u8]);
                    assert(bytes@.subrange(i0 as int, bytes@.len() as int) == decimal(g.n as nat) + tail);
                    assert(tail[0] == 44u8);
                }
            }
            return None;
        },
    };
    proof {
        assert forall|g: RatchetHeader| bytes@ == #[trigger] header_json(g) implies n == g.n && bytes@.subrange(
            i1 as int,
            bytes@.len() as int,
        ) == previous_count_field() + (decimal(g.pn as nat) + seq![125u8]) by {
            let tail = previous_count_field() + (decimal(g.pn as nat) + seq![125u8]);
            assert(bytes@.subrange(i0 as int, bytes@.len() as int) == decimal(g.n as nat) + tail);
            assert(tail[0] == 44u8);
            lemma_consume(bytes@, i0 as int, decimal(g.n as nat), tail);
            assert(first == Some((g.n, (i0 + decimal(g.n as nat).len()) as usize)));
        }
    }
    let field = previous_count_field_bytes();
    if !match_literal(bytes, i1, field.as_slice()) {
        proof {
            assert forall|g: RatchetHeader| bytes@ == #[trigger] header_json(g) implies false by {
                lemma_consume(bytes@, i1 as int, previous_count_field(), decimal(g.pn as nat) + seq![125u8]);
            }
        }
        return None;
    }
    let i2 = i1 + 6;
    proof {
        assert forall|g: RatchetHeader| bytes@ == #[trigger] header_json(g) implies bytes@.subrange(
            i2 as int,
            bytes@.len() as int,
        ) == decimal(g.pn as nat) + seq![125u8] by {
            lemma_consume(bytes@, i1 as int, previous_count_field(), decimal(g.pn as nat) + seq![125u8]);
        }
    }
    let second = read_decimal(bytes, i2, u32::MAX);
    let (pn, i3) = match second {
        Some(p) => p,
        None => {
            proof {
                assert forall|g: RatchetHeader| bytes@ == #[trigger] header_json(g) implies false by {
                    assert(bytes@.subrange(i2 as int, bytes@.len() as int) == decimal(g.pn as nat) + seq![125u8]);
                }
            }
            return None;
        },
    };
    let h = RatchetHeader { n, pn };
    let json = header_to_json(&h);
    proof {
        assert forall|g: RatchetHeader| bytes@ == #[trigger] header_json(g) implies h == g by {
            assert(bytes@.subrange(i2 as int, bytes@.len() as int) == decimal(g.pn as nat) + seq![125u8]);
            assert(pn == g.pn);
        }
    }
    if bytes_equal(json.as_slice(), bytes) {
        Some(h)
    } else {
        None
    }
}

/// The byte-string value in piece `k` of a session state's JSON text.
pub open spec fn session_bytes_field(m: SessionModel, k: int) -> Seq<u8> {
    if k == 1 {
        m.root_key
    } else if k == 3 {
        m.send_chain_key
    } else if k == 5 {
        m.recv_chain_key
    } else {
        m.ratchet_public_key
    }
}

/// The number in piece `k` of a session state's JSON text.
pub open spec fn session_number_field(m: SessionModel, k: int) -> u32 {
    if k == 7 {
        m.message_number
    } else {
        m.previous_chain_length
    }
}

/// The input is the JSON text of the well-formed session state `m`.
pub open spec fn encodes_session(bytes: Seq<u8>, m: SessionModel) -> bool {
    m.well_formed() && bytes == session_json(m)
}

/// Whatever session state the input encodes, its text from piece `k` on
/// starts at `pos`.
spec fn session_at(bytes: Seq<u8>, pos: int, k: int) -> bool {
    forall|m: SessionModel|
        #[trigger] encodes_session(bytes, m) ==> bytes.subrange(pos, bytes.len() as int) == session_json_from(m, k)
}

spec fn no_session(bytes: Seq<u8>) -> bool {
    forall|m: SessionModel| !#[trigger] encodes_session(bytes, m)
}

proof fn lemma_session_json_flat(m: SessionModel)
    ensures
        session_json(m) == session_open() + byte_list(m.root_key) + send_chain_field() + byte_list(m.send_chain_key)
            + recv_chain_field() + byte_list(m.recv_chain_key) + message_number_field() + decimal(
            m.message_number as nat,
        ) + previous_chain_field() + decimal(m.previous_chain_length as nat) + ratchet_key_field() + byte_list(
            m.ratchet_public_key,
        ) + seq![125u8],
{
    reveal_with_fuel(session_json_from, 14);
    assert(session_json(m) =~= session_open() + byte_list(m.root_key) + send_chain_field() + byte_list(
        m.send_chain_key,
    ) + recv_chain_field() + byte_list(m.recv_chain_key) + message_number_field() + decimal(
        m.message_number as nat,
    ) + previous_chain_field() + decimal(m.previous_chain_length as nat) + ratchet_key_field() + byte_list(
        m.ratchet_public_key,
    ) + seq![125u8]);
}

/// The JSON text of a session state.
pub fn session_to_json(st: &RatchetSessionState) -> (json: Vec<u8>)
    ensures
        json@ == session_json(st@),
{
    let mut out: Vec<u8> = Vec::new();
    out.extend_from_slice(session_open_bytes().as_slice());
    write_byte_list(&mut out, st.root_key.as_slice());
    out.extend_from_slice(send_chain_field_bytes().as_slice());
    write_byte_list(&mut out, st.send_chain_key.as_slice());
    out.extend_from_slice(recv_chain_field_bytes().as_slice());
    write_byte_list(&mut out, st.recv_chain_key.as_slice());
    out.extend_from_slice(message_number_field_bytes().as_slice());
    write_decimal(&mut out, st.message_number);
    out.extend_from_slice(previous_chain_field_bytes().as_slice());
    write_decimal(&mut out, st.previous_chain_length);
    out.extend_from_slice(ratchet_key_field_bytes().as_slice());
    write_byte_list(&mut out, st.ratchet_public_key.as_slice());
    out.push(125u8);
    proof {
        lemma_session_json_flat(st@);
        assert(out@ =~= session_json(st@));
    }
    out
}

/// Consumes the literal piece `k` at `pos`.
fn step_literal(bytes: &[u8], pos: usize, lit: &[u8], Ghost(k): Ghost<int>) -> (next: Option<usize>)
    requires
        pos <= bytes@.len(),
        0 <= k < 13,
        forall|m: SessionModel| #[trigger] session_piece(m, k) == lit@,
        session_at(bytes@, pos as int, k),
    ensures
        match next {
            Some(p) => p == pos + lit@.len() && p <= bytes@.len() && session_at(bytes@, p as int, k + 1),
            None => no_session(bytes@),
        },
{
    let blen = bytes.len();
    if match_literal(bytes, pos, lit) {
        let p = pos + lit.len();
        proof {
            assert forall|m: SessionModel| #[trigger] encodes_session(bytes@, m) implies bytes@.subrange(
                p as int,
                bytes@.len() as int,
            ) == session_json_from(m, k + 1) by {
                assert(session_piece(m, k) == lit@);
                lemma_consume(bytes@, pos as int, lit@, session_json_from(m, k + 1));
            }
        }
        Some(p)
    } else {
        proof {
            assert forall|m: SessionModel| !#[trigger] encodes_session(bytes@, m) by {
                if encodes_session(bytes@, m) {
                    assert(session_piece(m, k) == lit@);
                    lemma_consume(bytes@, pos as int, lit@, session_json_from(m, k + 1));
                }
            }
        }
        None
    }
}

/// Reads the byte array of piece `k` at `pos`.
fn step_byte_list(bytes: &[u8], pos: usize, Ghost(k): Ghost<int>) -> (next: Option<(Vec<u8>, usize)>)
    requires
        pos <= bytes@.len(),
        k == 1 || k == 3 || k == 5 || k == 11,
        session_at(bytes@, pos as int, k),
    ensures
        match next {
            Some((v, p)) => p <= bytes@.len() && session_at(bytes@, p as int, k + 1) && forall|m: SessionModel|
                #[trigger] encodes_session(bytes@, m) ==> v@ == session_bytes_field(m, k),
            None => no_session(bytes@),
        },
{
    let r = read_byte_list(bytes, pos);
    proof {
        assert forall|m: SessionModel| #[trigger] encodes_session(bytes@, m) implies list_at(
            bytes@,
            pos as int,
            session_bytes_field(m, k),
            session_json_from(m, k + 1),
        ) by {
            assert(session_piece(m, k) == byte_list(session_bytes_field(m, k)));
        }
    }
    match r {
        Some((v, p)) => {
            proof {
                assert forall|m: SessionModel| #[trigger] encodes_session(bytes@, m) implies bytes@.subrange(
                    p as int,
                    bytes@.len() as int,
                ) == session_json_from(m, k + 1) && v@ == session_bytes_field(m, k) by {
                    let t = session_bytes_field(m, k);
                    assert(list_at(bytes@, pos as int, t, session_json_from(m, k + 1)));
                    lemma_consume(bytes@, pos as int, byte_list(t), session_json_from(m, k + 1));
                }
            }
            Some((v, p))
        },
        None => {
            proof {
                assert forall|m: SessionModel| !#[trigger] encodes_session(bytes@, m) by {
                    if encodes_session(bytes@, m) {
                        let t = session_bytes_field(m, k);
                        assert(list_at(bytes@, pos as int, t, session_json_from(m, k + 1)));
                    }
                }
            }
            None
        },
    }
}

/// Reads a 32-byte key as the byte array of piece `k` at `pos`.
fn step_key(bytes: &[u8], pos: usize, Ghost(k): Ghost<int>) -> (next: Option<([u8; 32], usize)>)
    requires
        pos <= bytes@.len(),
        k == 1 || k == 3 || k == 5,
        session_at(bytes@, pos as int, k),
    ensures
        match next {
            Some((v, p)) => p <= bytes@.len() && session_at(bytes@, p as int, k + 1) && forall|m: SessionModel|
                #[trigger] encodes_session(bytes@, m) ==> v@ == session_bytes_field(m, k),
            None => no_session(bytes@),
        },
{
    let (list, p) = match step_byte_list(bytes, pos, Ghost(k)) {
        Some(r) => r,
        None => {
            return None;
        },
    };
    if list.len() != 32 {
        proof {
            assert forall|m: SessionModel| !#[trigger] encodes_session(bytes@, m) by {
                if encodes_session(bytes@, m) {
                    assert(list@ == session_bytes_field(m, k));
                }
            }
        }
        return None;
    }
    let mut key = [0u8; 32];
    let mut j: usize = 0;
    while j < 32
        invariant
            0 <= j <= 32,
            list@.len() == 32,
            forall|i: int| 0 <= i < j ==> key@[i] == list@[i],
        decreases 32 - j,
    {
        key[j] = list[j];
        j = j + 1;
    }
    assert(key@ =~= list@);
    Some((key, p))
}

/// Reads the decimal of piece `k` at `pos`.
fn step_number(bytes: &[u8], pos: usize, Ghost(k): Ghost<int>) -> (next: Option<(u32, usize)>)
    requires
        pos <= bytes@.len(),
        k == 7 || k == 9,
        session_at(bytes@, pos as int, k),
    ensures
        match next {
            Some((v, p)) => p <= bytes@.len() && session_at(bytes@, p as int, k + 1) && forall|m: SessionModel|
                #[trigger] encodes_session(bytes@, m) ==> v == session_number_field(m, k),
            None => no_session(bytes@),
        },
{
    let blen = bytes.len();
    let r = read_decimal(bytes, pos, u32::MAX);
    proof {
        assert forall|m: SessionModel| #[trigger] encodes_session(bytes@, m) implies bytes@.subrange(
            pos as int,
            bytes@.len() as int,
        ) == decimal(session_number_field(m, k) as nat) + session_json_from(m, k + 1) && session_json_from(
            m,
            k + 1,
        )[0] == 44u8 by {
            assert(session_piece(m, k) == decimal(session_number_field(m, k) as nat));
            assert(session_json_from(m, k + 1) == session_piece(m, k + 1) + session_json_from(m, k + 2));
            assert(session_piece(m, k + 1)[0] == 44u8);
        }
    }
    match r {
        Some((v, p)) => {
            proof {
                assert forall|m: SessionModel| #[trigger] encodes_session(bytes@, m) implies bytes@.subrange(
                    p as int,
                    bytes@.len() as int,
                ) == session_json_from(m, k + 1) && v == session_number_field(m, k) by {
                    let d = decimal(session_number_field(m, k) as nat);
                    let rest = session_json_from(m, k + 1);
                    assert(bytes@.subrange(pos as int, bytes@.len() as int) == d + rest);
                    assert(!is_digit(rest[0]));
                    lemma_consume(bytes@, pos as int, d, rest);
                    assert(r == Some((session_number_field(m, k), (pos + d.len()) as usize)));
                }
            }
            Some((v, p))
        },
        None => {
            proof {
                assert forall|m: SessionModel| !#[trigger] encodes_session(bytes@, m) by {
                    if encodes_session(bytes@, m) {
                        let d = decimal(session_number_field(m, k) as nat);
                        let rest = session_json_from(m, k + 1);
                        assert(bytes@.subrange(pos as int, bytes@.len() as int) == d + rest);
                        assert(!is_digit(rest[0]));
                    }
                }
            }
            None
        },
    }
}

/// Parses the JSON text of a session state: exactly the texts that
/// `session_json` produces for a well-formed state are accepted (the
/// canonical form only).
pub fn session_from_json(bytes: &[u8]) -> (st: Option<RatchetSessionState>)
    ensures
        st matches Some(st) ==> bytes@ == session_json(st@),
        forall|m: SessionModel| #[trigger] encodes_session(bytes@, m) ==> (st matches Some(st) && st@ == m),
{
    assert(bytes@.subrange(0, bytes@.len() as int) =~= bytes@);
    let p1 = match step_literal(bytes, 0, session_open_bytes().as_slice(), Ghost(0)) {
        Some(p) => p,
        None => {
            return None;
        },
    };
    let (root_key, p2) = match step_key(bytes, p1, Ghost(1)) {
        Some(r) => r,
        None => {
            return None;
        },
    };
    let p3 = match step_literal(bytes, p2, send_chain_field_bytes().as_slice(), Ghost(2)) {
        Some(p) => p,
        None => {
            return None;
        },
    };
    let (send_chain_key, p4) = match step_key(bytes, p3, Ghost(3)) {
        Some(r) => r,
        None => {
            return None;
        },
    };
    let p5 = match step_literal(bytes, p4, recv_chain_field_bytes().as_slice(), Ghost(4)) {
        Some(p) => p,
        None => {
            return None;
        },
    };
    let (recv_chain_key, p6) = match step_key(bytes, p5, Ghost(5)) {
        Some(r) => r,
        None => {
            return None;
        },
    };
    let p7 = match step_literal(bytes, p6, message_number_field_bytes().as_slice(), Ghost(6)) {
        Some(p) => p,
        None => {
            return None;
        },
    };
    let (message_number, p8) = match step_number(bytes, p7, Ghost(7)) {
        Some(r) => r,
        None => {
            return None;
        },
    };
    let p9 = match step_literal(bytes, p8, previous_chain_field_bytes().as_slice(), Ghost(8)) {
        Some(p) => p,
        None => {
            return None;
        },
    };
    let (previous_chain_length, p10) = match step_number(bytes, p9, Ghost(9)) {
        Some(r) => r,
        None => {
            return None;
        },
    };
    let p11 = match step_literal(bytes, p10, ratchet_key_field_bytes().as_slice(), Ghost(10)) {
        Some(p) => p,
        None => {
            return None;
        },
    };
    let (ratchet_public_key, p12) = match step_byte_list(bytes, p11, Ghost(11)) {
        Some(r) => r,
        None => {
            return None;
        },
    };
    let close = [125u8];
    assert(close@ =~= seq![125u8]);
    let _p13 = match step_literal(bytes, p12, close.as_slice(), Ghost(12)) {
        Some(p) => p,
        None => {
            return None;
        },
    };
    let st = RatchetSessionState {
        root_key,
        send_chain_key,
        recv_chain_key,
        message_number,
        previous_chain_length,
        ratchet_public_key,
    };
    let json = session_to_json(&st);
    proof {
        assert forall|m: SessionModel| #[trigger] encodes_session(bytes@, m) implies st@ == m by {
            assert(st@.root_key == m.root_key);
            assert(st@.send_chain_key == m.send_chain_key);
            assert(st@.recv_chain_key == m.recv_chain_key);
            assert(st@.ratchet_public_key == m.ratchet_public_key);
        }
    }
    if bytes_equal(json.as_slice(), bytes) {
        Some(st)
    } else {
        None
    }
}

} // verus!
