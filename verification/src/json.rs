//! A reader for the JSON objects that hold ratchet headers and session
//! states, in the spellings that JSON allows for them: whitespace between
//! tokens, fields in any order, and fields of other names, whose values of
//! any kind are skipped. Every field of the value must occur exactly once and
//! hold a non-negative integer in range, or an array of bytes. A value may
//! also be written as an array of its fields in declaration order. Keys are
//! read as strings of printable ASCII without escapes.

use vstd::prelude::*;
use crate::double_ratchet::RatchetHeader;
use crate::session::{RatchetSessionState, SessionModel};
use crate::wire::{digits_value, is_digit};

verus! {

/// JSON whitespace: space, tab, line feed, carriage return.
pub open spec fn is_json_space(c: u8) -> bool {
    c == 32 || c == 9 || c == 10 || c == 13
}

/// The first position at or after `i` that is not whitespace.
pub open spec fn skip_space(b: Seq<u8>, i: int) -> int
    decreases b.len() - i,
{
    if 0 <= i < b.len() && is_json_space(b[i]) {
        skip_space(b, i + 1)
    } else {
        i
    }
}

/// The first position at or after `i` that is not a decimal digit.
pub open spec fn digits_end(b: Seq<u8>, i: int) -> int
    decreases b.len() - i,
{
    if 0 <= i < b.len() && is_digit(b[i]) {
        digits_end(b, i + 1)
    } else {
        i
    }
}

/// A printable ASCII byte that may stand in a JSON string without escape.
pub open spec fn is_plain(c: u8) -> bool {
    32 <= c <= 126 && c != 34 && c != 92
}

/// The first position at or after `i` that is not a plain string byte.
pub open spec fn plain_end(b: Seq<u8>, i: int) -> int
    decreases b.len() - i,
{
    if 0 <= i < b.len() && is_plain(b[i]) {
        plain_end(b, i + 1)
    } else {
        i
    }
}

/// A JSON integer at `i`: its value and the position after it. A leading
/// zero before another digit, and a fraction or an exponent, are refused.
pub open spec fn number_at(b: Seq<u8>, i: int) -> Option<(nat, int)> {
    let e = digits_end(b, i);
    if !(0 <= i < e) {
        None
    } else if b[i] == 48 && e > i + 1 {
        None
    } else if e < b.len() && (b[e] == 46 || b[e] == 101 || b[e] == 69) {
        None
    } else {
        Some((digits_value(b.subrange(i, e)), e))
    }
}

/// A JSON string of plain bytes at `i`: its contents and the position after
/// the closing quote.
pub open spec fn string_at(b: Seq<u8>, i: int) -> Option<(Seq<u8>, int)> {
    if 0 <= i < b.len() && b[i] == 34 {
        let e = plain_end(b, i + 1);
        if e < b.len() && b[e] == 34 {
            Some((b.subrange(i + 1, e), e + 1))
        } else {
            None
        }
    } else {
        None
    }
}

/// A number as a byte, where it is one.
pub open spec fn byte_of(v: nat) -> Option<Seq<u8>> {
    if v <= 255 {
        Some(seq![v as u8])
    } else {
        None
    }
}

/// Two byte strings one after the other, where both are there.
pub open spec fn join_bytes(a: Option<Seq<u8>>, c: Option<Seq<u8>>) -> Option<Seq<u8>> {
    match (a, c) {
        (Some(x), Some(y)) => Some(x + y),
        _ => None,
    }
}

/// The rest of a JSON array of numbers after an element, from `i`: its
/// elements as bytes (`None` where one is above 255) and the position after
/// the closing bracket.
pub open spec fn list_rest(b: Seq<u8>, i: int) -> Option<(Option<Seq<u8>>, int)>
    decreases b.len() - i,
{
    let j = skip_space(b, i);
    if !(0 <= i <= j < b.len()) {
        None
    } else if b[j] == 93 {
        Some((Some(Seq::empty()), j + 1))
    } else if b[j] == 44 {
        match number_at(b, skip_space(b, j + 1)) {
            None => None,
            Some((v, e)) => if !(i < e <= b.len()) {
                None
            } else {
                match list_rest(b, e) {
                    None => None,
                    Some((rest, end)) => Some((join_bytes(byte_of(v), rest), end)),
                }
            },
        }
    } else {
        None
    }
}

/// A JSON array of numbers at `i`: its elements as bytes (`None` where one is
/// above 255) and the position after it.
pub open spec fn list_value_at(b: Seq<u8>, i: int) -> Option<(Option<Seq<u8>>, int)> {
    if 0 <= i < b.len() && b[i] == 91 {
        let j = skip_space(b, i + 1);
        if j < b.len() && b[j] == 93 {
            Some((Some(Seq::empty()), j + 1))
        } else {
            match number_at(b, j) {
                None => None,
                Some((v, e)) => match list_rest(b, e) {
                    None => None,
                    Some((rest, end)) => Some((join_bytes(byte_of(v), rest), end)),
                },
            }
        }
    } else {
        None
    }
}

/// Whether `c` is a hexadecimal digit.
pub open spec fn is_hex(c: u8) -> bool {
    (48 <= c <= 57) || (65 <= c <= 70) || (97 <= c <= 102)
}

/// The end of an escape sequence whose backslash is just before `i`.
pub open spec fn escape_end(b: Seq<u8>, i: int) -> Option<int> {
    if !(0 <= i < b.len()) {
        None
    } else if b[i] == 34 || b[i] == 92 || b[i] == 47 || b[i] == 98 || b[i] == 102 || b[i] == 110 || b[i] == 114
        || b[i] == 116 {
        Some(i + 1)
    } else if b[i] == 117 && i + 4 < b.len() && is_hex(b[i + 1]) && is_hex(b[i + 2]) && is_hex(b[i + 3]) && is_hex(
        b[i + 4],
    ) {
        Some(i + 5)
    } else {
        None
    }
}

/// The end of the rest of a JSON string from `i` (inside the quotes): the
/// position after the closing quote. Escapes must be valid; control bytes are
/// refused; other bytes are taken as they are.
pub open spec fn string_rest_end(b: Seq<u8>, i: int) -> Option<int>
    decreases b.len() - i,
{
    if !(0 <= i < b.len()) {
        None
    } else if b[i] == 34 {
        Some(i + 1)
    } else if b[i] == 92 {
        match escape_end(b, i + 1) {
            None => None,
            Some(e) => if i < e <= b.len() {
                string_rest_end(b, e)
            } else {
                None
            },
        }
    } else if b[i] < 32 {
        None
    } else {
        string_rest_end(b, i + 1)
    }
}

/// The end of the exponent part of a number from `e`, if there is one.
pub open spec fn exponent_end(b: Seq<u8>, e: int) -> Option<int> {
    if 0 <= e < b.len() && (b[e] == 101 || b[e] == 69) {
        let s = if e + 1 < b.len() && (b[e + 1] == 43 || b[e + 1] == 45) {
            e + 2
        } else {
            e + 1
        };
        let d = digits_end(b, s);
        if d == s {
            None
        } else {
            Some(d)
        }
    } else {
        Some(e)
    }
}

/// The end of the fraction and exponent parts of a number from `e`.
pub open spec fn fraction_end(b: Seq<u8>, e: int) -> Option<int> {
    if 0 <= e < b.len() && b[e] == 46 {
        let d = digits_end(b, e + 1);
        if d == e + 1 {
            None
        } else {
            exponent_end(b, d)
        }
    } else {
        exponent_end(b, e)
    }
}

/// The end of a JSON number whose digits start at `i` (after any minus sign).
pub open spec fn number_end(b: Seq<u8>, i: int) -> Option<int> {
    if !(0 <= i < b.len()) {
        None
    } else if b[i] == 48 {
        if i + 1 < b.len() && is_digit(b[i + 1]) {
            None
        } else {
            fraction_end(b, i + 1)
        }
    } else if is_digit(b[i]) {
        fraction_end(b, digits_end(b, i))
    } else {
        None
    }
}

/// Whether `b` holds `lit` at `i`.
pub open spec fn literal_at(b: Seq<u8>, i: int, lit: Seq<u8>) -> bool {
    0 <= i && i + lit.len() <= b.len() && b.subrange(i, i + lit.len()) == lit
}

/// The end of a JSON value that is not an array or an object, at `i`: a
/// string, `null`, `true`, `false` or a number.
pub open spec fn scalar_end(b: Seq<u8>, i: int) -> Option<int> {
    if !(0 <= i < b.len()) {
        None
    } else if b[i] == 34 {
        string_rest_end(b, i + 1)
    } else if literal_at(b, i, seq![110u8, 117, 108, 108]) || literal_at(b, i, seq![116u8, 114, 117, 101]) {
        Some(i + 4)
    } else if literal_at(b, i, seq![102u8, 97, 108, 115, 101]) {
        Some(i + 5)
    } else if b[i] == 45 {
        number_end(b, i + 1)
    } else {
        number_end(b, i)
    }
}

/// The position after the key and the colon of an object member at `i`.
pub open spec fn key_colon_end(b: Seq<u8>, i: int) -> Option<int> {
    if 0 <= i < b.len() && b[i] == 34 {
        match string_rest_end(b, i + 1) {
            None => None,
            Some(e) => {
                let j = skip_space(b, e);
                if 0 <= j < b.len() && b[j] == 58 {
                    Some(j + 1)
                } else {
                    None
                }
            },
        }
    } else {
        None
    }
}

/// Skipping a JSON value of any kind from `i`, with the arrays (`[`) and
/// objects (`{`) that enclose the current point in `open`, in the state
/// `state`: 0, a value comes next; 1, just after `[`; 2, a value has ended;
/// 3, just after `{`. The result is the position after the value.
pub open spec fn skip_from(b: Seq<u8>, i: int, open: Seq<u8>, state: int) -> Option<int>
    decreases b.len() - i, if state == 1 {
        1int
    } else {
        0int
    },
{
    if !(0 <= i <= b.len()) {
        None
    } else if state == 0 {
        let j = skip_space(b, i);
        if !(i <= j < b.len()) {
            None
        } else if b[j] == 91 {
            skip_from(b, j + 1, open.push(91u8), 1)
        } else if b[j] == 123 {
            skip_from(b, j + 1, open.push(123u8), 3)
        } else {
            match scalar_end(b, j) {
                None => None,
                Some(e) => if i < e <= b.len() {
                    skip_from(b, e, open, 2)
                } else {
                    None
                },
            }
        }
    } else if state == 1 {
        let j = skip_space(b, i);
        if !(i <= j <= b.len()) {
            None
        } else if j < b.len() && b[j] == 93 {
            skip_from(b, j + 1, open.drop_last(), 2)
        } else {
            skip_from(b, j, open, 0)
        }
    } else if state == 3 {
        let j = skip_space(b, i);
        if !(i <= j < b.len()) {
            None
        } else if b[j] == 125 {
            skip_from(b, j + 1, open.drop_last(), 2)
        } else {
            match key_colon_end(b, j) {
                None => None,
                Some(e) => if i < e <= b.len() {
                    skip_from(b, e, open, 0)
                } else {
                    None
                },
            }
        }
    } else if open.len() == 0 {
        Some(i)
    } else {
        let j = skip_space(b, i);
        if !(i <= j < b.len()) {
            None
        } else if b[j] == 44 {
            if open.last() == 91 {
                skip_from(b, j + 1, open, 0)
            } else {
                match key_colon_end(b, skip_space(b, j + 1)) {
                    None => None,
                    Some(e) => if i < e <= b.len() {
                        skip_from(b, e, open, 0)
                    } else {
                        None
                    },
                }
            }
        } else if (b[j] == 93 && open.last() == 91) || (b[j] == 125 && open.last() == 123) {
            skip_from(b, j + 1, open.drop_last(), 2)
        } else {
            None
        }
    }
}

/// The value of a field: an integer, an array of integers read as bytes, or
/// a value of another kind, which only fields of other names may hold.
pub enum JsonValue {
    Number(nat),
    Bytes(Option<Seq<u8>>),
    Other,
}

/// A JSON value at `i` and the position after it.
pub open spec fn value_at(b: Seq<u8>, i: int) -> Option<(JsonValue, int)> {
    if 0 <= i < b.len() && b[i] == 91 && list_value_at(b, i) is Some {
        let (v, e) = list_value_at(b, i)->Some_0;
        Some((JsonValue::Bytes(v), e))
    } else if number_at(b, i) is Some {
        let (n, e) = number_at(b, i)->Some_0;
        Some((JsonValue::Number(n), e))
    } else {
        match skip_from(b, i, Seq::empty(), 0) {
            Some(e) => Some((JsonValue::Other, e)),
            None => None,
        }
    }
}

/// An object member `"key": value` at `i` and the position after it.
pub open spec fn member_at(b: Seq<u8>, i: int) -> Option<((Seq<u8>, JsonValue), int)> {
    match string_at(b, i) {
        None => None,
        Some((k, e1)) => {
            let j = skip_space(b, e1);
            if j < b.len() && b[j] == 58 {
                match value_at(b, skip_space(b, j + 1)) {
                    None => None,
                    Some((v, e2)) => Some(((k, v), e2)),
                }
            } else {
                None
            }
        },
    }
}

/// The rest of an object's members after a member, from `i`, and the
/// position after the closing brace.
pub open spec fn members_rest(b: Seq<u8>, i: int) -> Option<(Seq<(Seq<u8>, JsonValue)>, int)>
    decreases b.len() - i,
{
    let j = skip_space(b, i);
    if !(0 <= i <= j < b.len()) {
        None
    } else if b[j] == 125 {
        Some((Seq::empty(), j + 1))
    } else if b[j] == 44 {
        match member_at(b, skip_space(b, j + 1)) {
            None => None,
            Some((m, e)) => if !(i < e <= b.len()) {
                None
            } else {
                match members_rest(b, e) {
                    None => None,
                    Some((rest, end)) => Some((seq![m] + rest, end)),
                }
            },
        }
    } else {
        None
    }
}

/// The members of an object from `j`, just after the opening brace and any
/// whitespace, and the position after the closing brace.
pub open spec fn object_body(b: Seq<u8>, j: int) -> Option<(Seq<(Seq<u8>, JsonValue)>, int)> {
    if 0 <= j < b.len() && b[j] == 125 {
        Some((Seq::<(Seq<u8>, JsonValue)>::empty(), j + 1))
    } else {
        match member_at(b, j) {
            None => None,
            Some((m, e)) => match members_rest(b, e) {
                None => None,
                Some((rest, end)) => Some((seq![m] + rest, end)),
            },
        }
    }
}

/// The members of the JSON object that is the whole text, with whitespace
/// allowed around it.
pub open spec fn json_object(b: Seq<u8>) -> Option<Seq<(Seq<u8>, JsonValue)>> {
    let i = skip_space(b, 0);
    if !(i < b.len() && b[i] == 123) {
        None
    } else {
        match object_body(b, skip_space(b, i + 1)) {
            None => None,
            Some((ms, end)) => if skip_space(b, end) == b.len() {
                Some(ms)
            } else {
                None
            },
        }
    }
}

/// The rest of an array's elements after an element, from `i`, and the
/// position after the closing bracket.
pub open spec fn elements_rest(b: Seq<u8>, i: int) -> Option<(Seq<JsonValue>, int)>
    decreases b.len() - i,
{
    let j = skip_space(b, i);
    if !(0 <= i <= j < b.len()) {
        None
    } else if b[j] == 93 {
        Some((Seq::empty(), j + 1))
    } else if b[j] == 44 {
        match value_at(b, skip_space(b, j + 1)) {
            None => None,
            Some((v, e)) => if !(i < e <= b.len()) {
                None
            } else {
                match elements_rest(b, e) {
                    None => None,
                    Some((rest, end)) => Some((seq![v] + rest, end)),
                }
            },
        }
    } else {
        None
    }
}

/// The elements of an array from `j`, just after the opening bracket and
/// any whitespace, and the position after the closing bracket.
pub open spec fn array_body(b: Seq<u8>, j: int) -> Option<(Seq<JsonValue>, int)> {
    if 0 <= j < b.len() && b[j] == 93 {
        Some((Seq::<JsonValue>::empty(), j + 1))
    } else {
        match value_at(b, j) {
            None => None,
            Some((v, e)) => match elements_rest(b, e) {
                None => None,
                Some((rest, end)) => Some((seq![v] + rest, end)),
            },
        }
    }
}

/// The elements of the JSON array that is the whole text, with whitespace
/// allowed around it: the form in which a value lists its fields in order.
pub open spec fn json_array(b: Seq<u8>) -> Option<Seq<JsonValue>> {
    let i = skip_space(b, 0);
    if !(i < b.len() && b[i] == 91) {
        None
    } else {
        match array_body(b, skip_space(b, i + 1)) {
            None => None,
            Some((vs, end)) => if skip_space(b, end) == b.len() {
                Some(vs)
            } else {
                None
            },
        }
    }
}

/// A value as a `u32`: an integer in range.
pub open spec fn u32_value(v: JsonValue) -> Option<u32> {
    match v {
        JsonValue::Number(n) => if n <= u32::MAX {
            Some(n as u32)
        } else {
            None
        },
        _ => None,
    }
}

/// A value as bytes: an array of bytes.
pub open spec fn bytes_value(v: JsonValue) -> Option<Seq<u8>> {
    match v {
        JsonValue::Bytes(Some(x)) => Some(x),
        _ => None,
    }
}

/// A value as a 32-byte key.
pub open spec fn key32_value(v: JsonValue) -> Option<Seq<u8>> {
    match bytes_value(v) {
        Some(x) => if x.len() == 32 {
            Some(x)
        } else {
            None
        },
        None => None,
    }
}

/// How many members have key `k`.
pub open spec fn key_count(ms: Seq<(Seq<u8>, JsonValue)>, k: Seq<u8>) -> nat
    decreases ms.len(),
{
    if ms.len() == 0 {
        0
    } else {
        key_count(ms.drop_last(), k) + if ms.last().0 == k {
            1nat
        } else {
            0nat
        }
    }
}

/// The value of the last member with key `k`.
pub open spec fn key_value(ms: Seq<(Seq<u8>, JsonValue)>, k: Seq<u8>) -> Option<JsonValue>
    decreases ms.len(),
{
    if ms.len() == 0 {
        None
    } else if ms.last().0 == k {
        Some(ms.last().1)
    } else {
        key_value(ms.drop_last(), k)
    }
}

/// The field `k` as a `u32`: it occurs once and holds an integer in range.
pub open spec fn u32_field(ms: Seq<(Seq<u8>, JsonValue)>, k: Seq<u8>) -> Option<u32> {
    if key_count(ms, k) == 1 {
        match key_value(ms, k) {
            Some(v) => u32_value(v),
            None => None,
        }
    } else {
        None
    }
}

/// The field `k` as bytes: it occurs once and holds an array of bytes.
pub open spec fn bytes_field(ms: Seq<(Seq<u8>, JsonValue)>, k: Seq<u8>) -> Option<Seq<u8>> {
    if key_count(ms, k) == 1 {
        match key_value(ms, k) {
            Some(v) => bytes_value(v),
            None => None,
        }
    } else {
        None
    }
}

/// The largest number that the reader keeps exactly; larger ones are kept
/// as this bound, which no field accepts.
pub open spec fn number_cap() -> nat {
    0x1_0000_0000
}

pub open spec fn capped(v: nat) -> u64 {
    if v < number_cap() {
        v as u64
    } else {
        number_cap() as u64
    }
}

/// Reads whitespace from `i`.
pub fn read_space(b: &[u8], i: usize) -> (j: usize)
    requires
        i <= b@.len(),
    ensures
        j == skip_space(b@, i as int),
        i <= j <= b@.len(),
{
    let mut j = i;
    while j < b.len() && (b[j] == 32 || b[j] == 9 || b[j] == 10 || b[j] == 13)
        invariant
            i <= j <= b@.len(),
            skip_space(b@, i as int) == skip_space(b@, j as int),
        decreases b@.len() - j,
    {
        j = j + 1;
    }
    j
}

/// Reads a JSON integer at `i`, its value capped at `number_cap()`.
pub fn read_number(b: &[u8], i: usize) -> (res: Option<(u64, usize)>)
    requires
        i <= b@.len(),
    ensures
        match number_at(b@, i as int) {
            None => res is None,
            Some((v, e)) => res matches Some((x, n)) && x == capped(v) && n == e && i < n <= b@.len(),
        },
{
    let mut j = i;
    let mut acc: u64 = 0;
    while j < b.len() && 48 <= b[j] && b[j] <= 57
        invariant
            i <= j <= b@.len(),
            digits_end(b@, i as int) == digits_end(b@, j as int),
            acc == capped(digits_value(b@.subrange(i as int, j as int))),
        decreases b@.len() - j,
    {
        let ghost before = b@.subrange(i as int, j as int);
        assert(b@.subrange(i as int, j + 1) =~= before.push(b@[j as int]));
        assert(before.push(b@[j as int]).drop_last() =~= before);
        let d = (b[j] - 48) as u64;
        if acc < 0x1_0000_0000 {
            let next = acc * 10 + d;
            acc = if next < 0x1_0000_0000 {
                next
            } else {
                0x1_0000_0000
            };
        }
        j = j + 1;
    }
    if j == i {
        return None;
    }
    if b[i] == 48 && j > i + 1 {
        return None;
    }
    if j < b.len() && (b[j] == 46 || b[j] == 101 || b[j] == 69) {
        return None;
    }
    Some((acc, j))
}

/// Reads a JSON string of plain bytes at `i`: the bounds of its contents and
/// the position after it.
pub fn read_string(b: &[u8], i: usize) -> (res: Option<(usize, usize, usize)>)
    requires
        i <= b@.len(),
    ensures
        match string_at(b@, i as int) {
            None => res is None,
            Some((k, e)) => res matches Some((s, t, n)) && s <= t <= b@.len() && b@.subrange(s as int, t as int)
                == k && n == e && i < n <= b@.len(),
        },
{
    if i >= b.len() || b[i] != 34 {
        return None;
    }
    let mut j = i + 1;
    while j < b.len() && 32 <= b[j] && b[j] <= 126 && b[j] != 34 && b[j] != 92
        invariant
            i < j <= b@.len(),
            plain_end(b@, i + 1) == plain_end(b@, j as int),
        decreases b@.len() - j,
    {
        j = j + 1;
    }
    if j < b.len() && b[j] == 34 {
        Some((i + 1, j, j + 1))
    } else {
        None
    }
}

/// A position, where there is one.
pub open spec fn opt_pos(o: Option<usize>) -> Option<int> {
    match o {
        Some(p) => Some(p as int),
        None => None,
    }
}

fn is_hex_byte(c: u8) -> (r: bool)
    ensures
        r == is_hex(c),
{
    (48 <= c && c <= 57) || (65 <= c && c <= 70) || (97 <= c && c <= 102)
}

/// Reads an escape sequence whose backslash is just before `i`.
fn read_escape(b: &[u8], i: usize) -> (res: Option<usize>)
    requires
        i <= b@.len(),
    ensures
        opt_pos(res) == escape_end(b@, i as int),
        res matches Some(e) ==> i < e <= b@.len(),
{
    if i >= b.len() {
        return None;
    }
    let c = b[i];
    if c == 34 || c == 92 || c == 47 || c == 98 || c == 102 || c == 110 || c == 114 || c == 116 {
        return Some(i + 1);
    }
    if c == 117 && b.len() - i > 4 && is_hex_byte(b[i + 1]) && is_hex_byte(b[i + 2]) && is_hex_byte(b[i + 3])
        && is_hex_byte(b[i + 4]) {
        return Some(i + 5);
    }
    None
}

/// Reads the rest of a JSON string from `i`, inside the quotes.
fn read_string_rest(b: &[u8], i: usize) -> (res: Option<usize>)
    requires
        i <= b@.len(),
    ensures
        opt_pos(res) == string_rest_end(b@, i as int),
        res matches Some(e) ==> i < e <= b@.len(),
{
    let mut pos = i;
    loop
        invariant
            i <= pos <= b@.len(),
            string_rest_end(b@, i as int) == string_rest_end(b@, pos as int),
        decreases b@.len() - pos,
    {
        if pos >= b.len() {
            return None;
        }
        if b[pos] == 34 {
            return Some(pos + 1);
        }
        if b[pos] == 92 {
            match read_escape(b, pos + 1) {
                None => {
                    return None;
                },
                Some(e) => {
                    pos = e;
                },
            }
        } else if b[pos] < 32 {
            return None;
        } else {
            pos = pos + 1;
        }
    }
}

/// The first position at or after `i` that is not a digit.
fn read_digits(b: &[u8], i: usize) -> (j: usize)
    requires
        i <= b@.len(),
    ensures
        j == digits_end(b@, i as int),
        i <= j <= b@.len(),
{
    let mut j = i;
    while j < b.len() && 48 <= b[j] && b[j] <= 57
        invariant
            i <= j <= b@.len(),
            digits_end(b@, i as int) == digits_end(b@, j as int),
        decreases b@.len() - j,
    {
        j = j + 1;
    }
    j
}

fn read_exponent(b: &[u8], e: usize) -> (res: Option<usize>)
    requires
        e <= b@.len(),
    ensures
        opt_pos(res) == exponent_end(b@, e as int),
        res matches Some(d) ==> e <= d <= b@.len(),
{
    if e < b.len() && (b[e] == 101 || b[e] == 69) {
        let s = if e + 1 < b.len() && (b[e + 1] == 43 || b[e + 1] == 45) {
            e + 2
        } else {
            e + 1
        };
        let d = read_digits(b, s);
        if d == s {
            None
        } else {
            Some(d)
        }
    } else {
        Some(e)
    }
}

fn read_fraction(b: &[u8], e: usize) -> (res: Option<usize>)
    requires
        e <= b@.len(),
    ensures
        opt_pos(res) == fraction_end(b@, e as int),
        res matches Some(d) ==> e <= d <= b@.len(),
{
    if e < b.len() && b[e] == 46 {
        let d = read_digits(b, e + 1);
        if d == e + 1 {
            None
        } else {
            read_exponent(b, d)
        }
    } else {
        read_exponent(b, e)
    }
}

fn read_number_end(b: &[u8], i: usize) -> (res: Option<usize>)
    requires
        i <= b@.len(),
    ensures
        opt_pos(res) == number_end(b@, i as int),
        res matches Some(d) ==> i < d <= b@.len(),
{
    if i >= b.len() {
        return None;
    }
    if b[i] == 48 {
        if i + 1 < b.len() && 48 <= b[i + 1] && b[i + 1] <= 57 {
            None
        } else {
            read_fraction(b, i + 1)
        }
    } else if 48 <= b[i] && b[i] <= 57 {
        let d = read_digits(b, i + 1);
        read_fraction(b, d)
    } else {
        None
    }
}

/// Whether `b` holds the bytes `lit` at `i`.
fn has_literal(b: &[u8], i: usize, lit: &[u8]) -> (r: bool)
    requires
        i <= b@.len(),
    ensures
        r == literal_at(b@, i as int, lit@),
{
    if lit.len() > b.len() - i {
        return false;
    }
    let blen = b.len();
    let mut x: usize = 0;
    while x < lit.len()
        invariant
            blen == b@.len(),
            i <= b@.len(),
            i + lit@.len() <= b@.len(),
            0 <= x <= lit@.len(),
            forall|y: int| 0 <= y < x ==> b@[i + y] == lit@[y],
        decreases lit@.len() - x,
    {
        if b[i + x] != lit[x] {
            assert(b@.subrange(i as int, i + lit@.len())[x as int] == b@[i + x]);
            return false;
        }
        x = x + 1;
    }
    assert(b@.subrange(i as int, i + lit@.len()) =~= lit@);
    true
}

fn read_scalar(b: &[u8], i: usize) -> (res: Option<usize>)
    requires
        i <= b@.len(),
    ensures
        opt_pos(res) == scalar_end(b@, i as int),
        res matches Some(d) ==> i < d <= b@.len(),
{
    if i >= b.len() {
        return None;
    }
    if b[i] == 34 {
        return read_string_rest(b, i + 1);
    }
    let null_lit = [110u8, 117, 108, 108];
    let true_lit = [116u8, 114, 117, 101];
    let false_lit = [102u8, 97, 108, 115, 101];
    proof {
        assert(null_lit@ =~= seq![110u8, 117, 108, 108]);
        assert(true_lit@ =~= seq![116u8, 114, 117, 101]);
        assert(false_lit@ =~= seq![102u8, 97, 108, 115, 101]);
    }
    if has_literal(b, i, null_lit.as_slice()) || has_literal(b, i, true_lit.as_slice()) {
        return Some(i + 4);
    }
    if has_literal(b, i, false_lit.as_slice()) {
        return Some(i + 5);
    }
    if b[i] == 45 {
        read_number_end(b, i + 1)
    } else {
        read_number_end(b, i)
    }
}

fn read_key_colon(b: &[u8], i: usize) -> (res: Option<usize>)
    requires
        i <= b@.len(),
    ensures
        opt_pos(res) == key_colon_end(b@, i as int),
        res matches Some(d) ==> i < d <= b@.len(),
{
    if !(i < b.len() && b[i] == 34) {
        return None;
    }
    let e = match read_string_rest(b, i + 1) {
        Some(e) => e,
        None => {
            return None;
        },
    };
    let j = read_space(b, e);
    if j < b.len() && b[j] == 58 {
        Some(j + 1)
    } else {
        None
    }
}

/// Skips a JSON value of any kind at `i`: the position after it.
pub fn skip_value(b: &[u8], i: usize) -> (res: Option<usize>)
    requires
        i <= b@.len(),
    ensures
        opt_pos(res) == skip_from(b@, i as int, Seq::empty(), 0),
        res matches Some(d) ==> i <= d <= b@.len(),
{
    let mut pos = i;
    let mut open: Vec<u8> = Vec::new();
    let mut state: u8 = 0;
    assert(open@ =~= Seq::<u8>::empty());
    loop
        invariant
            i <= pos <= b@.len(),
            state <= 3,
            (state == 1 || state == 3) ==> open@.len() > 0,
            skip_from(b@, i as int, Seq::empty(), 0) == skip_from(b@, pos as int, open@, state as int),
        decreases b@.len() - pos, if state == 1 {
            1int
        } else {
            0int
        },
    {
        if state == 0 {
            let j = read_space(b, pos);
            if j >= b.len() {
                return None;
            }
            if b[j] == 91 {
                open.push(91u8);
                pos = j + 1;
                state = 1;
            } else if b[j] == 123 {
                open.push(123u8);
                pos = j + 1;
                state = 3;
            } else {
                match read_scalar(b, j) {
                    None => {
                        return None;
                    },
                    Some(e) => {
                        pos = e;
                        state = 2;
                    },
                }
            }
        } else if state == 1 {
            let j = read_space(b, pos);
            if j < b.len() && b[j] == 93 {
                let _ = open.pop();
                pos = j + 1;
                state = 2;
            } else {
                pos = j;
                state = 0;
            }
        } else if state == 3 {
            let j = read_space(b, pos);
            if j >= b.len() {
                return None;
            }
            if b[j] == 125 {
                let _ = open.pop();
                pos = j + 1;
                state = 2;
            } else {
                match read_key_colon(b, j) {
                    None => {
                        return None;
                    },
                    Some(e) => {
                        pos = e;
                        state = 0;
                    },
                }
            }
        } else {
            if open.len() == 0 {
                return Some(pos);
            }
            let j = read_space(b, pos);
            if j >= b.len() {
                return None;
            }
            let top = open[open.len() - 1];
            if b[j] == 44 {
                if top == 91 {
                    pos = j + 1;
                    state = 0;
                } else {
                    let k = read_space(b, j + 1);
                    match read_key_colon(b, k) {
                        None => {
                            return None;
                        },
                        Some(e) => {
                            pos = e;
                            state = 0;
                        },
                    }
                }
            } else if (b[j] == 93 && top == 91) || (b[j] == 125 && top == 123) {
                let _ = open.pop();
                pos = j + 1;
                state = 2;
            } else {
                return None;
            }
        }
    }
}

/// A field value as read: an integer (capped at `number_cap()`), or the
/// bytes of an array (`None` where an element is above 255).
pub enum ReadValue {
    Number(u64),
    Bytes(Option<Vec<u8>>),
    Other,
}

pub open spec fn opt_bytes(o: Option<Vec<u8>>) -> Option<Seq<u8>> {
    match o {
        Some(v) => Some(v@),
        None => None,
    }
}

/// A value as read stands for the JSON value `v`.
pub open spec fn value_matches(r: ReadValue, v: JsonValue) -> bool {
    match (r, v) {
        (ReadValue::Number(x), JsonValue::Number(n)) => x == capped(n),
        (ReadValue::Bytes(o), JsonValue::Bytes(s)) => opt_bytes(o) == s,
        (ReadValue::Other, JsonValue::Other) => true,
        _ => false,
    }
}

/// An object member as read: the bounds of its key in the text, and its value.
pub struct Member {
    pub key_start: usize,
    pub key_end: usize,
    pub value: ReadValue,
}

/// A member as read stands for the member `m` of the text `b`.
pub open spec fn member_matches(b: Seq<u8>, r: Member, m: (Seq<u8>, JsonValue)) -> bool {
    &&& r.key_start <= r.key_end <= b.len()
    &&& b.subrange(r.key_start as int, r.key_end as int) == m.0
    &&& value_matches(r.value, m.1)
}

/// Members as read stand for the members `ms` of the text `b`.
pub open spec fn members_match(b: Seq<u8>, rs: Seq<Member>, ms: Seq<(Seq<u8>, JsonValue)>) -> bool {
    &&& rs.len() == ms.len()
    &&& forall|i: int| 0 <= i < rs.len() ==> #[trigger] member_matches(b, rs[i], ms[i])
}

proof fn lemma_join_assoc(a: Option<Seq<u8>>, c: Option<Seq<u8>>, d: Option<Seq<u8>>)
    ensures
        join_bytes(join_bytes(a, c), d) == join_bytes(a, join_bytes(c, d)),
{
    if let (Some(x), Some(y), Some(z)) = (a, c, d) {
        assert((x + y) + z =~= x + (y + z));
    }
}

proof fn lemma_join_empty(a: Option<Seq<u8>>)
    ensures
        join_bytes(a, Some(Seq::empty())) == a,
{
    if let Some(x) = a {
        assert(x + Seq::<u8>::empty() =~= x);
    }
}

/// Appends the number `v` as a byte, or gives `None` where it is above 255.
fn push_byte(acc: Option<Vec<u8>>, v: u64, Ghost(n): Ghost<nat>) -> (r: Option<Vec<u8>>)
    requires
        v == capped(n),
    ensures
        opt_bytes(r) == join_bytes(opt_bytes(acc), byte_of(n)),
{
    match acc {
        Some(mut x) => {
            if v <= 255 {
                let ghost before = x@;
                x.push(v as u8);
                assert(x@ =~= before + seq![n as u8]);
                Some(x)
            } else {
                None
            }
        },
        None => None,
    }
}

/// Reads a JSON array of numbers at `i`, as bytes.
pub fn read_list(b: &[u8], i: usize) -> (res: Option<(Option<Vec<u8>>, usize)>)
    requires
        i <= b@.len(),
    ensures
        match list_value_at(b@, i as int) {
            None => res is None,
            Some((v, e)) => res matches Some((o, n)) && opt_bytes(o) == v && n == e && i < n <= b@.len(),
        },
{
    if i >= b.len() || b[i] != 91 {
        return None;
    }
    let j = read_space(b, i + 1);
    if j < b.len() && b[j] == 93 {
        return Some((Some(Vec::new()), j + 1));
    }
    let (v, e) = match read_number(b, j) {
        Some(p) => p,
        None => {
            return None;
        },
    };
    let ghost vn = number_at(b@, j as int)->Some_0.0;
    let mut acc = push_byte(Some(Vec::new()), v, Ghost(vn));
    proof {
        if let Some(x) = byte_of(vn) {
            assert(Seq::<u8>::empty() + x =~= x);
        }
        assert(opt_bytes(acc) == byte_of(vn));
    }
    let mut pos = e;
    loop
        invariant
            i < pos <= b@.len(),
            list_value_at(b@, i as int) == match list_rest(b@, pos as int) {
                None => None,
                Some((rest, end)) => Some((join_bytes(opt_bytes(acc), rest), end)),
            },
        decreases b@.len() - pos,
    {
        let k = read_space(b, pos);
        if k >= b.len() {
            return None;
        }
        if b[k] == 93 {
            proof {
                lemma_join_empty(opt_bytes(acc));
            }
            return Some((acc, k + 1));
        }
        if b[k] != 44 {
            return None;
        }
        let k2 = read_space(b, k + 1);
        let (v2, e2) = match read_number(b, k2) {
            Some(p) => p,
            None => {
                return None;
            },
        };
        let ghost n2 = number_at(b@, k2 as int)->Some_0.0;
        proof {
            assert(skip_space(b@, pos as int) == k as int);
            assert(skip_space(b@, k + 1) == k2 as int);
            assert(number_at(b@, k2 as int) == Some((n2, e2 as int)));
            assert(pos < e2);
            assert(list_rest(b@, pos as int) == match list_rest(b@, e2 as int) {
                None => None,
                Some((rest, end)) => Some((join_bytes(byte_of(n2), rest), end)),
            });
            match list_rest(b@, e2 as int) {
                None => {},
                Some((rest, end)) => {
                    lemma_join_assoc(opt_bytes(acc), byte_of(n2), rest);
                },
            }
        }
        acc = push_byte(acc, v2, Ghost(n2));
        pos = e2;
    }
}

/// Reads a JSON value at `i`.
pub fn read_value(b: &[u8], i: usize) -> (res: Option<(ReadValue, usize)>)
    requires
        i <= b@.len(),
    ensures
        match value_at(b@, i as int) {
            None => res is None,
            Some((v, e)) => res matches Some((r, n)) && value_matches(r, v) && n == e && i <= n <= b@.len(),
        },
{
    if i < b.len() && b[i] == 91 {
        if let Some((o, e)) = read_list(b, i) {
            return Some((ReadValue::Bytes(o), e));
        }
    }
    if let Some((v, e)) = read_number(b, i) {
        return Some((ReadValue::Number(v), e));
    }
    match skip_value(b, i) {
        Some(e) => Some((ReadValue::Other, e)),
        None => None,
    }
}

/// Reads an object member `"key": value` at `i`.
pub fn read_member(b: &[u8], i: usize) -> (res: Option<(Member, usize)>)
    requires
        i <= b@.len(),
    ensures
        match member_at(b@, i as int) {
            None => res is None,
            Some((m, e)) => res matches Some((r, n)) && member_matches(b@, r, m) && n == e && i < n <= b@.len(),
        },
{
    let (s, t, e1) = match read_string(b, i) {
        Some(p) => p,
        None => {
            return None;
        },
    };
    let j = read_space(b, e1);
    if !(j < b.len() && b[j] == 58) {
        return None;
    }
    let k = read_space(b, j + 1);
    match read_value(b, k) {
        Some((v, e2)) => Some((Member { key_start: s, key_end: t, value: v }, e2)),
        None => None,
    }
}

/// Reads the JSON object that is the whole text, with whitespace around it.
pub fn read_object(b: &[u8]) -> (res: Option<Vec<Member>>)
    ensures
        match json_object(b@) {
            None => res is None,
            Some(ms) => res matches Some(rs) && members_match(b@, rs@, ms),
        },
{
    let i = read_space(b, 0);
    if !(i < b.len() && b[i] == 123) {
        return None;
    }
    let j = read_space(b, i + 1);
    let mut out: Vec<Member> = Vec::new();
    if j < b.len() && b[j] == 125 {
        assert(members_match(b@, out@, Seq::<(Seq<u8>, JsonValue)>::empty()));
        let fin = read_space(b, j + 1);
        return if fin == b.len() {
            Some(out)
        } else {
            None
        };
    }
    let (m, e) = match read_member(b, j) {
        Some(p) => p,
        None => {
            return None;
        },
    };
    let ghost first = member_at(b@, j as int)->Some_0.0;
    out.push(m);
    let ghost mut acc: Seq<(Seq<u8>, JsonValue)> = seq![first];
    let mut pos = e;
    loop
        invariant
            i == skip_space(b@, 0),
            i < b@.len(),
            b@[i as int] == 123,
            j == skip_space(b@, i + 1),
            j < pos <= b@.len(),
            members_match(b@, out@, acc),
            object_body(b@, j as int) == match members_rest(b@, pos as int) {
                None => None,
                Some((rest, end)) => Some((acc + rest, end)),
            },
        decreases b@.len() - pos,
    {
        let k = read_space(b, pos);
        if k >= b.len() {
            assert(members_rest(b@, pos as int) is None);
            return None;
        }
        if b[k] == 125 {
            assert(members_rest(b@, pos as int) == Some((Seq::<(Seq<u8>, JsonValue)>::empty(), k + 1)));
            assert(acc + Seq::<(Seq<u8>, JsonValue)>::empty() =~= acc);
            let fin = read_space(b, k + 1);
            return if fin == b.len() {
                Some(out)
            } else {
                None
            };
        }
        if b[k] != 44 {
            assert(members_rest(b@, pos as int) is None);
            return None;
        }
        let k2 = read_space(b, k + 1);
        let (m2, e2) = match read_member(b, k2) {
            Some(p) => p,
            None => {
                assert(members_rest(b@, pos as int) is None);
                return None;
            },
        };
        let ghost mm = member_at(b@, k2 as int)->Some_0.0;
        proof {
            assert(members_rest(b@, pos as int) == match members_rest(b@, e2 as int) {
                None => None,
                Some((rest, end2)) => Some((seq![mm] + rest, end2)),
            });
            match members_rest(b@, e2 as int) {
                None => {},
                Some((rest, end2)) => {
                    assert(acc + (seq![mm] + rest) =~= acc.push(mm) + rest);
                },
            }
        }
        let ghost old_out = out@;
        out.push(m2);
        proof {
            assert forall|x: int| 0 <= x < out@.len() implies #[trigger] member_matches(b@, out@[x], acc.push(mm)[x]) by {
                if x < old_out.len() {
                    assert(out@[x] == old_out[x]);
                    assert(member_matches(b@, old_out[x], acc[x]));
                }
            }
            acc = acc.push(mm);
        }
        pos = e2;
    }
}

/// The key `n`.
pub open spec fn n_key() -> Seq<u8> {
    seq![110u8]
}

/// The key `pn`.
pub open spec fn pn_key() -> Seq<u8> {
    seq![112u8, 110]
}

/// The key `root_key`.
pub open spec fn root_key_key() -> Seq<u8> {
    seq![114u8, 111, 111, 116, 95, 107, 101, 121]
}

/// The key `send_chain_key`.
pub open spec fn send_chain_key_key() -> Seq<u8> {
    seq![115u8, 101, 110, 100, 95, 99, 104, 97, 105, 110, 95, 107, 101, 121]
}

/// The key `recv_chain_key`.
pub open spec fn recv_chain_key_key() -> Seq<u8> {
    seq![114u8, 101, 99, 118, 95, 99, 104, 97, 105, 110, 95, 107, 101, 121]
}

/// The key `message_number`.
pub open spec fn message_number_key() -> Seq<u8> {
    seq![109u8, 101, 115, 115, 97, 103, 101, 95, 110, 117, 109, 98, 101, 114]
}

/// The key `previous_chain_length`.
pub open spec fn previous_chain_length_key() -> Seq<u8> {
    seq![112u8, 114, 101, 118, 105, 111, 117, 115, 95, 99, 104, 97, 105, 110, 95, 108, 101, 110, 103, 116, 104]
}

/// The key `ratchet_public_key`.
pub open spec fn ratchet_public_key_key() -> Seq<u8> {
    seq![114u8, 97, 116, 99, 104, 101, 116, 95, 112, 117, 98, 108, 105, 99, 95, 107, 101, 121]
}

/// The field `k` as a 32-byte key.
pub open spec fn key32_field(ms: Seq<(Seq<u8>, JsonValue)>, k: Seq<u8>) -> Option<Seq<u8>> {
    match bytes_field(ms, k) {
        Some(x) => if x.len() == 32 {
            Some(x)
        } else {
            None
        },
        None => None,
    }
}

/// The ratchet header that a JSON text holds: an object with the fields `n`
/// and `pn`, each once, holding integers that fit in a `u32`; or an array of
/// those two integers in that order.
pub open spec fn json_header(b: Seq<u8>) -> Option<RatchetHeader> {
    match json_object(b) {
        Some(ms) => match (u32_field(ms, n_key()), u32_field(ms, pn_key())) {
            (Some(n), Some(pn)) => Some(RatchetHeader { n, pn }),
            _ => None,
        },
        None => match json_array(b) {
            Some(vs) => if vs.len() == 2 {
                match (u32_value(vs[0]), u32_value(vs[1])) {
                    (Some(n), Some(pn)) => Some(RatchetHeader { n, pn }),
                    _ => None,
                }
            } else {
                None
            },
            None => None,
        },
    }
}

/// The session state that a JSON text holds: an object with each of its six
/// fields once, the three keys as arrays of 32 bytes, the two counters as
/// integers that fit in a `u32`, and the ratchet public key as an array of
/// bytes; or an array of those six values in declaration order.
pub open spec fn json_session(b: Seq<u8>) -> Option<SessionModel> {
    match json_object(b) {
        None => match json_array(b) {
            Some(vs) => if vs.len() == 6 {
                match (
                    key32_value(vs[0]),
                    key32_value(vs[1]),
                    key32_value(vs[2]),
                    u32_value(vs[3]),
                    u32_value(vs[4]),
                    bytes_value(vs[5]),
                ) {
                    (Some(r), Some(s), Some(c), Some(n), Some(p), Some(k)) => Some(
                        SessionModel {
                            root_key: r,
                            send_chain_key: s,
                            recv_chain_key: c,
                            message_number: n,
                            previous_chain_length: p,
                            ratchet_public_key: k,
                        },
                    ),
                    _ => None,
                }
            } else {
                None
            },
            None => None,
        },
        Some(ms) => match (
            key32_field(ms, root_key_key()),
            key32_field(ms, send_chain_key_key()),
            key32_field(ms, recv_chain_key_key()),
            u32_field(ms, message_number_key()),
            u32_field(ms, previous_chain_length_key()),
            bytes_field(ms, ratchet_public_key_key()),
        ) {
            (Some(r), Some(s), Some(c), Some(n), Some(p), Some(k)) => Some(
                SessionModel {
                    root_key: r,
                    send_chain_key: s,
                    recv_chain_key: c,
                    message_number: n,
                    previous_chain_length: p,
                    ratchet_public_key: k,
                },
            ),
            _ => None,
        },
    }
}

/// Whether the key of member `m` is `name`.
fn key_is(b: &[u8], m: &Member, name: &[u8]) -> (eq: bool)
    requires
        m.key_start <= m.key_end <= b@.len(),
    ensures
        eq == (b@.subrange(m.key_start as int, m.key_end as int) == name@),
{
    let s = m.key_start;
    let t = m.key_end;
    if t - s != name.len() {
        assert(b@.subrange(s as int, t as int).len() != name@.len());
        return false;
    }
    let mut x: usize = 0;
    while x < name.len()
        invariant
            s == m.key_start,
            t == m.key_end,
            s <= t <= b@.len(),
            t - s == name@.len(),
            0 <= x <= name@.len(),
            forall|y: int| 0 <= y < x ==> b@[s + y] == name@[y],
        decreases name@.len() - x,
    {
        if b[s + x] != name[x] {
            assert(b@.subrange(s as int, t as int)[x as int] == b@[s + x]);
            return false;
        }
        x = x + 1;
    }
    assert(b@.subrange(s as int, t as int) =~= name@);
    true
}

/// How many members have key `name`, and the index of the last of them.
fn find_key(b: &[u8], rs: &Vec<Member>, name: &[u8], Ghost(ms): Ghost<Seq<(Seq<u8>, JsonValue)>>) -> (res: (usize, usize))
    requires
        members_match(b@, rs@, ms),
    ensures
        res.0 == key_count(ms, name@),
        res.0 > 0 ==> res.1 < ms.len() && key_value(ms, name@) == Some(ms[res.1 as int].1),
{
    let mut count: usize = 0;
    let mut last: usize = 0;
    let mut i: usize = 0;
    while i < rs.len()
        invariant
            members_match(b@, rs@, ms),
            0 <= i <= rs@.len(),
            count <= i,
            count == key_count(ms.take(i as int), name@),
            count > 0 ==> last < i && key_value(ms.take(i as int), name@) == Some(ms[last as int].1),
        decreases rs@.len() - i,
    {
        assert(member_matches(b@, rs@[i as int], ms[i as int]));
        let hit = key_is(b, &rs[i], name);
        assert(ms.take(i + 1).drop_last() =~= ms.take(i as int));
        assert(ms.take(i + 1).last() == ms[i as int]);
        if hit {
            count = count + 1;
            last = i;
        }
        i = i + 1;
    }
    assert(ms.take(rs@.len() as int) =~= ms);
    (count, last)
}

/// The field `name` as a `u32`.
fn read_u32_field(b: &[u8], rs: &Vec<Member>, name: &[u8], Ghost(ms): Ghost<Seq<(Seq<u8>, JsonValue)>>) -> (r: Option<u32>)
    requires
        members_match(b@, rs@, ms),
    ensures
        r == u32_field(ms, name@),
{
    let (count, last) = find_key(b, rs, name, Ghost(ms));
    if count != 1 {
        return None;
    }
    assert(member_matches(b@, rs@[last as int], ms[last as int]));
    match &rs[last].value {
        ReadValue::Number(x) => if *x <= 0xffff_ffff {
            Some(*x as u32)
        } else {
            None
        },
        _ => None,
    }
}

/// A copy of a byte vector.
fn copy_bytes(v: &Vec<u8>) -> (r: Vec<u8>)
    ensures
        r@ == v@,
{
    let mut r: Vec<u8> = Vec::new();
    let mut i: usize = 0;
    while i < v.len()
        invariant
            0 <= i <= v@.len(),
            r@ == v@.take(i as int),
        decreases v@.len() - i,
    {
        r.push(v[i]);
        assert(v@.take(i + 1) =~= v@.take(i as int).push(v@[i as int]));
        i = i + 1;
    }
    assert(v@.take(v@.len() as int) =~= v@);
    r
}

/// The field `name` as bytes.
fn read_bytes_field(b: &[u8], rs: &Vec<Member>, name: &[u8], Ghost(ms): Ghost<Seq<(Seq<u8>, JsonValue)>>) -> (r: Option<Vec<u8>>)
    requires
        members_match(b@, rs@, ms),
    ensures
        opt_bytes(r) == bytes_field(ms, name@),
{
    let (count, last) = find_key(b, rs, name, Ghost(ms));
    if count != 1 {
        return None;
    }
    assert(member_matches(b@, rs@[last as int], ms[last as int]));
    match &rs[last].value {
        ReadValue::Bytes(Some(v)) => Some(copy_bytes(v)),
        _ => None,
    }
}

/// The field `name` as a 32-byte key.
fn read_key_field(b: &[u8], rs: &Vec<Member>, name: &[u8], Ghost(ms): Ghost<Seq<(Seq<u8>, JsonValue)>>) -> (r: Option<[u8; 32]>)
    requires
        members_match(b@, rs@, ms),
    ensures
        match key32_field(ms, name@) {
            None => r is None,
            Some(k) => r matches Some(a) && a@ == k,
        },
{
    let v = match read_bytes_field(b, rs, name, Ghost(ms)) {
        Some(v) => v,
        None => {
            return None;
        },
    };
    if v.len() != 32 {
        return None;
    }
    let mut a = [0u8; 32];
    let mut j: usize = 0;
    while j < 32
        invariant
            0 <= j <= 32,
            v@.len() == 32,
            forall|x: int| 0 <= x < j ==> a@[x] == v@[x],
        decreases 32 - j,
    {
        a[j] = v[j];
        j = j + 1;
    }
    assert(a@ =~= v@);
    Some(a)
}

/// Values as read stand for the values `vs`.
pub open spec fn values_match(rs: Seq<ReadValue>, vs: Seq<JsonValue>) -> bool {
    &&& rs.len() == vs.len()
    &&& forall|i: int| 0 <= i < rs.len() ==> #[trigger] value_matches(rs[i], vs[i])
}

/// Reads the JSON array that is the whole text, with whitespace around it.
pub fn read_array(b: &[u8]) -> (res: Option<Vec<ReadValue>>)
    ensures
        match json_array(b@) {
            None => res is None,
            Some(vs) => res matches Some(rs) && values_match(rs@, vs),
        },
{
    let i = read_space(b, 0);
    if !(i < b.len() && b[i] == 91) {
        return None;
    }
    let j = read_space(b, i + 1);
    let mut out: Vec<ReadValue> = Vec::new();
    if j < b.len() && b[j] == 93 {
        assert(values_match(out@, Seq::<JsonValue>::empty()));
        let fin = read_space(b, j + 1);
        return if fin == b.len() {
            Some(out)
        } else {
            None
        };
    }
    let (v, e) = match read_value(b, j) {
        Some(p) => p,
        None => {
            return None;
        },
    };
    let ghost first = value_at(b@, j as int)->Some_0.0;
    out.push(v);
    let ghost mut acc: Seq<JsonValue> = seq![first];
    let mut pos = e;
    loop
        invariant
            i == skip_space(b@, 0),
            i < b@.len(),
            b@[i as int] == 91,
            j == skip_space(b@, i + 1),
            j <= pos <= b@.len(),
            values_match(out@, acc),
            array_body(b@, j as int) == match elements_rest(b@, pos as int) {
                None => None,
                Some((rest, end)) => Some((acc + rest, end)),
            },
        decreases b@.len() - pos,
    {
        let k = read_space(b, pos);
        if k >= b.len() {
            assert(elements_rest(b@, pos as int) is None);
            return None;
        }
        if b[k] == 93 {
            assert(elements_rest(b@, pos as int) == Some((Seq::<JsonValue>::empty(), k + 1)));
            assert(acc + Seq::<JsonValue>::empty() =~= acc);
            let fin = read_space(b, k + 1);
            return if fin == b.len() {
                Some(out)
            } else {
                None
            };
        }
        if b[k] != 44 {
            assert(elements_rest(b@, pos as int) is None);
            return None;
        }
        let k2 = read_space(b, k + 1);
        let (v2, e2) = match read_value(b, k2) {
            Some(p) => p,
            None => {
                assert(elements_rest(b@, pos as int) is None);
                return None;
            },
        };
        let ghost vv = value_at(b@, k2 as int)->Some_0.0;
        proof {
            assert(elements_rest(b@, pos as int) == match elements_rest(b@, e2 as int) {
                None => None,
                Some((rest, end2)) => Some((seq![vv] + rest, end2)),
            });
            match elements_rest(b@, e2 as int) {
                None => {},
                Some((rest, end2)) => {
                    assert(acc + (seq![vv] + rest) =~= acc.push(vv) + rest);
                },
            }
        }
        let ghost old_out = out@;
        out.push(v2);
        proof {
            assert forall|x: int| 0 <= x < out@.len() implies #[trigger] value_matches(out@[x], acc.push(vv)[x]) by {
                if x < old_out.len() {
                    assert(out@[x] == old_out[x]);
                    assert(value_matches(old_out[x], acc[x]));
                }
            }
            acc = acc.push(vv);
        }
        pos = e2;
    }
}

/// A value as read, as a `u32`.
fn value_u32(r: &ReadValue, Ghost(v): Ghost<JsonValue>) -> (res: Option<u32>)
    requires
        value_matches(*r, v),
    ensures
        res == u32_value(v),
{
    match r {
        ReadValue::Number(x) => if *x <= 0xffff_ffff {
            Some(*x as u32)
        } else {
            None
        },
        _ => None,
    }
}

/// A value as read, as bytes.
fn value_bytes(r: &ReadValue, Ghost(v): Ghost<JsonValue>) -> (res: Option<Vec<u8>>)
    requires
        value_matches(*r, v),
    ensures
        opt_bytes(res) == bytes_value(v),
{
    match r {
        ReadValue::Bytes(Some(x)) => Some(copy_bytes(x)),
        _ => None,
    }
}

/// A value as read, as a 32-byte key.
fn value_key(r: &ReadValue, Ghost(v): Ghost<JsonValue>) -> (res: Option<[u8; 32]>)
    requires
        value_matches(*r, v),
    ensures
        match key32_value(v) {
            None => res is None,
            Some(k) => res matches Some(a) && a@ == k,
        },
{
    let x = match value_bytes(r, Ghost(v)) {
        Some(x) => x,
        None => {
            return None;
        },
    };
    if x.len() != 32 {
        return None;
    }
    let mut a = [0u8; 32];
    let mut j: usize = 0;
    while j < 32
        invariant
            0 <= j <= 32,
            x@.len() == 32,
            forall|y: int| 0 <= y < j ==> a@[y] == x@[y],
        decreases 32 - j,
    {
        a[j] = x[j];
        j = j + 1;
    }
    assert(a@ =~= x@);
    Some(a)
}

/// A ratchet header from a JSON array of its two fields.
fn header_from_array(b: &[u8]) -> (h: Option<RatchetHeader>)
    requires
        json_object(b@) is None,
    ensures
        h == json_header(b@),
{
    let vs = match read_array(b) {
        Some(vs) => vs,
        None => {
            return None;
        },
    };
    let ghost js = json_array(b@)->Some_0;
    if vs.len() != 2 {
        return None;
    }
    assert(value_matches(vs@[0], js[0]));
    assert(value_matches(vs@[1], js[1]));
    let n = value_u32(&vs[0], Ghost(js[0]));
    let pn = value_u32(&vs[1], Ghost(js[1]));
    match (n, pn) {
        (Some(n), Some(pn)) => Some(RatchetHeader { n, pn }),
        _ => None,
    }
}

/// A session state from a JSON array of its six fields.
fn session_from_array(b: &[u8]) -> (st: Option<RatchetSessionState>)
    requires
        json_object(b@) is None,
    ensures
        match json_session(b@) {
            None => st is None,
            Some(m) => st matches Some(s) && s@ == m,
        },
{
    let vs = match read_array(b) {
        Some(vs) => vs,
        None => {
            return None;
        },
    };
    let ghost js = json_array(b@)->Some_0;
    if vs.len() != 6 {
        return None;
    }
    assert(value_matches(vs@[0], js[0]));
    assert(value_matches(vs@[1], js[1]));
    assert(value_matches(vs@[2], js[2]));
    assert(value_matches(vs@[3], js[3]));
    assert(value_matches(vs@[4], js[4]));
    assert(value_matches(vs@[5], js[5]));
    let root = value_key(&vs[0], Ghost(js[0]));
    let send = value_key(&vs[1], Ghost(js[1]));
    let recv = value_key(&vs[2], Ghost(js[2]));
    let number = value_u32(&vs[3], Ghost(js[3]));
    let previous = value_u32(&vs[4], Ghost(js[4]));
    let ratchet = value_bytes(&vs[5], Ghost(js[5]));
    match (root, send, recv, number, previous, ratchet) {
        (Some(r), Some(s), Some(c), Some(n), Some(p), Some(k)) => Some(
            RatchetSessionState {
                root_key: r,
                send_chain_key: s,
                recv_chain_key: c,
                message_number: n,
                previous_chain_length: p,
                ratchet_public_key: k,
            },
        ),
        _ => None,
    }
}

/// Reads a ratchet header from JSON in any spelling that `json_header`
/// describes.
pub fn header_from_any_json(b: &[u8]) -> (h: Option<RatchetHeader>)
    ensures
        h == json_header(b@),
{
    let rs = match read_object(b) {
        Some(rs) => rs,
        None => {
            return header_from_array(b);
        },
    };
    let ghost ms = json_object(b@)->Some_0;
    let n = read_u32_field(b, &rs, [110u8].as_slice(), Ghost(ms));
    let pn = read_u32_field(b, &rs, [112u8, 110].as_slice(), Ghost(ms));
    proof {
        assert([110u8]@ =~= n_key());
        assert([112u8, 110]@ =~= pn_key());
    }
    match (n, pn) {
        (Some(n), Some(pn)) => Some(RatchetHeader { n, pn }),
        _ => None,
    }
}

/// Reads a session state from JSON in any spelling that `json_session`
/// describes.
pub fn session_from_any_json(b: &[u8]) -> (st: Option<RatchetSessionState>)
    ensures
        match json_session(b@) {
            None => st is None,
            Some(m) => st matches Some(s) && s@ == m,
        },
{
    let rs = match read_object(b) {
        Some(rs) => rs,
        None => {
            return session_from_array(b);
        },
    };
    let ghost ms = json_object(b@)->Some_0;
    let root_name = [114u8, 111, 111, 116, 95, 107, 101, 121];
    let send_name = [115u8, 101, 110, 100, 95, 99, 104, 97, 105, 110, 95, 107, 101, 121];
    let recv_name = [114u8, 101, 99, 118, 95, 99, 104, 97, 105, 110, 95, 107, 101, 121];
    let number_name = [109u8, 101, 115, 115, 97, 103, 101, 95, 110, 117, 109, 98, 101, 114];
    let previous_name = [112u8, 114, 101, 118, 105, 111, 117, 115, 95, 99, 104, 97, 105, 110, 95, 108, 101, 110, 103, 116, 104];
    let ratchet_name = [114u8, 97, 116, 99, 104, 101, 116, 95, 112, 117, 98, 108, 105, 99, 95, 107, 101, 121];
    proof {
        assert(root_name@ =~= root_key_key());
        assert(send_name@ =~= send_chain_key_key());
        assert(recv_name@ =~= recv_chain_key_key());
        assert(number_name@ =~= message_number_key());
        assert(previous_name@ =~= previous_chain_length_key());
        assert(ratchet_name@ =~= ratchet_public_key_key());
    }
    let root = read_key_field(b, &rs, root_name.as_slice(), Ghost(ms));
    let send = read_key_field(b, &rs, send_name.as_slice(), Ghost(ms));
    let recv = read_key_field(b, &rs, recv_name.as_slice(), Ghost(ms));
    let number = read_u32_field(b, &rs, number_name.as_slice(), Ghost(ms));
    let previous = read_u32_field(b, &rs, previous_name.as_slice(), Ghost(ms));
    let ratchet = read_bytes_field(b, &rs, ratchet_name.as_slice(), Ghost(ms));
    match (root, send, recv, number, previous, ratchet) {
        (Some(r), Some(s), Some(c), Some(n), Some(p), Some(k)) => Some(
            RatchetSessionState {
                root_key: r,
                send_chain_key: s,
                recv_chain_key: c,
                message_number: n,
                previous_chain_length: p,
                ratchet_public_key: k,
            },
        ),
        _ => None,
    }
}

} // verus!
