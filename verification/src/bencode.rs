//! Bencoded dictionaries: checking one, and looking up its entries in place.
//!
//! A value is an integer `i<digits>e`, a string `<length>:<bytes>`, a list `l..e` or a
//! dictionary `d..e` of string keys and values. Positions are offsets into the bytes.
use crate::bytes::{bytes_eq, copy_range};
use vstd::prelude::*;
use vstd::slice::slice_subrange;
use vstd::utf8::{decode_utf8, valid_utf8};

verus! {

/// Deepest nesting that is accepted.
pub const MAX_DEPTH: u32 = 64;

/// Whether the byte is an ASCII digit.
pub open spec fn is_digit(b: u8) -> bool {
    48 <= b <= 57
}

/// The first position from `pos` on that holds no digit.
pub open spec fn digits_end(s: Seq<u8>, pos: int) -> int
    decreases s.len() - pos,
{
    if 0 <= pos < s.len() && is_digit(s[pos]) {
        digits_end(s, pos + 1)
    } else {
        pos
    }
}

/// The number that the digits `s[a..b]` write.
pub open spec fn number(s: Seq<u8>, a: int, b: int) -> nat
    decreases b - a,
{
    if b <= a {
        0
    } else {
        number(s, a, b - 1) * 10 + (s[b - 1] - 48) as nat
    }
}

/// The bytes of the string at `pos`: where they begin and end.
pub open spec fn string_at(s: Seq<u8>, pos: int) -> Option<(int, int)> {
    let e = digits_end(s, pos);
    if pos < e < s.len() && s[e] == 58 && e + 1 + number(s, pos, e) <= s.len() {
        Some((e + 1, e + 1 + number(s, pos, e)))
    } else {
        None
    }
}

/// The integer at `pos`: its value and where it ends.
pub open spec fn int_at(s: Seq<u8>, pos: int) -> Option<(int, int)> {
    if 0 <= pos < s.len() && s[pos] == 105 {
        let neg = pos + 1 < s.len() && s[pos + 1] == 45;
        let a = if neg {
            pos + 2
        } else {
            pos + 1
        };
        let e = digits_end(s, a);
        let n = number(s, a, e) as int;
        let v = if neg {
            -n
        } else {
            n
        };
        if a < e < s.len() && s[e] == 101 && i64::MIN <= v <= i64::MAX {
            Some((v, e + 1))
        } else {
            None
        }
    } else {
        None
    }
}

/// Where the value at `pos` ends, if there is one with at most `depth` levels inside it.
pub open spec fn value_end(s: Seq<u8>, pos: int, depth: nat) -> Option<int>
    decreases depth, s.len() - pos, 0int,
{
    if pos < 0 || pos >= s.len() {
        None
    } else if s[pos] == 105 {
        match int_at(s, pos) {
            Some((_, e)) => Some(e),
            None => None,
        }
    } else if is_digit(s[pos]) {
        match string_at(s, pos) {
            Some((_, e)) => Some(e),
            None => None,
        }
    } else if s[pos] == 108 && depth > 0 {
        items_end(s, pos + 1, (depth - 1) as nat)
    } else if s[pos] == 100 && depth > 0 {
        entries_end(s, pos + 1, (depth - 1) as nat)
    } else {
        None
    }
}

/// Where a list ends whose remaining items begin at `pos`.
pub open spec fn items_end(s: Seq<u8>, pos: int, depth: nat) -> Option<int>
    decreases depth, s.len() - pos, 1int,
{
    if pos < 0 || pos >= s.len() {
        None
    } else if s[pos] == 101 {
        Some(pos + 1)
    } else {
        match value_end(s, pos, depth) {
            Some(p) => if pos < p <= s.len() {
                items_end(s, p, depth)
            } else {
                None
            },
            None => None,
        }
    }
}

/// Where a dictionary ends whose remaining entries begin at `pos`.
pub open spec fn entries_end(s: Seq<u8>, pos: int, depth: nat) -> Option<int>
    decreases depth, s.len() - pos, 1int,
{
    if pos < 0 || pos >= s.len() {
        None
    } else if s[pos] == 101 {
        Some(pos + 1)
    } else {
        match string_at(s, pos) {
            Some((_, k)) => if pos < k <= s.len() {
                match value_end(s, k, depth) {
                    Some(p) => if k < p <= s.len() {
                        entries_end(s, p, depth)
                    } else {
                        None
                    },
                    None => None,
                }
            } else {
                None
            },
            None => None,
        }
    }
}

/// The value of the first entry with this key, among the entries from `pos` on: where it
/// begins and ends.
pub open spec fn find(s: Seq<u8>, pos: int, depth: nat, key: Seq<u8>) -> Option<(int, int)>
    decreases s.len() - pos,
{
    if pos < 0 || pos >= s.len() || s[pos] == 101 {
        None
    } else {
        match string_at(s, pos) {
            Some((a, k)) => match value_end(s, k, depth) {
                Some(p) => if pos < k && k < p <= s.len() {
                    if s.subrange(a, k) == key {
                        Some((k, p))
                    } else {
                        find(s, p, depth, key)
                    }
                } else {
                    None
                },
                None => None,
            },
            None => None,
        }
    }
}

/// Where the value at the front of `s` ends.
pub open spec fn front_end(s: Seq<u8>) -> Option<int> {
    value_end(s, 0, MAX_DEPTH as nat)
}

/// Whether `s` is one value and nothing more.
pub open spec fn whole(s: Seq<u8>) -> bool {
    front_end(s) == Some(s.len() as int)
}

/// The entry of the dictionary at the front of `s`.
pub open spec fn entry(s: Seq<u8>, key: Seq<u8>) -> Option<(int, int)> {
    if front_end(s) is Some && s[0] == 100 {
        find(s, 1, (MAX_DEPTH - 1) as nat, key)
    } else {
        None
    }
}

/// The entry as an integer.
pub open spec fn entry_int(s: Seq<u8>, key: Seq<u8>) -> Option<int> {
    match entry(s, key) {
        Some((a, _)) => match int_at(s, a) {
            Some((v, _)) => Some(v),
            None => None,
        },
        None => None,
    }
}

/// The entry as a byte string.
pub open spec fn entry_bytes(s: Seq<u8>, key: Seq<u8>) -> Option<Seq<u8>> {
    match entry(s, key) {
        Some((a, _)) => match string_at(s, a) {
            Some((b, e)) => Some(s.subrange(b, e)),
            None => None,
        },
        None => None,
    }
}

/// The entry as a text, where its bytes are UTF-8.
pub open spec fn entry_text(s: Seq<u8>, key: Seq<u8>) -> Option<Seq<char>> {
    match entry_bytes(s, key) {
        Some(b) => if valid_utf8(b) {
            Some(decode_utf8(b))
        } else {
            None
        },
        None => None,
    }
}

/// Longer digit strings write larger numbers.
proof fn number_grows(s: Seq<u8>, a: int, b: int, c: int)
    requires
        0 <= a <= b <= c <= s.len(),
        forall|i: int| a <= i < c ==> is_digit(#[trigger] s[i]),
    ensures
        number(s, a, b) <= number(s, a, c),
    decreases c - b,
{
    if b < c {
        number_grows(s, a, b, c - 1);
        assert(is_digit(s[c - 1]));
    }
}

/// Read the digits from `pos` on: where they end, and the number they write where that is
/// at most `max`.
fn read_digits(s: &[u8], pos: usize, max: u64) -> (r: (usize, Option<u64>))
    requires
        pos <= s@.len(),
    ensures
        r.0 == digits_end(s@, pos as int),
        pos <= r.0 <= s@.len(),
        match r.1 {
            Some(n) => n == number(s@, pos as int, r.0 as int) && n <= max,
            None => number(s@, pos as int, r.0 as int) > max,
        },
{
    let mut i: usize = pos;
    let mut n: u64 = 0;
    let mut over: bool = false;
    while i < s.len() && 48 <= s[i] && s[i] <= 57
        invariant
            pos <= i <= s@.len(),
            digits_end(s@, pos as int) == digits_end(s@, i as int),
            forall|j: int| pos <= j < i ==> is_digit(#[trigger] s@[j]),
            !over ==> n == number(s@, pos as int, i as int) && n <= max,
            over ==> number(s@, pos as int, i as int) > max,
        decreases s@.len() - i,
    {
        let d: u64 = (s[i] - 48) as u64;
        proof {
            assert(is_digit(s@[i as int]));
            number_grows(s@, pos as int, i as int, i + 1);
        }
        if !over {
            if n > (max - if d <= max { d } else { max }) / 10 {
                over = true;
                assert(number(s@, pos as int, i + 1) == n * 10 + d);
            } else if d > max {
                over = true;
            } else {
                n = n * 10 + d;
            }
        }
        i += 1;
    }
    if over {
        (i, None)
    } else {
        (i, Some(n))
    }
}

/// The string at `pos`: where its bytes begin and end.
fn read_string(s: &[u8], pos: usize) -> (r: Option<(usize, usize)>)
    requires
        pos <= s@.len(),
    ensures
        match r {
            Some((a, b)) => string_at(s@, pos as int) == Some((a as int, b as int)) && pos < a <= b
                <= s@.len(),
            None => string_at(s@, pos as int) is None,
        },
{
    let len: usize = s.len();
    let (e, n) = read_digits(s, pos, len as u64);
    if e == pos || e >= len || s[e] != 58 {
        return None;
    }
    match n {
        None => None,
        Some(n) => {
            if n > (len - e - 1) as u64 {
                return None;
            }
            Some((e + 1, e + 1 + n as usize))
        },
    }
}

/// The integer at `pos`: its value and where it ends.
fn read_int(s: &[u8], pos: usize) -> (r: Option<(i64, usize)>)
    requires
        pos <= s@.len(),
    ensures
        match r {
            Some((v, e)) => int_at(s@, pos as int) == Some((v as int, e as int)) && pos < e
                <= s@.len(),
            None => int_at(s@, pos as int) is None,
        },
{
    if pos >= s.len() || s[pos] != 105 {
        return None;
    }
    let neg: bool = pos + 1 < s.len() && s[pos + 1] == 45;
    let a: usize = if neg {
        pos + 2
    } else {
        pos + 1
    };
    let (e, n) = read_digits(s, a, 0x8000_0000_0000_0000);
    if e == a || e >= s.len() || s[e] != 101 {
        return None;
    }
    match n {
        None => None,
        Some(n) => {
            if neg {
                if n == 0x8000_0000_0000_0000 {
                    Some((i64::MIN, e + 1))
                } else {
                    Some((-(n as i64), e + 1))
                }
            } else if n == 0x8000_0000_0000_0000 {
                None
            } else {
                Some((n as i64, e + 1))
            }
        },
    }
}

/// Where the value at `pos` ends.
fn skip_value(s: &[u8], pos: usize, depth: u32) -> (r: Option<usize>)
    requires
        pos <= s@.len(),
    ensures
        match r {
            Some(e) => value_end(s@, pos as int, depth as nat) == Some(e as int) && pos < e
                <= s@.len(),
            None => value_end(s@, pos as int, depth as nat) is None,
        },
    decreases depth, 0int,
{
    if pos >= s.len() {
        return None;
    }
    let b: u8 = s[pos];
    if b == 105 {
        match read_int(s, pos) {
            Some((_, e)) => Some(e),
            None => None,
        }
    } else if 48 <= b && b <= 57 {
        match read_string(s, pos) {
            Some((_, e)) => Some(e),
            None => None,
        }
    } else if b == 108 && depth > 0 {
        skip_items(s, pos + 1, depth - 1)
    } else if b == 100 && depth > 0 {
        skip_entries(s, pos + 1, depth - 1)
    } else {
        None
    }
}

/// Where a list ends whose items begin at `pos`.
fn skip_items(s: &[u8], pos: usize, depth: u32) -> (r: Option<usize>)
    requires
        pos <= s@.len(),
    ensures
        match r {
            Some(e) => items_end(s@, pos as int, depth as nat) == Some(e as int) && pos < e
                <= s@.len(),
            None => items_end(s@, pos as int, depth as nat) is None,
        },
    decreases depth, 1int,
{
    let mut p: usize = pos;
    while p < s.len()
        invariant
            pos <= p <= s@.len(),
            items_end(s@, pos as int, depth as nat) == items_end(s@, p as int, depth as nat),
        decreases s@.len() - p,
    {
        if s[p] == 101 {
            return Some(p + 1);
        }
        match skip_value(s, p, depth) {
            Some(e) => {
                p = e;
            },
            None => {
                return None;
            },
        }
    }
    None
}

/// Where a dictionary ends whose entries begin at `pos`.
fn skip_entries(s: &[u8], pos: usize, depth: u32) -> (r: Option<usize>)
    requires
        pos <= s@.len(),
    ensures
        match r {
            Some(e) => entries_end(s@, pos as int, depth as nat) == Some(e as int) && pos < e
                <= s@.len(),
            None => entries_end(s@, pos as int, depth as nat) is None,
        },
    decreases depth, 1int,
{
    let mut p: usize = pos;
    while p < s.len()
        invariant
            pos <= p <= s@.len(),
            entries_end(s@, pos as int, depth as nat) == entries_end(s@, p as int, depth as nat),
        decreases s@.len() - p,
    {
        if s[p] == 101 {
            return Some(p + 1);
        }
        let k: usize = match read_string(s, p) {
            Some((_, k)) => k,
            None => {
                return None;
            },
        };
        match skip_value(s, k, depth) {
            Some(e) => {
                p = e;
            },
            None => {
                return None;
            },
        }
    }
    None
}

/// Where the value at the front of `s` ends: the bytes behind it are not looked at.
pub fn decode(s: &[u8]) -> (r: Option<usize>)
    ensures
        match r {
            Some(e) => front_end(s@) == Some(e as int) && 0 < e <= s@.len(),
            None => front_end(s@) is None,
        },
{
    skip_value(s, 0, MAX_DEPTH)
}

/// Whether `s` is one value and nothing more.
pub fn decode_full(s: &[u8]) -> (r: bool)
    ensures
        r == whole(s@),
{
    match decode(s) {
        Some(e) => e == s.len(),
        None => false,
    }
}

/// The entry of the dictionary at the front of `s`: where its value begins and ends.
fn dict_get(s: &[u8], key: &[u8]) -> (r: Option<(usize, usize)>)
    ensures
        match r {
            Some((a, b)) => entry(s@, key@) == Some((a as int, b as int)) && a < b <= s@.len(),
            None => entry(s@, key@) is None,
        },
{
    if decode(s).is_none() {
        return None;
    }
    if s[0] != 100 {
        return None;
    }
    let mut p: usize = 1;
    while p < s.len() && s[p] != 101
        invariant
            p <= s@.len(),
            front_end(s@) is Some,
            s@.len() > 0,
            s@[0] == 100,
            find(s@, 1, (MAX_DEPTH - 1) as nat, key@) == find(
                s@,
                p as int,
                (MAX_DEPTH - 1) as nat,
                key@,
            ),
        decreases s@.len() - p,
    {
        let (a, k) = match read_string(s, p) {
            Some(r) => r,
            None => {
                return None;
            },
        };
        let e: usize = match skip_value(s, k, MAX_DEPTH - 1) {
            Some(e) => e,
            None => {
                return None;
            },
        };
        if bytes_eq(slice_subrange(s, a, k), key) {
            return Some((k, e));
        }
        p = e;
    }
    None
}

/// The entry as an integer.
pub fn dict_get_int(s: &[u8], key: &[u8]) -> (r: Option<i64>)
    ensures
        match r {
            Some(v) => entry_int(s@, key@) == Some(v as int),
            None => entry_int(s@, key@) is None,
        },
{
    match dict_get(s, key) {
        Some((a, _)) => match read_int(s, a) {
            Some((v, _)) => Some(v),
            None => None,
        },
        None => None,
    }
}

/// The entry as a byte string.
pub fn dict_get_bytes(s: &[u8], key: &[u8]) -> (r: Option<Vec<u8>>)
    ensures
        match r {
            Some(v) => entry_bytes(s@, key@) == Some(v@),
            None => entry_bytes(s@, key@) is None,
        },
{
    match dict_get(s, key) {
        Some((a, _)) => match read_string(s, a) {
            Some((b, e)) => Some(copy_range(s, b, e)),
            None => None,
        },
        None => None,
    }
}

/// The entry as a text. `None` too where its bytes are not UTF-8.
pub fn dict_get_str(s: &[u8], key: &[u8]) -> (r: Option<String>)
    ensures
        match r {
            Some(t) => entry_text(s@, key@) == Some(t@),
            None => entry_text(s@, key@) is None,
        },
{
    match dict_get_bytes(s, key) {
        Some(b) => utf8_text(b.as_slice()),
        None => None,
    }
}

/// `std::str::from_utf8`: the text of a byte string that is UTF-8, `None` for any other.
#[verifier::external_body]
pub(crate) fn utf8_text(b: &[u8]) -> (r: Option<String>)
    ensures
        match r {
            Some(t) => valid_utf8(b@) && t@ == decode_utf8(b@),
            None => !valid_utf8(b@),
        },
{
    match std::str::from_utf8(b) {
        Ok(t) => Some(t.to_owned()),
        Err(_) => None,
    }
}

/// Digits are read up to the first byte that is none.
pub proof fn digits_are_read_to_their_end(s: Seq<u8>, pos: int, i: int)
    requires
        0 <= pos <= s.len(),
    ensures
        pos <= digits_end(s, pos) <= s.len(),
        pos <= i < digits_end(s, pos) ==> 48 <= s[i] <= 57,
        digits_end(s, pos) < s.len() ==> !(48 <= s[digits_end(s, pos)] <= 57),
    decreases s.len() - pos,
{
    if pos < s.len() && is_digit(s[pos]) {
        digits_are_read_to_their_end(s, pos + 1, i);
    }
}

/// Digits that a byte of another kind ends are read to that byte.
pub proof fn a_row_of_digits_ends_where_it_ends(s: Seq<u8>, pos: int, e: int)
    requires
        0 <= pos <= e < s.len(),
        forall|i: int| pos <= i < e ==> 48 <= #[trigger] s[i] <= 57,
        !(48 <= s[e] <= 57),
    ensures
        digits_end(s, pos) == e,
    decreases e - pos,
{
    if pos < e {
        assert(is_digit(s[pos]));
        a_row_of_digits_ends_where_it_ends(s, pos + 1, e);
    }
}

/// A number is read digit by digit, each worth ten times the next.
pub proof fn numbers_are_decimal(s: Seq<u8>, a: int, b: int)
    requires
        a <= b,
        48 <= s[b] <= 57,
    ensures
        number(s, a, a) == 0,
        number(s, a, b + 1) == 10 * number(s, a, b) + (s[b] - 48),
{
}

/// A string is its length, a colon and so many bytes. It is none where fewer are there, and
/// none without a length or a colon.
pub proof fn strings_are_a_length_and_bytes(s: Seq<u8>, pos: int, e: int)
    requires
        0 <= pos <= e < s.len(),
        forall|i: int| pos <= i < e ==> 48 <= #[trigger] s[i] <= 57,
        !(48 <= s[e] <= 57),
    ensures
        pos < e && s[e] == 0x3a && e + 1 + number(s, pos, e) <= s.len() ==> string_at(s, pos)
            == Some((e + 1, e + 1 + number(s, pos, e))),
        pos == e || s[e] != 0x3a || e + 1 + number(s, pos, e) > s.len() ==> string_at(s, pos) is None,
{
    a_row_of_digits_ends_where_it_ends(s, pos, e);
}

/// An integer is an `i`, digits, which a minus may go before, and an `e`. It is none without
/// digits, and none where it does not fit.
pub proof fn integers_are_written_between_i_and_e(s: Seq<u8>, pos: int, a: int, e: int, minus: bool)
    requires
        0 <= pos < a <= e < s.len(),
        s[pos] == 0x69,
        minus ==> a == pos + 2 && s[pos + 1] == 0x2d,
        !minus ==> a == pos + 1,
        forall|i: int| a <= i < e ==> 48 <= #[trigger] s[i] <= 57,
        a < e,
        s[e] == 0x65,
    ensures
        !minus && number(s, a, e) <= 0x7fff_ffff_ffff_ffff ==> int_at(s, pos) == Some(
            (number(s, a, e) as int, e + 1),
        ),
        minus && number(s, a, e) <= 0x8000_0000_0000_0000 ==> int_at(s, pos) == Some(
            (-(number(s, a, e) as int), e + 1),
        ),
        !minus && number(s, a, e) > 0x7fff_ffff_ffff_ffff ==> int_at(s, pos) is None,
        minus && number(s, a, e) > 0x8000_0000_0000_0000 ==> int_at(s, pos) is None,
{
    assert(48 <= s[a] <= 57);
    a_row_of_digits_ends_where_it_ends(s, a, e);
}

/// What begins with no `i` is no integer.
pub proof fn other_values_are_no_integers(s: Seq<u8>, pos: int)
    ensures
        0 <= pos < s.len() && s[pos] != 0x69 ==> int_at(s, pos) is None,
        pos >= s.len() ==> int_at(s, pos) is None,
{
}

/// A value is told by its first byte: an integer, a string, a list or a dictionary. No other
/// byte begins one.
pub proof fn values_are_told_by_their_first_byte(s: Seq<u8>, pos: int, depth: nat)
    requires
        0 <= pos < s.len(),
    ensures
        s[pos] == 0x69 ==> value_end(s, pos, depth) == (match int_at(s, pos) {
            Some(v) => Some(v.1),
            None => None,
        }),
        0x30 <= s[pos] <= 0x39 ==> value_end(s, pos, depth) == (match string_at(s, pos) {
            Some(v) => Some(v.1),
            None => None,
        }),
        s[pos] == 0x6c && depth > 0 ==> value_end(s, pos, depth) == items_end(
            s,
            pos + 1,
            (depth - 1) as nat,
        ),
        s[pos] == 0x64 && depth > 0 ==> value_end(s, pos, depth) == entries_end(
            s,
            pos + 1,
            (depth - 1) as nat,
        ),
        (s[pos] == 0x6c || s[pos] == 0x64) && depth == 0 ==> value_end(s, pos, depth) is None,
        s[pos] != 0x69 && !(0x30 <= s[pos] <= 0x39) && s[pos] != 0x6c && s[pos] != 0x64
            ==> value_end(s, pos, depth) is None,
{
}

/// A list and a dictionary end with an `e`; before it stand values, in a dictionary each behind
/// a string.
pub proof fn lists_and_dictionaries_end_with_e(s: Seq<u8>, pos: int, depth: nat)
    requires
        0 <= pos < s.len(),
    ensures
        s[pos] == 0x65 ==> items_end(s, pos, depth) == Some(pos + 1) && entries_end(s, pos, depth)
            == Some(pos + 1),
        s[pos] != 0x65 ==> (value_end(s, pos, depth) matches Some(p) ==> pos < p <= s.len()
            ==> items_end(s, pos, depth) == items_end(s, p, depth)),
        s[pos] != 0x65 ==> (value_end(s, pos, depth) is None ==> items_end(s, pos, depth) is None),
        s[pos] != 0x65 ==> (string_at(s, pos) is None ==> entries_end(s, pos, depth) is None),
        items_end(s, s.len() as int, depth) is None,
        entries_end(s, s.len() as int, depth) is None,
        s[pos] != 0x65 ==> (string_at(s, pos) matches Some(key) ==> pos < key.1 <= s.len() ==> (
        match value_end(s, key.1, depth) {
            Some(p) => key.1 < p <= s.len() ==> entries_end(s, pos, depth) == entries_end(
                s,
                p,
                depth,
            ),
            None => entries_end(s, pos, depth) is None,
        })),
{
}

/// An entry is the value behind the first key that is the one looked for; other entries are
/// passed by, and there is none behind the `e`.
pub proof fn entries_are_found_by_their_key(
    s: Seq<u8>,
    pos: int,
    depth: nat,
    key: Seq<u8>,
    a: int,
    k: int,
    p: int,
)
    requires
        0 <= pos < s.len(),
        s[pos] != 0x65,
        string_at(s, pos) == Some((a, k)),
        value_end(s, k, depth) == Some(p),
        pos < k < p <= s.len(),
    ensures
        s.subrange(a, k) == key ==> find(s, pos, depth, key) == Some((k, p)),
        s.subrange(a, k) != key ==> find(s, pos, depth, key) == find(s, p, depth, key),
        p < s.len() && s[p] == 0x65 ==> find(s, p, depth, key) is None,
{
}

/// Values are read from the front, with at most 64 levels, and a whole text is one value with
/// nothing behind it. Only a dictionary has entries.
pub proof fn values_are_read_from_the_front(s: Seq<u8>, key: Seq<u8>)
    ensures
        front_end(s) == value_end(s, 0, 64),
        whole(s) <==> front_end(s) == Some(s.len() as int),
        front_end(s) is Some && s.len() > 0 && s[0] == 0x64 ==> entry(s, key) == find(
            s,
            1,
            63,
            key,
        ),
        front_end(s) is None || (s.len() > 0 && s[0] != 0x64) ==> entry(s, key) is None,
        entry(s, key) is None ==> entry_int(s, key) is None && entry_bytes(s, key) is None
            && entry_text(s, key) is None,
        entry(s, key) matches Some(v) ==> (int_at(s, v.0) matches Some(n) ==> entry_int(s, key)
            == Some(n.0)),
        entry(s, key) matches Some(v) ==> (string_at(s, v.0) matches Some(b) ==> entry_bytes(s, key)
            == Some(s.subrange(b.0, b.1))),
        entry_bytes(s, key) matches Some(b) ==> (valid_utf8(b) ==> entry_text(s, key) == Some(
            decode_utf8(b),
        )),
        entry_bytes(s, key) matches Some(b) ==> (!valid_utf8(b) ==> entry_text(s, key) is None),
{
}

} // verus!
