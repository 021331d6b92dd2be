//! Scanning text for delimiters, and the pieces of an address: host names
//! and port numbers.

use vstd::prelude::*;
use crate::text::{all_digits, decimal_value, is_digit};

verus! {

/// The position of the first character of `s` that occurs in `stops`, or the
/// length of `s` where there is none.
pub open spec fn index_of_any(s: Seq<char>, stops: Seq<char>) -> int
    decreases s.len(),
{
    if s.len() == 0 || stops.contains(s[0]) {
        0
    } else {
        1 + index_of_any(s.drop_first(), stops)
    }
}

/// `index_of_any` is the one position before which no stop occurs and at
/// which one does, or the text ends.
pub proof fn lemma_index_of_any(s: Seq<char>, stops: Seq<char>, i: int)
    requires
        0 <= i <= s.len(),
        forall|k: int| 0 <= k < i ==> !stops.contains(#[trigger] s[k]),
        i < s.len() ==> stops.contains(s[i]),
    ensures
        index_of_any(s, stops) == i,
    decreases s.len(),
{
    if i > 0 {
        assert(!stops.contains(s[0]));
        let rest = s.drop_first();
        assert forall|k: int| 0 <= k < i - 1 implies !stops.contains(#[trigger] rest[k]) by {
            assert(rest[k] == s[k + 1]);
        }
        lemma_index_of_any(rest, stops, i - 1);
    }
}

/// `index_of_any` lies within the text.
pub proof fn lemma_index_of_any_bounds(s: Seq<char>, stops: Seq<char>)
    ensures
        0 <= index_of_any(s, stops) <= s.len(),
    decreases s.len(),
{
    if !(s.len() == 0 || stops.contains(s[0])) {
        lemma_index_of_any_bounds(s.drop_first(), stops);
    }
}

/// Whether `c` occurs in `stops`.
pub fn is_stop(stops: &Vec<char>, c: char) -> (found: bool)
    ensures
        found == stops@.contains(c),
{
    let mut i: usize = 0;
    while i < stops.len()
        invariant
            i <= stops.len(),
            forall|k: int| 0 <= k < i ==> stops@[k] != c,
        decreases stops.len() - i,
    {
        if stops[i] == c {
            return true;
        }
        i += 1;
    }
    false
}

/// The position of the first character of `v` that occurs in `stops`, or the
/// length of `v`.
pub fn find_any(v: &Vec<char>, stops: &Vec<char>) -> (at: usize)
    ensures
        at == index_of_any(v@, stops@),
        at <= v.len(),
{
    let mut i: usize = 0;
    while i < v.len() && !is_stop(stops, v[i])
        invariant
            i <= v.len(),
            forall|k: int| 0 <= k < i ==> !stops@.contains(#[trigger] v@[k]),
        decreases v.len() - i,
    {
        i += 1;
    }
    proof {
        lemma_index_of_any(v@, stops@, i as int);
    }
    i
}

/// The characters of which a host name is written.
pub open spec fn is_host_char(c: char) -> bool {
    ||| 'a' <= c <= 'z'
    ||| 'A' <= c <= 'Z'
    ||| is_digit(c)
    ||| c == '.'
    ||| c == '-'
    ||| c == '_'
}

/// A host name: one or more host characters, the first of them not a hyphen.
pub open spec fn is_valid_host(h: Seq<char>) -> bool {
    &&& h.len() > 0
    &&& h[0] != '-'
    &&& forall|i: int| 0 <= i < h.len() ==> is_host_char(#[trigger] h[i])
}

/// Whether `c` may stand in a host name.
pub fn host_char(c: char) -> (b: bool)
    ensures
        b == is_host_char(c),
{
    ('a' <= c && c <= 'z') || ('A' <= c && c <= 'Z') || ('0' <= c && c <= '9') || c == '.' || c
        == '-' || c == '_'
}

/// Whether `v` is a host name.
pub fn valid_host(v: &Vec<char>) -> (b: bool)
    ensures
        b == is_valid_host(v@),
{
    if v.len() == 0 || v[0] == '-' {
        return false;
    }
    let mut i: usize = 0;
    while i < v.len()
        invariant
            i <= v.len(),
            forall|k: int| 0 <= k < i ==> is_host_char(#[trigger] v@[k]),
        decreases v.len() - i,
    {
        if !host_char(v[i]) {
            return false;
        }
        i += 1;
    }
    true
}

/// The port that `s` writes, where it writes one: a non-empty string of
/// digits whose value is at most 65535.
pub open spec fn port_of(s: Seq<char>) -> Option<u16> {
    if s.len() > 0 && all_digits(s) && decimal_value(s) <= 65535 {
        Some(decimal_value(s) as u16)
    } else {
        None
    }
}

/// Reading more digits never lowers the value.
pub proof fn lemma_decimal_grows(s: Seq<char>, i: int)
    requires
        all_digits(s),
        0 <= i <= s.len(),
    ensures
        decimal_value(s.take(i)) <= decimal_value(s),
    decreases s.len() - i,
{
    if i < s.len() {
        lemma_decimal_grows(s, i + 1);
        let longer = s.take(i + 1);
        assert(longer.drop_last() =~= s.take(i));
        assert(is_digit(s[i]));
        assert(longer.last() == s[i]);
    } else {
        assert(s.take(i) =~= s);
    }
}

/// Whether every character of `v` is a digit.
pub fn only_digits(v: &Vec<char>) -> (b: bool)
    ensures
        b == all_digits(v@),
{
    let mut i: usize = 0;
    while i < v.len()
        invariant
            i <= v.len(),
            forall|k: int| 0 <= k < i ==> is_digit(#[trigger] v@[k]),
        decreases v.len() - i,
    {
        if !('0' <= v[i] && v[i] <= '9') {
            return false;
        }
        i += 1;
    }
    true
}

/// The value of a string of digits, where it is at most 65535.
fn small_decimal(v: &Vec<char>) -> (n: Option<u16>)
    requires
        all_digits(v@),
    ensures
        n == (if decimal_value(v@) <= 65535 {
            Some(decimal_value(v@) as u16)
        } else {
            None
        }),
{
    let mut acc: u32 = 0;
    let mut i: usize = 0;
    assert(v@.take(0) =~= Seq::<char>::empty());
    while i < v.len()
        invariant
            i <= v.len(),
            all_digits(v@),
            acc == decimal_value(v@.take(i as int)),
            acc <= 65535,
        decreases v.len() - i,
    {
        assert(is_digit(v@[i as int]));
        let d: u32 = v[i] as u32 - 48;
        let next: u32 = acc * 10 + d;
        proof {
            let longer = v@.take(i + 1);
            assert(longer.drop_last() =~= v@.take(i as int));
            assert(longer.last() == v@[i as int]);
            assert(next == decimal_value(longer));
        }
        if next > 65535 {
            proof {
                lemma_decimal_grows(v@, i + 1);
            }
            return None;
        }
        acc = next;
        i += 1;
    }
    assert(v@.take(v.len() as int) =~= v@);
    Some(acc as u16)
}

/// The port that `v` writes, where it writes one.
pub fn parse_port(v: &Vec<char>) -> (port: Option<u16>)
    ensures
        port == port_of(v@),
{
    if v.len() == 0 || !only_digits(v) {
        return None;
    }
    small_decimal(v)
}

} // verus!
