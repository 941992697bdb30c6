//! IPv4 addresses as plain octets: the dotted-decimal grammar, a
//! verified parser and formatter, the RFC 1918 private-range test,
//! and subnet arithmetic for the ARP sweep.

use vstd::prelude::*;
use crate::text::{
    digit_char, is_digit, digit_val, dec_chars, seq_dec_val,
    lemma_dec_chars_digits, lemma_dec_chars_val, lemma_dec_chars_len_octet,
    dec_string,
};

verus! {

/// An IPv4 address held as its four octets.
#[derive(Clone, Copy, Debug, PartialEq, Eq, Structural)]
pub struct Ipv4Address {
    pub o0: u8,
    pub o1: u8,
    pub o2: u8,
    pub o3: u8,
}

impl Ipv4Address {
    /// The 32-bit numeric value of the address, big-endian.
    pub open spec fn spec_value(self) -> int {
        self.o0 * 0x1000000 + self.o1 * 0x10000 + self.o2 * 0x100 + self.o3
    }

    /// Computes the 32-bit numeric value of the address.
    pub fn value(&self) -> (r: u32)
        ensures
            r as int == self.spec_value(),
    {
        (self.o0 as u32) * 0x1000000 + (self.o1 as u32) * 0x10000 + (self.o2 as u32) * 0x100
            + (self.o3 as u32)
    }
}

/// The address with a given 32-bit numeric value.
pub open spec fn ipv4_of_value(v: int) -> Ipv4Address {
    Ipv4Address {
        o0: (v / 0x1000000) as u8,
        o1: ((v / 0x10000) % 0x100) as u8,
        o2: ((v / 0x100) % 0x100) as u8,
        o3: (v % 0x100) as u8,
    }
}

/// Rebuilds an address from its 32-bit numeric value.
pub fn ipv4_from_value(v: u32) -> (r: Ipv4Address)
    ensures
        r == ipv4_of_value(v as int),
        r.spec_value() == v as int,
{
    Ipv4Address {
        o0: (v / 0x1000000) as u8,
        o1: ((v / 0x10000) % 0x100) as u8,
        o2: ((v / 0x100) % 0x100) as u8,
        o3: (v % 0x100) as u8,
    }
}

/// Index of the first `'.'` in a character sequence, or its length if
/// none occurs.
pub open spec fn first_dot(s: Seq<char>) -> int
    decreases s.len(),
{
    if s.len() == 0 {
        0
    } else if s[0] == '.' {
        0
    } else {
        1 + first_dot(s.subrange(1, s.len() as int))
    }
}

/// Characterization that pins `first_dot` down: a position with no dot
/// before it, and a dot (or the end) at it, is the first dot.
pub proof fn lemma_first_dot_is(s: Seq<char>, i: int)
    requires
        0 <= i <= s.len(),
        forall|t: int| 0 <= t < i ==> s[t] != '.',
        i < s.len() ==> s[i] == '.',
    ensures
        first_dot(s) == i,
    decreases s.len(),
{
    if s.len() == 0 {
    } else if s[0] == '.' {
        assert(i == 0);
    } else {
        assert(i >= 1);
        let s1 = s.subrange(1, s.len() as int);
        assert(forall|t: int| 0 <= t < i - 1 ==> s1[t] == s[t + 1] && s[t + 1] != '.');
        lemma_first_dot_is(s1, i - 1);
    }
}

/// A sequence of characters that std's IPv4 parsing accepts as one
/// octet: one to three digits, no leading zero, value at most 255.
pub open spec fn is_octet_chars(s: Seq<char>) -> bool {
    &&& 1 <= s.len() <= 3
    &&& forall|i: int| 0 <= i < s.len() ==> is_digit(#[trigger] s[i])
    &&& (s.len() > 1 ==> s[0] != '0')
    &&& seq_dec_val(s) <= 255
}

/// The parse of a dotted-decimal IPv4 literal: four octet numerals
/// separated by single dots, and nothing else.
pub open spec fn spec_parse_ipv4(s: Seq<char>) -> Option<Ipv4Address> {
    let i = first_dot(s);
    if i >= s.len() {
        None
    } else {
        let r1 = s.subrange(i + 1, s.len() as int);
        let j = first_dot(r1);
        if j >= r1.len() {
            None
        } else {
            let r2 = r1.subrange(j + 1, r1.len() as int);
            let k = first_dot(r2);
            if k >= r2.len() {
                None
            } else {
                let r3 = r2.subrange(k + 1, r2.len() as int);
                let s0 = s.subrange(0, i);
                let s1 = r1.subrange(0, j);
                let s2 = r2.subrange(0, k);
                if is_octet_chars(s0) && is_octet_chars(s1) && is_octet_chars(s2)
                    && is_octet_chars(r3) {
                    Some(Ipv4Address {
                        o0: seq_dec_val(s0) as u8,
                        o1: seq_dec_val(s1) as u8,
                        o2: seq_dec_val(s2) as u8,
                        o3: seq_dec_val(r3) as u8,
                    })
                } else {
                    None
                }
            }
        }
    }
}

/// Scans forward from `start` to the next dot, or the end.
fn find_dot(s: &str, start: usize) -> (r: usize)
    requires
        start as int <= s@.len(),
        s@.len() <= usize::MAX,
    ensures
        start <= r <= s@.len(),
        forall|t: int| start <= t < r ==> s@[t] != '.',
        (r as int) < s@.len() ==> s@[r as int] == '.',
{
    let n = s.unicode_len();
    let mut i = start;
    while i < n
        invariant
            start <= i <= n,
            n as int == s@.len(),
            forall|t: int| start <= t < i ==> s@[t] != '.',
        decreases n - i,
    {
        if s.get_char(i) == '.' {
            return i;
        }
        i = i + 1;
    }
    i
}

/// Parses the characters `from..to` of `s` as one octet numeral.
fn parse_octet(s: &str, from: usize, to: usize) -> (r: Option<u8>)
    requires
        from <= to,
        to as int <= s@.len(),
    ensures
        match r {
            Some(v) => is_octet_chars(s@.subrange(from as int, to as int))
                && v as int == seq_dec_val(s@.subrange(from as int, to as int)),
            None => !is_octet_chars(s@.subrange(from as int, to as int)),
        },
{
    let ghost sub = s@.subrange(from as int, to as int);
    let len = to - from;
    if len < 1 || len > 3 {
        return None;
    }
    if len > 1 && s.get_char(from) == '0' {
        assert(sub[0] == '0');
        return None;
    }
    let mut val: u32 = 0;
    let mut i = from;
    while i < to
        invariant
            from <= i <= to,
            to as int <= s@.len(),
            to - from <= 3,
            sub == s@.subrange(from as int, to as int),
            val as int == seq_dec_val(s@.subrange(from as int, i as int)),
            forall|t: int| 0 <= t < i - from ==> is_digit(#[trigger] sub[t]),
            val < 1000,
            i - from < 3 ==> val < 100,
            i - from < 2 ==> val < 10,
            i - from < 1 ==> val == 0,
        decreases to - i,
    {
        let c = s.get_char(i);
        let u = c as u32;
        if u < 48 || u > 57 {
            assert(!is_digit(sub[i - from as int]));
            return None;
        }
        assert(is_digit(c));
        proof {
            let pre = s@.subrange(from as int, i as int);
            let post = s@.subrange(from as int, i + 1 as int);
            assert(post.drop_last() =~= pre);
            assert(post.last() == c);
        }
        val = val * 10 + (u - 48);
        i = i + 1;
    }
    assert(sub =~= s@.subrange(from as int, i as int));
    if val > 255 {
        return None;
    }
    Some(val as u8)
}

/// Parses a dotted-decimal IPv4 literal, exactly as `spec_parse_ipv4`
/// describes.
pub fn parse_ipv4(s: &str) -> (r: Option<Ipv4Address>)
    ensures
        r == spec_parse_ipv4(s@),
{
    let n = s.unicode_len();
    let i = find_dot(s, 0);
    proof {
        lemma_first_dot_is(s@, i as int);
    }
    if i == n {
        return None;
    }
    let ghost r1 = s@.subrange(i + 1, s@.len() as int);
    let j = find_dot(s, i + 1);
    proof {
        assert(forall|t: int| 0 <= t < j - (i + 1) ==> r1[t] == s@[t + i + 1] && s@[t + i + 1]
            != '.');
        assert((j - (i + 1)) < r1.len() ==> r1[j - (i + 1)] == s@[j as int]);
        lemma_first_dot_is(r1, j - (i + 1));
    }
    if j == n {
        return None;
    }
    let ghost r2 = r1.subrange(j - i, r1.len() as int);
    let k = find_dot(s, j + 1);
    proof {
        assert(r2 =~= s@.subrange(j + 1, s@.len() as int));
        assert(forall|t: int| 0 <= t < k - (j + 1) ==> r2[t] == s@[t + j + 1] && s@[t + j + 1]
            != '.');
        assert((k - (j + 1)) < r2.len() ==> r2[k - (j + 1)] == s@[k as int]);
        lemma_first_dot_is(r2, k - (j + 1));
    }
    if k == n {
        return None;
    }
    let ghost r3 = r2.subrange(k - j, r2.len() as int);
    proof {
        assert(r3 =~= s@.subrange(k + 1, s@.len() as int));
        assert(r1.subrange(0, j - i - 1) =~= s@.subrange(i + 1, j as int));
        assert(r2.subrange(0, k - j - 1) =~= s@.subrange(j + 1, k as int));
    }
    let p0 = parse_octet(s, 0, i);
    let p1 = parse_octet(s, i + 1, j);
    let p2 = parse_octet(s, j + 1, k);
    let p3 = parse_octet(s, k + 1, n);
    match (p0, p1, p2, p3) {
        (Some(o0), Some(o1), Some(o2), Some(o3)) => Some(Ipv4Address { o0, o1, o2, o3 }),
        _ => None,
    }
}

/// Membership in the RFC 1918 private ranges `10.0.0.0/8`,
/// `172.16.0.0/12`, `192.168.0.0/16`.
pub open spec fn spec_is_private(ip: Ipv4Address) -> bool {
    ||| ip.o0 == 10
    ||| (ip.o0 == 172 && 16 <= ip.o1 <= 31)
    ||| (ip.o0 == 192 && ip.o1 == 168)
}

/// Decides membership in the RFC 1918 private ranges.
pub fn is_private_ip(ip: &Ipv4Address) -> (r: bool)
    ensures
        r == spec_is_private(*ip),
{
    if ip.o0 == 10 {
        return true;
    }
    if ip.o0 == 172 && ip.o1 >= 16 && ip.o1 <= 31 {
        return true;
    }
    if ip.o0 == 192 && ip.o1 == 168 {
        return true;
    }
    false
}

/// The dotted-decimal rendering of an address.
pub open spec fn ipv4_chars(ip: Ipv4Address) -> Seq<char> {
    dec_chars(ip.o0 as int) + seq!['.'] + dec_chars(ip.o1 as int) + seq!['.']
        + dec_chars(ip.o2 as int) + seq!['.'] + dec_chars(ip.o3 as int)
}

/// The canonical numeral of an octet is a valid octet numeral.
pub proof fn lemma_octet_numeral(v: int)
    requires
        0 <= v <= 255,
    ensures
        is_octet_chars(dec_chars(v)),
        seq_dec_val(dec_chars(v)) == v,
        forall|t: int| 0 <= t < dec_chars(v).len() ==> dec_chars(v)[t] != '.',
{
    lemma_dec_chars_digits(v);
    lemma_dec_chars_val(v);
    lemma_dec_chars_len_octet(v);
    assert forall|t: int| 0 <= t < dec_chars(v).len() implies dec_chars(v)[t] != '.' by {
        assert(is_digit(dec_chars(v)[t]));
    }
}

/// A numeral followed by a dot and a tail has its first dot right
/// after the numeral, and splits back into the numeral and the tail.
proof fn lemma_numeral_dot_split(v: int, tail: Seq<char>)
    requires
        0 <= v <= 255,
    ensures
        ({
            let s = dec_chars(v) + seq!['.'] + tail;
            &&& first_dot(s) == dec_chars(v).len()
            &&& s.subrange(0, dec_chars(v).len() as int) =~= dec_chars(v)
            &&& s.subrange(dec_chars(v).len() as int + 1, s.len() as int) =~= tail
        }),
{
    let d = dec_chars(v);
    let s = d + seq!['.'] + tail;
    lemma_octet_numeral(v);
    assert forall|t: int| 0 <= t < d.len() implies s[t] != '.' by {
        assert(s[t] == d[t]);
    }
    assert(s[d.len() as int] == '.');
    lemma_first_dot_is(s, d.len() as int);
}

/// Parsing the dotted-decimal rendering of an address yields the
/// address back.
pub proof fn lemma_parse_of_format(a: Ipv4Address)
    ensures
        spec_parse_ipv4(ipv4_chars(a)) == Some(a),
{
    let d0 = dec_chars(a.o0 as int);
    let d1 = dec_chars(a.o1 as int);
    let d2 = dec_chars(a.o2 as int);
    let d3 = dec_chars(a.o3 as int);
    lemma_octet_numeral(a.o0 as int);
    lemma_octet_numeral(a.o1 as int);
    lemma_octet_numeral(a.o2 as int);
    lemma_octet_numeral(a.o3 as int);
    let s = ipv4_chars(a);
    let t1 = d1 + seq!['.'] + d2 + seq!['.'] + d3;
    let t2 = d2 + seq!['.'] + d3;
    assert(s =~= dec_chars(a.o0 as int) + seq!['.'] + t1);
    lemma_numeral_dot_split(a.o0 as int, t1);
    let r1 = s.subrange(d0.len() as int + 1, s.len() as int);
    assert(r1 =~= t1);
    assert(t1 =~= dec_chars(a.o1 as int) + seq!['.'] + t2);
    lemma_numeral_dot_split(a.o1 as int, t2);
    let r2 = r1.subrange(d1.len() as int + 1, r1.len() as int);
    assert(r2 =~= t2);
    assert(t2 =~= dec_chars(a.o2 as int) + seq!['.'] + d3);
    lemma_numeral_dot_split(a.o2 as int, d3);
    let r3 = r2.subrange(d2.len() as int + 1, r2.len() as int);
    assert(r3 =~= d3);
    assert(first_dot(s) == d0.len());
    assert(first_dot(r1) == d1.len());
    assert(first_dot(r2) == d2.len());
    assert(s.subrange(0, d0.len() as int) =~= d0);
    assert(r1.subrange(0, d1.len() as int) =~= d1);
    assert(r2.subrange(0, d2.len() as int) =~= d2);
}

/// Renders an address in dotted-decimal form.
pub fn format_ipv4(ip: &Ipv4Address) -> (r: String)
    ensures
        r@ == ipv4_chars(*ip),
{
    proof {
        reveal_strlit(".");
    }
    let mut s = dec_string(ip.o0 as u64);
    s.append(".");
    s.append(dec_string(ip.o1 as u64).as_str());
    s.append(".");
    s.append(dec_string(ip.o2 as u64).as_str());
    s.append(".");
    s.append(dec_string(ip.o3 as u64).as_str());
    assert(s@ =~= ipv4_chars(*ip));
    s
}

} // verus!
