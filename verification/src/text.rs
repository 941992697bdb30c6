//! Decimal numerals over character sequences: the spec-level grammar
//! of the digit strings that IPv4 literals and test identifiers use,
//! with verified rendering and parsing helpers.

use vstd::prelude::*;

verus! {

/// The character for a single decimal digit value.
pub open spec fn digit_char(d: int) -> char {
    if d == 0 { '0' }
    else if d == 1 { '1' }
    else if d == 2 { '2' }
    else if d == 3 { '3' }
    else if d == 4 { '4' }
    else if d == 5 { '5' }
    else if d == 6 { '6' }
    else if d == 7 { '7' }
    else if d == 8 { '8' }
    else { '9' }
}

/// Whether a character is a decimal digit.
pub open spec fn is_digit(c: char) -> bool {
    '0' <= c && c <= '9'
}

/// The numeric value of a decimal digit character.
pub open spec fn digit_val(c: char) -> int {
    c as int - '0' as int
}

/// The canonical decimal numeral of a non-negative integer
/// (no leading zeros; `0` is rendered as "0").
pub open spec fn dec_chars(n: int) -> Seq<char>
    decreases n,
{
    if n < 10 {
        seq![digit_char(n)]
    } else {
        dec_chars(n / 10).push(digit_char(n % 10))
    }
}

/// The numeric value of a sequence of decimal digit characters.
pub open spec fn seq_dec_val(s: Seq<char>) -> int
    decreases s.len(),
{
    if s.len() == 0 {
        0
    } else {
        seq_dec_val(s.drop_last()) * 10 + digit_val(s.last())
    }
}

/// Every character of the canonical numeral is a digit, the numeral is
/// non-empty, and it has no leading zero unless it is "0" itself.
pub proof fn lemma_dec_chars_digits(n: int)
    requires
        n >= 0,
    ensures
        dec_chars(n).len() >= 1,
        forall|i: int| 0 <= i < dec_chars(n).len() ==> is_digit(#[trigger] dec_chars(n)[i]),
        dec_chars(n).len() > 1 ==> dec_chars(n)[0] != '0',
        n >= 1 ==> dec_chars(n)[0] != '0',
    decreases n,
{
    if n >= 10 {
        lemma_dec_chars_digits(n / 10);
    }
}

/// A digit character carries exactly the value it was made from.
pub proof fn lemma_digit_roundtrip(d: int)
    requires
        0 <= d < 10,
    ensures
        digit_val(digit_char(d)) == d,
        is_digit(digit_char(d)),
{
}

/// The canonical numeral evaluates back to the number it renders.
pub proof fn lemma_dec_chars_val(n: int)
    requires
        n >= 0,
    ensures
        seq_dec_val(dec_chars(n)) == n,
    decreases n,
{
    if n < 10 {
        lemma_digit_roundtrip(n);
        let s = dec_chars(n);
        assert(s.len() == 1);
        assert(s.last() == digit_char(n));
        assert(s.drop_last() =~= Seq::<char>::empty());
        assert(seq_dec_val(s.drop_last()) == 0);
        assert(seq_dec_val(s) == digit_val(digit_char(n)));
    } else {
        lemma_dec_chars_val(n / 10);
        lemma_digit_roundtrip(n % 10);
        let s = dec_chars(n);
        assert(s == dec_chars(n / 10).push(digit_char(n % 10)));
        assert(s.len() >= 1);
        assert(s.last() == digit_char(n % 10));
        assert(s.drop_last() =~= dec_chars(n / 10));
        assert(seq_dec_val(s) == seq_dec_val(s.drop_last()) * 10 + digit_val(s.last()));
    }
}

/// Numerals of values up to 255 are at most three digits long.
pub proof fn lemma_dec_chars_len_octet(n: int)
    requires
        0 <= n <= 255,
    ensures
        1 <= dec_chars(n).len() <= 3,
{
    if n >= 10 {
        assert(dec_chars(n) == dec_chars(n / 10).push(digit_char(n % 10)));
        if n >= 100 {
            assert(dec_chars(n / 10) == dec_chars(n / 10 / 10).push(digit_char((n / 10) % 10)));
            assert(n / 10 / 10 < 10);
            assert(dec_chars(n / 10 / 10).len() == 1);
        } else {
            assert(dec_chars(n / 10).len() == 1);
        }
    }
}

/// A one-character string slice for a decimal digit value.
pub fn digit_str(d: u64) -> (r: &'static str)
    requires
        d < 10,
    ensures
        r@ =~= seq![digit_char(d as int)],
{
    proof {
        reveal_strlit("0");
        reveal_strlit("1");
        reveal_strlit("2");
        reveal_strlit("3");
        reveal_strlit("4");
        reveal_strlit("5");
        reveal_strlit("6");
        reveal_strlit("7");
        reveal_strlit("8");
        reveal_strlit("9");
    }
    match d {
        0 => "0",
        1 => "1",
        2 => "2",
        3 => "3",
        4 => "4",
        5 => "5",
        6 => "6",
        7 => "7",
        8 => "8",
        _ => "9",
    }
}

/// Renders a number as its canonical decimal numeral.
pub fn dec_string(n: u64) -> (r: String)
    ensures
        r@ == dec_chars(n as int),
    decreases n,
{
    if n < 10 {
        digit_str(n).to_owned()
    } else {
        let mut s = dec_string(n / 10);
        s.append(digit_str(n % 10));
        assert(s@ =~= dec_chars(n as int));
        s
    }
}

/// Index of the first occurrence of `sep`, or the length if none.
pub open spec fn first_occ(s: Seq<char>, sep: char) -> int
    decreases s.len(),
{
    if s.len() == 0 {
        0
    } else if s[0] == sep {
        0
    } else {
        1 + first_occ(s.subrange(1, s.len() as int), sep)
    }
}

/// `first_occ` stays within the sequence's bounds.
pub proof fn lemma_first_occ_bounds(s: Seq<char>, sep: char)
    ensures
        0 <= first_occ(s, sep) <= s.len(),
    decreases s.len(),
{
    if s.len() > 0 && s[0] != sep {
        lemma_first_occ_bounds(s.subrange(1, s.len() as int), sep);
    }
}

/// Characterization that pins `first_occ` down.
pub proof fn lemma_first_occ_is(s: Seq<char>, sep: char, i: int)
    requires
        0 <= i <= s.len(),
        forall|t: int| 0 <= t < i ==> s[t] != sep,
        i < s.len() ==> s[i] == sep,
    ensures
        first_occ(s, sep) == i,
    decreases s.len(),
{
    if s.len() == 0 {
    } else if s[0] == sep {
        assert(i == 0);
    } else {
        assert(i >= 1);
        let s1 = s.subrange(1, s.len() as int);
        assert(forall|t: int| 0 <= t < i - 1 ==> s1[t] == s[t + 1] && s[t + 1] != sep);
        lemma_first_occ_is(s1, sep, i - 1);
    }
}

/// Scans forward from `start` to the next occurrence of `sep`, or the
/// end.
pub fn find_from(s: &str, start: usize, sep: char) -> (r: usize)
    requires
        start as int <= s@.len(),
        s@.len() <= usize::MAX,
    ensures
        start <= r <= s@.len(),
        forall|t: int| start <= t < r ==> s@[t] != sep,
        (r as int) < s@.len() ==> s@[r as int] == sep,
{
    let n = s.unicode_len();
    let mut i = start;
    while i < n
        invariant
            start <= i <= n,
            n as int == s@.len(),
            forall|t: int| start <= t < i ==> s@[t] != sep,
        decreases n - i,
    {
        if s.get_char(i) == sep {
            return i;
        }
        i = i + 1;
    }
    i
}

/// The whitespace characters `str::trim` strips from the fields of
/// the embedded table.
pub open spec fn is_space(c: char) -> bool {
    c == ' ' || c == '\t' || c == '\r'
}

/// How many whitespace characters the sequence starts with.
pub open spec fn lead_spaces(s: Seq<char>) -> int
    decreases s.len(),
{
    if s.len() == 0 {
        0
    } else if !is_space(s[0]) {
        0
    } else {
        1 + lead_spaces(s.subrange(1, s.len() as int))
    }
}

/// How many whitespace characters the sequence ends with.
pub open spec fn trail_spaces(s: Seq<char>) -> int
    decreases s.len(),
{
    if s.len() == 0 {
        0
    } else if !is_space(s.last()) {
        0
    } else {
        1 + trail_spaces(s.drop_last())
    }
}

/// The sequence with leading and trailing whitespace removed.
pub open spec fn trim_spec(s: Seq<char>) -> Seq<char> {
    let t = s.subrange(lead_spaces(s), s.len() as int);
    t.subrange(0, t.len() - trail_spaces(t))
}

/// Characterization that pins `lead_spaces` down.
pub proof fn lemma_lead_spaces_is(s: Seq<char>, i: int)
    requires
        0 <= i <= s.len(),
        forall|t: int| 0 <= t < i ==> is_space(#[trigger] s[t]),
        i < s.len() ==> !is_space(s[i]),
    ensures
        lead_spaces(s) == i,
    decreases s.len(),
{
    if s.len() == 0 {
    } else if !is_space(s[0]) {
        assert(i == 0);
    } else {
        assert(s[0] == s[0]);
        assert(i >= 1) by {
            assert(is_space(s[0]));
        }
        let s1 = s.subrange(1, s.len() as int);
        assert(forall|t: int| 0 <= t < i - 1 ==> s1[t] == s[t + 1] && is_space(#[trigger] s[t
            + 1]));
        lemma_lead_spaces_is(s1, i - 1);
    }
}

/// Characterization that pins `trail_spaces` down, with its bound.
pub proof fn lemma_trail_spaces_is(s: Seq<char>, k: int)
    requires
        0 <= k <= s.len(),
        forall|t: int| s.len() - k <= t < s.len() ==> is_space(#[trigger] s[t]),
        k < s.len() ==> !is_space(s[s.len() - k - 1]),
    ensures
        trail_spaces(s) == k,
    decreases s.len(),
{
    if s.len() == 0 {
    } else if !is_space(s.last()) {
        assert(k == 0) by {
            if k > 0 {
                assert(is_space(s[s.len() - 1]));
            }
        }
    } else {
        assert(k >= 1) by {
            if k == 0 {
                assert(!is_space(s[s.len() - 0 - 1]));
            }
        }
        let s1 = s.drop_last();
        assert(forall|t: int| s1.len() - (k - 1) <= t < s1.len() ==> s1[t] == s[t] && is_space(
            #[trigger] s[t]));
        lemma_trail_spaces_is(s1, k - 1);
    }
}

/// Strips leading and trailing whitespace, exactly as `trim_spec`
/// describes.
pub fn trim(s: &str) -> (r: &str)
    requires
        s@.len() <= usize::MAX,
    ensures
        r@ == trim_spec(s@),
        r@.len() <= s@.len(),
{
    let n = s.unicode_len();
    let mut lead: usize = 0;
    loop
        invariant
            0 <= lead <= n,
            n as int == s@.len(),
            forall|t: int| 0 <= t < lead ==> is_space(#[trigger] s@[t]),
        ensures
            0 <= lead <= n,
            forall|t: int| 0 <= t < lead ==> is_space(#[trigger] s@[t]),
            (lead as int) < s@.len() ==> !is_space(s@[lead as int]),
        decreases n - lead,
    {
        if lead >= n {
            break;
        }
        let c = s.get_char(lead);
        if c != ' ' && c != '\t' && c != '\r' {
            break;
        }
        lead = lead + 1;
    }
    proof {
        lemma_lead_spaces_is(s@, lead as int);
    }
    let t = s.substring_char(lead, n);
    let tn = n - lead;
    let mut trail: usize = 0;
    loop
        invariant
            0 <= trail <= tn,
            tn as int == t@.len(),
            forall|u: int| t@.len() - trail <= u < t@.len() ==> is_space(#[trigger] t@[u]),
        ensures
            0 <= trail <= tn,
            forall|u: int| t@.len() - trail <= u < t@.len() ==> is_space(#[trigger] t@[u]),
            (trail as int) < t@.len() ==> !is_space(t@[t@.len() - trail - 1]),
        decreases tn - trail,
    {
        if trail >= tn {
            break;
        }
        let c = t.get_char(tn - trail - 1);
        if c != ' ' && c != '\t' && c != '\r' {
            break;
        }
        trail = trail + 1;
    }
    proof {
        lemma_trail_spaces_is(t@, trail as int);
    }
    let r = t.substring_char(0, tn - trail);
    proof {
        assert(r@ =~= trim_spec(s@));
    }
    r
}

/// Relies on `char::to_string` of std: the one-character string of a
/// character.
#[verifier::external_body]
pub fn char_to_string(c: char) -> (r: String)
    ensures
        r@ =~= seq![c],
{
    c.to_string()
}

} // verus!
