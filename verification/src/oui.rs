//! The OUI registry: a mapping from the colon-form 24-bit MAC prefix
//! to the vendor name, built once from an embedded CSV table whose
//! columns are `registry,assignment,organization_name`.

use vstd::prelude::*;
use crate::text::{
    first_occ, lemma_first_occ_is, lemma_first_occ_bounds, find_from, trim, trim_spec,
    char_to_string,
};

verus! {

/// ASCII lowercasing of a single character.
pub open spec fn lower_char(c: char) -> char {
    if c == 'A' { 'a' }
    else if c == 'B' { 'b' }
    else if c == 'C' { 'c' }
    else if c == 'D' { 'd' }
    else if c == 'E' { 'e' }
    else if c == 'F' { 'f' }
    else if c == 'G' { 'g' }
    else if c == 'H' { 'h' }
    else if c == 'I' { 'i' }
    else if c == 'J' { 'j' }
    else if c == 'K' { 'k' }
    else if c == 'L' { 'l' }
    else if c == 'M' { 'm' }
    else if c == 'N' { 'n' }
    else if c == 'O' { 'o' }
    else if c == 'P' { 'p' }
    else if c == 'Q' { 'q' }
    else if c == 'R' { 'r' }
    else if c == 'S' { 's' }
    else if c == 'T' { 't' }
    else if c == 'U' { 'u' }
    else if c == 'V' { 'v' }
    else if c == 'W' { 'w' }
    else if c == 'X' { 'x' }
    else if c == 'Y' { 'y' }
    else if c == 'Z' { 'z' }
    else { c }
}

/// Normalization of an assignment character: `-` becomes `:`, letters
/// are lowercased.
pub open spec fn norm_char(c: char) -> char {
    if c == '-' {
        ':'
    } else {
        lower_char(c)
    }
}

/// Normalization of a whole assignment field.
pub open spec fn norm_seq(s: Seq<char>) -> Seq<char> {
    Seq::new(s.len(), |i: int| norm_char(s[i]))
}

/// The lowercased first eight characters of a MAC string: the 24-bit
/// prefix in colon form.
pub open spec fn lower_prefix8(s: Seq<char>) -> Seq<char> {
    Seq::new(8, |i: int| lower_char(s[i]))
}

/// The `(prefix, organization)` pair a CSV line contributes: nothing
/// unless the line has at least three comma-separated fields, else the
/// second field trimmed and normalized with the third field trimmed.
pub open spec fn line_entry(line: Seq<char>) -> Seq<(Seq<char>, Seq<char>)> {
    let a = first_occ(line, ',');
    if a >= line.len() {
        Seq::empty()
    } else {
        let r1 = line.subrange(a + 1, line.len() as int);
        let b = first_occ(r1, ',');
        if b >= r1.len() {
            Seq::empty()
        } else {
            let f1 = r1.subrange(0, b);
            let r2 = r1.subrange(b + 1, r1.len() as int);
            let c = first_occ(r2, ',');
            let f2 = r2.subrange(0, c);
            seq![(norm_seq(trim_spec(f1)), trim_spec(f2))]
        }
    }
}

/// The pairs contributed by every line of a line-separated text, in
/// order.
pub open spec fn csv_entries_from(s: Seq<char>) -> Seq<(Seq<char>, Seq<char>)>
    decreases s.len(),
    via csv_entries_from_decreases
{
    let i = first_occ(s, '\n');
    if i >= s.len() {
        line_entry(s)
    } else {
        line_entry(s.subrange(0, i)) + csv_entries_from(s.subrange(i + 1, s.len() as int))
    }
}

#[via_fn]
proof fn csv_entries_from_decreases(s: Seq<char>) {
    lemma_first_occ_bounds(s, '\n');
}

/// The pairs of a CSV table: its header line skipped, then every
/// retained line's pair in order.
pub open spec fn csv_entries(s: Seq<char>) -> Seq<(Seq<char>, Seq<char>)> {
    let i = first_occ(s, '\n');
    if i >= s.len() {
        Seq::empty()
    } else {
        csv_entries_from(s.subrange(i + 1, s.len() as int))
    }
}

/// The character view of a list of owned pairs.
pub open spec fn pairs_view(s: Seq<(String, String)>) -> Seq<(Seq<char>, Seq<char>)> {
    s.map_values(|p: (String, String)| (p.0@, p.1@))
}

/// The organization recorded for a prefix, the latest insertion
/// winning.
pub open spec fn table_lookup(s: Seq<(Seq<char>, Seq<char>)>, key: Seq<char>) -> Option<
    Seq<char>,
>
    decreases s.len(),
{
    if s.len() == 0 {
        None
    } else if s.last().0 == key {
        Some(s.last().1)
    } else {
        table_lookup(s.drop_last(), key)
    }
}

/// The embedded OUI table.
pub open spec fn embedded_csv() -> Seq<char> {
    "registry,assignment,organization_name\nMA-L,00-1A-2B,Ayecom Technology Co. Ltd\nMA-L,00-50-56,VMware Inc.\nMA-L,00-1B-63,Apple Inc.\nMA-L,3C-5A-B4,Google Inc.\nMA-L,00-15-5D,Microsoft Corporation\nMA-L,B8-27-EB,Raspberry Pi Foundation\nMA-L,00-E0-4C,Realtek Semiconductor Corp.\nMA-L,F4-F5-E8,Google Inc.\nMA-L,00-0C-29,VMware Inc.\nMA-L,DC-A6-32,Raspberry Pi Trading Ltd\nMA-L,18-C0-4D,Giga-Byte Technology Co. Ltd\nMA-L,00-D8-61,Micro-Star International\n"@
}

/// Normalizes one assignment character.
fn norm_char_exec(c: char) -> (r: char)
    ensures
        r == norm_char(c),
{
    match c {
        '-' => ':',
        'A' => 'a',
        'B' => 'b',
        'C' => 'c',
        'D' => 'd',
        'E' => 'e',
        'F' => 'f',
        'G' => 'g',
        'H' => 'h',
        'I' => 'i',
        'J' => 'j',
        'K' => 'k',
        'L' => 'l',
        'M' => 'm',
        'N' => 'n',
        'O' => 'o',
        'P' => 'p',
        'Q' => 'q',
        'R' => 'r',
        'S' => 's',
        'T' => 't',
        'U' => 'u',
        'V' => 'v',
        'W' => 'w',
        'X' => 'x',
        'Y' => 'y',
        'Z' => 'z',
        _ => c,
    }
}

/// Lowercases one character.
fn lower_char_exec(c: char) -> (r: char)
    ensures
        r == lower_char(c),
{
    match c {
        'A' => 'a',
        'B' => 'b',
        'C' => 'c',
        'D' => 'd',
        'E' => 'e',
        'F' => 'f',
        'G' => 'g',
        'H' => 'h',
        'I' => 'i',
        'J' => 'j',
        'K' => 'k',
        'L' => 'l',
        'M' => 'm',
        'N' => 'n',
        'O' => 'o',
        'P' => 'p',
        'Q' => 'q',
        'R' => 'r',
        'S' => 's',
        'T' => 't',
        'U' => 'u',
        'V' => 'v',
        'W' => 'w',
        'X' => 'x',
        'Y' => 'y',
        'Z' => 'z',
        _ => c,
    }
}

/// Normalizes a whole assignment field.
fn normalize_assignment(s: &str) -> (r: String)
    requires
        s@.len() <= usize::MAX,
    ensures
        r@ == norm_seq(s@),
{
    let n = s.unicode_len();
    let mut out = String::new();
    let mut i: usize = 0;
    while i < n
        invariant
            0 <= i <= n,
            n as int == s@.len(),
            out@.len() == i,
            forall|j: int| 0 <= j < i ==> out@[j] == norm_char(#[trigger] s@[j]),
        decreases n - i,
    {
        let c = s.get_char(i);
        let d = norm_char_exec(c);
        out.append(char_to_string(d).as_str());
        i = i + 1;
    }
    proof {
        assert(out@ =~= norm_seq(s@));
    }
    out
}

/// In-memory registry from colon-form lowercase 24-bit prefixes to
/// organization names.
pub struct OuiDb {
    pub entries: Vec<(String, String)>,
}

impl OuiDb {
    /// Parses a CSV table into a registry: the header line is skipped,
    /// lines with fewer than three comma-separated fields are skipped,
    /// and each retained line contributes its trimmed, normalized
    /// assignment and its trimmed organization name.
    pub fn from_csv(s: &str) -> (r: OuiDb)
        ensures
            pairs_view(r.entries@) == csv_entries(s@),
    {
        let n = s.unicode_len();
        let mut out: Vec<(String, String)> = Vec::new();
        let h = find_from(s, 0, '\n');
        proof {
            lemma_first_occ_is(s@, '\n', h as int);
        }
        if h == n {
            proof {
                assert(pairs_view(out@) =~= csv_entries(s@));
            }
            return OuiDb { entries: out };
        }
        let mut pos: usize = h + 1;
        proof {
            assert(csv_entries(s@) == csv_entries_from(s@.subrange(h + 1, n as int)));
        }
        loop
            invariant_except_break
                csv_entries(s@) == pairs_view(out@) + csv_entries_from(s@.subrange(pos as int,
                    n as int)),
            invariant
                pos <= n,
                n as int == s@.len(),
            ensures
                csv_entries(s@) == pairs_view(out@),
            decreases n - pos,
        {
            let e = find_from(s, pos, '\n');
            let ghost rem = s@.subrange(pos as int, n as int);
            let line_s = s.substring_char(pos, e);
            let ghost line = line_s@;
            proof {
                assert(forall|t: int| 0 <= t < e - pos ==> rem[t] == s@[t + pos] && s@[t + pos]
                    != '\n');
                assert(e - pos < rem.len() ==> rem[e - pos] == s@[e as int]);
                lemma_first_occ_is(rem, '\n', e - pos);
                assert(line =~= rem.subrange(0, e - pos));
                if (e as int) == n as int {
                    assert(line =~= rem);
                }
            }
            let line_n = e - pos;
            let a = find_from(line_s, 0, ',');
            proof {
                lemma_first_occ_is(line, ',', a as int);
            }
            if a < line_n {
                let ghost r1 = line.subrange(a + 1, line.len() as int);
                let b = find_from(line_s, a + 1, ',');
                proof {
                    assert(forall|t: int| 0 <= t < b - (a + 1) ==> r1[t] == line[t + a + 1]
                        && line[t + a + 1] != ',');
                    assert(b - (a + 1) < r1.len() ==> r1[b - (a + 1)] == line[b as int]);
                    lemma_first_occ_is(r1, ',', b - (a + 1));
                }
                if b < line_n {
                    let ghost r2 = r1.subrange(b - a, r1.len() as int);
                    let c = find_from(line_s, b + 1, ',');
                    proof {
                        assert(r2 =~= line.subrange(b + 1, line.len() as int));
                        assert(forall|t: int| 0 <= t < c - (b + 1) ==> r2[t] == line[t + b + 1]
                            && line[t + b + 1] != ',');
                        assert(c - (b + 1) < r2.len() ==> r2[c - (b + 1)] == line[c as int]);
                        lemma_first_occ_is(r2, ',', c - (b + 1));
                        assert(r1.subrange(0, b - a - 1) =~= line.subrange(a + 1, b as int));
                        assert(r2.subrange(0, c - b - 1) =~= line.subrange(b + 1, c as int));
                    }
                    let f1 = line_s.substring_char(a + 1, b);
                    let f2 = line_s.substring_char(b + 1, c);
                    let key = normalize_assignment(trim(f1));
                    let org = trim(f2).to_owned();
                    let ghost before = out@;
                    out.push((key, org));
                    proof {
                        assert(line_entry(line) =~= seq![(key@, org@)]);
                        assert(pairs_view(out@) =~= pairs_view(before) + line_entry(line));
                    }
                } else {
                    proof {
                        assert(line_entry(line) =~= Seq::<(Seq<char>, Seq<char>)>::empty());
                        assert(pairs_view(out@) =~= pairs_view(out@) + line_entry(line));
                    }
                }
            } else {
                proof {
                    assert(line_entry(line) =~= Seq::<(Seq<char>, Seq<char>)>::empty());
                    assert(pairs_view(out@) =~= pairs_view(out@) + line_entry(line));
                }
            }
            if e == n {
                proof {
                    assert(csv_entries_from(rem) == line_entry(line));
                }
                break;
            }
            proof {
                assert(rem.subrange((e - pos) + 1, rem.len() as int) =~= s@.subrange(e + 1,
                    n as int));
                assert(csv_entries_from(rem) == line_entry(line) + csv_entries_from(s@.subrange(
                    e + 1, n as int)));
            }
            pos = e + 1;
        }
        OuiDb { entries: out }
    }

    /// Builds the registry from the embedded table.
    pub fn new_embedded() -> (r: OuiDb)
        ensures
            pairs_view(r.entries@) == csv_entries(embedded_csv()),
    {
        OuiDb::from_csv(
            "registry,assignment,organization_name\nMA-L,00-1A-2B,Ayecom Technology Co. Ltd\nMA-L,00-50-56,VMware Inc.\nMA-L,00-1B-63,Apple Inc.\nMA-L,3C-5A-B4,Google Inc.\nMA-L,00-15-5D,Microsoft Corporation\nMA-L,B8-27-EB,Raspberry Pi Foundation\nMA-L,00-E0-4C,Realtek Semiconductor Corp.\nMA-L,F4-F5-E8,Google Inc.\nMA-L,00-0C-29,VMware Inc.\nMA-L,DC-A6-32,Raspberry Pi Trading Ltd\nMA-L,18-C0-4D,Giga-Byte Technology Co. Ltd\nMA-L,00-D8-61,Micro-Star International\n",
        )
    }

    /// Looks up a MAC string's vendor: the first eight characters,
    /// lowercased, are the colon-form 24-bit prefix.
    pub fn lookup(&self, mac: &str) -> (r: Option<String>)
        ensures
            mac@.len() < 8 ==> r is None,
            mac@.len() >= 8 ==> (match table_lookup(pairs_view(self.entries@), lower_prefix8(
                mac@,
            )) {
                Some(org) => r matches Some(o) && o@ == org,
                None => r is None,
            }),
    {
        let n = mac.unicode_len();
        if n < 8 {
            return None;
        }
        let mut key = String::new();
        let mut i: usize = 0;
        while i < 8
            invariant
                0 <= i <= 8,
                n as int == mac@.len(),
                8 <= mac@.len(),
                key@.len() == i,
                forall|j: int| 0 <= j < i ==> key@[j] == lower_char(#[trigger] mac@[j]),
            decreases 8 - i,
        {
            let c = mac.get_char(i);
            key.append(char_to_string(lower_char_exec(c)).as_str());
            i = i + 1;
        }
        proof {
            assert(key@ =~= lower_prefix8(mac@));
        }
        let ghost pv = pairs_view(self.entries@);
        let mut j = self.entries.len();
        proof {
            assert(pv.subrange(0, pv.len() as int) =~= pv);
        }
        while j > 0
            invariant
                0 <= j <= self.entries@.len(),
                8 <= mac@.len(),
                pv == pairs_view(self.entries@),
                key@ == lower_prefix8(mac@),
                table_lookup(pv, key@) == table_lookup(pv.subrange(0, j as int), key@),
            decreases j,
        {
            j = j - 1;
            proof {
                assert(pv.subrange(0, j + 1).drop_last() =~= pv.subrange(0, j as int));
                assert(pv.subrange(0, j + 1).last() == pv[j as int]);
            }
            let entry = &self.entries[j];
            if entry.0 == key {
                return Some(entry.1.clone());
            }
        }
        proof {
            assert(pv.subrange(0, 0) =~= Seq::<(Seq<char>, Seq<char>)>::empty());
        }
        None
    }
}

} // verus!
