//! The accepted shape of one line of the source list: an uppercase
//! hexadecimal field, or a `..` range of two such fields, then one or more
//! spaces and a semicolon. Everything after the semicolon is commentary, and
//! any line of another shape is ignored.

use vstd::prelude::*;
use crate::errors::BuildError;
use crate::hex::{is_hex_digit, all_hex, hex_val, parse_hex, hex_digit_check};

verus! {

/// Whether every byte of a segment is a space.
pub open spec fn all_space(s: Seq<u8>) -> bool {
    forall|i: int| 0 <= i < s.len() ==> (#[trigger] s[i]) == 0x20
}

/// The line starts with `h` hexadecimal digits, then at least one space up to
/// `t`, then a semicolon at `t`: the single-code-point shape.
pub open spec fn single_form(s: Seq<u8>, h: int, t: int) -> bool {
    &&& 0 < h < t < s.len()
    &&& all_hex(s.subrange(0, h))
    &&& all_space(s.subrange(h, t))
    &&& s[t] == 0x3B
}

/// The line starts with `h1` hexadecimal digits, two dots, more hexadecimal
/// digits up to `h2`, then at least one space up to `t`, then a semicolon at
/// `t`: the range shape.
pub open spec fn range_form(s: Seq<u8>, h1: int, h2: int, t: int) -> bool {
    &&& 0 < h1
    &&& h1 + 2 < h2 < t < s.len()
    &&& all_hex(s.subrange(0, h1))
    &&& s[h1] == 0x2E
    &&& s[h1 + 1] == 0x2E
    &&& all_hex(s.subrange(h1 + 2, h2))
    &&& all_space(s.subrange(h2, t))
    &&& s[t] == 0x3B
}

/// Whether the line has the single-code-point shape.
pub open spec fn is_single(s: Seq<u8>) -> bool {
    exists|h: int, t: int| single_form(s, h, t)
}

/// Whether the line has the range shape.
pub open spec fn is_range(s: Seq<u8>) -> bool {
    exists|h1: int, h2: int, t: int| range_form(s, h1, h2, t)
}

/// The code-point value of a single-code-point line.
pub open spec fn single_val(s: Seq<u8>) -> nat {
    let (h, t) = choose|h: int, t: int| single_form(s, h, t);
    hex_val(s.subrange(0, h))
}

/// The lower bound of a range line.
pub open spec fn range_lo(s: Seq<u8>) -> nat {
    let (h1, h2, t) = choose|h1: int, h2: int, t: int| range_form(s, h1, h2, t);
    hex_val(s.subrange(0, h1))
}

/// The upper bound of a range line.
pub open spec fn range_hi(s: Seq<u8>) -> nat {
    let (h1, h2, t) = choose|h1: int, h2: int, t: int| range_form(s, h1, h2, t);
    hex_val(s.subrange(h1 + 2, h2))
}

/// Whether an accepted line makes the whole build fail: a field too large
/// for a code point, or a reversed range.
pub open spec fn line_fails(s: Seq<u8>) -> bool {
    if is_single(s) {
        single_val(s) > u32::MAX
    } else if is_range(s) {
        range_lo(s) > u32::MAX || range_hi(s) > u32::MAX || range_lo(s) > range_hi(s)
    } else {
        false
    }
}

/// Which error a failing line carries. Oversized fields are reported before
/// a reversed range, since both bounds are read before they are compared.
pub open spec fn line_error(s: Seq<u8>) -> BuildError {
    if is_range(s) && range_lo(s) <= u32::MAX && range_hi(s) <= u32::MAX {
        BuildError::ReversedRange
    } else {
        BuildError::InvalidCodePoint
    }
}

/// What one line of the source list asks the builder to write.
#[derive(Clone, Copy, Debug, PartialEq, Eq, Structural)]
pub enum Entry {
    /// One code point, one record.
    Single(u32),
    /// An inclusive range of code points, one record each, ascending.
    Range(u32, u32),
}

/// The ascending records of an inclusive range of code points.
pub open spec fn range_records(lo: nat, hi: nat) -> Seq<u32> {
    if lo <= hi {
        Seq::new((hi - lo + 1) as nat, |k: int| (lo + k) as u32)
    } else {
        Seq::empty()
    }
}

/// The records one entry asks the builder to write.
pub open spec fn entry_records(e: Entry) -> Seq<u32> {
    match e {
        Entry::Single(v) => seq![v],
        Entry::Range(a, b) => range_records(a as nat, b as nat),
    }
}

/// The entry an accepted line denotes, or `None` for an ignored line;
/// meaningful when the line does not fail.
pub open spec fn spec_entry(s: Seq<u8>) -> Option<Entry> {
    if is_single(s) {
        Some(Entry::Single(single_val(s) as u32))
    } else if is_range(s) {
        Some(Entry::Range(range_lo(s) as u32, range_hi(s) as u32))
    } else {
        None
    }
}

/// The records one line contributes to the cache: none for an ignored or
/// failing line.
pub open spec fn line_records(s: Seq<u8>) -> Seq<u32> {
    if line_fails(s) {
        Seq::empty()
    } else {
        match spec_entry(s) {
            Some(e) => entry_records(e),
            None => Seq::empty(),
        }
    }
}

/// Two runs of hexadecimal digits from the same start, each ended by a
/// non-digit byte or by the end of the line, end at the same place.
proof fn lemma_hex_run_unique(s: Seq<u8>, from: int, a: int, b: int)
    requires
        0 <= from <= a <= s.len(),
        from <= b <= s.len(),
        all_hex(s.subrange(from, a)),
        a == s.len() || !is_hex_digit(s[a]),
        all_hex(s.subrange(from, b)),
        b == s.len() || !is_hex_digit(s[b]),
    ensures
        a == b,
{
    if a < b {
        assert(s.subrange(from, b)[a - from] == s[a]);
    }
    if b < a {
        assert(s.subrange(from, a)[b - from] == s[b]);
    }
}

/// Two runs of spaces from the same start, each ended by a non-space byte or
/// by the end of the line, end at the same place.
proof fn lemma_space_run_unique(s: Seq<u8>, from: int, a: int, b: int)
    requires
        0 <= from <= a <= s.len(),
        from <= b <= s.len(),
        all_space(s.subrange(from, a)),
        a == s.len() || s[a] != 0x20,
        all_space(s.subrange(from, b)),
        b == s.len() || s[b] != 0x20,
    ensures
        a == b,
{
    if a < b {
        assert(s.subrange(from, b)[a - from] == s[a]);
    }
    if b < a {
        assert(s.subrange(from, a)[b - from] == s[b]);
    }
}

/// A single-code-point decomposition is unique, excludes any range
/// decomposition, and fixes the line's value.
pub proof fn lemma_single_form_val(s: Seq<u8>, h: int, t: int)
    requires
        single_form(s, h, t),
    ensures
        is_single(s),
        !is_range(s),
        single_val(s) == hex_val(s.subrange(0, h)),
{
    assert(is_single(s));
    let (ch, ct) = choose|h: int, t: int| single_form(s, h, t);
    assert(s.subrange(h, t)[0] == s[h]);
    assert(s.subrange(ch, ct)[0] == s[ch]);
    lemma_hex_run_unique(s, 0, h, ch);
    assert(!is_range(s)) by {
        if is_range(s) {
            let (h1, h2, t2) = choose|h1: int, h2: int, t: int| range_form(s, h1, h2, t);
            lemma_hex_run_unique(s, 0, h, h1);
        }
    }
}

/// A range decomposition is unique, excludes any single-code-point
/// decomposition, and fixes the line's bounds.
pub proof fn lemma_range_form_vals(s: Seq<u8>, h1: int, h2: int, t: int)
    requires
        range_form(s, h1, h2, t),
    ensures
        is_range(s),
        !is_single(s),
        range_lo(s) == hex_val(s.subrange(0, h1)),
        range_hi(s) == hex_val(s.subrange(h1 + 2, h2)),
{
    assert(is_range(s));
    let (c1, c2, ct) = choose|h1: int, h2: int, t: int| range_form(s, h1, h2, t);
    lemma_hex_run_unique(s, 0, h1, c1);
    assert(s.subrange(h2, t)[0] == s[h2]);
    assert(s.subrange(c2, ct)[0] == s[c2]);
    lemma_hex_run_unique(s, h1 + 2, h2, c2);
    assert(!is_single(s)) by {
        if is_single(s) {
            let (sh, st) = choose|h: int, t: int| single_form(s, h, t);
            assert(s.subrange(sh, st)[0] == s[sh]);
            lemma_hex_run_unique(s, 0, h1, sh);
        }
    }
}

/// A line whose first byte is not a hexadecimal digit, or which is empty,
/// has neither accepted shape.
proof fn lemma_no_hex_start(s: Seq<u8>)
    requires
        s.len() == 0 || !is_hex_digit(s[0]),
    ensures
        !is_single(s),
        !is_range(s),
{
    assert(!is_single(s)) by {
        if is_single(s) {
            let (h, t) = choose|h: int, t: int| single_form(s, h, t);
            assert(s.subrange(0, h)[0] == s[0]);
        }
    }
    assert(!is_range(s)) by {
        if is_range(s) {
            let (h1, h2, t) = choose|h1: int, h2: int, t: int| range_form(s, h1, h2, t);
            assert(s.subrange(0, h1)[0] == s[0]);
        }
    }
}

/// One accepted single-code-point line contributes exactly one record,
/// holding that code point's value.
pub proof fn lemma_single_line_one_record(s: Seq<u8>, h: int, t: int)
    requires
        single_form(s, h, t),
        hex_val(s.subrange(0, h)) <= u32::MAX,
    ensures
        !line_fails(s),
        line_records(s) == seq![hex_val(s.subrange(0, h)) as u32],
{
    lemma_single_form_val(s, h, t);
}

/// One accepted in-order range line contributes one record per code point of
/// the inclusive range, in ascending order: exactly upper - lower + 1 of them.
pub proof fn lemma_range_line_records(s: Seq<u8>, h1: int, h2: int, t: int)
    requires
        range_form(s, h1, h2, t),
        hex_val(s.subrange(0, h1)) <= hex_val(s.subrange(h1 + 2, h2)),
        hex_val(s.subrange(h1 + 2, h2)) <= u32::MAX,
    ensures
        !line_fails(s),
        line_records(s).len() == hex_val(s.subrange(h1 + 2, h2)) - hex_val(s.subrange(0, h1)) + 1,
        forall|k: int| 0 <= k < line_records(s).len() ==> (#[trigger] line_records(s)[k]) as nat
            == hex_val(s.subrange(0, h1)) + k,
{
    lemma_range_form_vals(s, h1, h2, t);
}

/// A reversed range line, both bounds fitting a code point, fails the build
/// with the reversed-range error and contributes no records.
pub proof fn lemma_reversed_range_rejected(s: Seq<u8>, h1: int, h2: int, t: int)
    requires
        range_form(s, h1, h2, t),
        hex_val(s.subrange(0, h1)) <= u32::MAX,
        hex_val(s.subrange(h1 + 2, h2)) <= u32::MAX,
        hex_val(s.subrange(0, h1)) > hex_val(s.subrange(h1 + 2, h2)),
    ensures
        line_fails(s),
        line_error(s) == BuildError::ReversedRange,
        line_records(s) == Seq::<u32>::empty(),
{
    lemma_range_form_vals(s, h1, h2, t);
}

/// A dot right after the first field rules out the single shape.
proof fn lemma_not_single_after_dot(s: Seq<u8>, h: int)
    requires
        0 < h < s.len(),
        all_hex(s.subrange(0, h)),
        s[h] == 0x2E,
    ensures
        !is_single(s),
{
    if is_single(s) {
        let (sh, st) = choose|h: int, t: int| single_form(s, h, t);
        assert(single_form(s, sh, st));
        assert(s.subrange(sh, st)[0] == s[sh]);
        lemma_hex_run_unique(s, 0, h, sh);
    }
}

/// Two dots with no hexadecimal digit after them rule out the range shape.
proof fn lemma_not_range_empty_second(s: Seq<u8>, h: int, h2: int)
    requires
        0 < h < s.len(),
        all_hex(s.subrange(0, h)),
        s[h] == 0x2E,
        h2 == h + 2,
        h2 == s.len() || !is_hex_digit(s[h2]),
    ensures
        !is_range(s),
{
    if is_range(s) {
        let (r1, r2, rt) = choose|h1: int, h2: int, t: int| range_form(s, h1, h2, t);
        assert(range_form(s, r1, r2, rt));
        lemma_hex_run_unique(s, 0, h, r1);
        assert(s.subrange(r1 + 2, r2)[0] == s[r1 + 2]);
    }
}

/// A second field not followed by at least one space and a semicolon rules
/// out the range shape.
proof fn lemma_not_range_bad_tail(s: Seq<u8>, h: int, h2: int, t: int)
    requires
        0 < h < s.len(),
        all_hex(s.subrange(0, h)),
        s[h] == 0x2E,
        h + 2 <= h2 <= s.len(),
        all_hex(s.subrange(h + 2, h2)),
        h2 == s.len() || !is_hex_digit(s[h2]),
        h2 <= t <= s.len(),
        all_space(s.subrange(h2, t)),
        t == s.len() || s[t] != 0x20,
        t == h2 || t == s.len() || s[t] != 0x3B,
    ensures
        !is_range(s),
{
    if is_range(s) {
        let (r1, r2, rt) = choose|h1: int, h2: int, t: int| range_form(s, h1, h2, t);
        assert(range_form(s, r1, r2, rt));
        lemma_hex_run_unique(s, 0, h, r1);
        assert(s.subrange(r2, rt)[0] == s[r2]);
        lemma_hex_run_unique(s, h + 2, h2, r2);
        lemma_space_run_unique(s, h2, t, rt);
    }
}

/// A first field not followed by two dots rules out the range shape.
proof fn lemma_not_range_no_dots(s: Seq<u8>, h: int)
    requires
        0 <= h <= s.len(),
        all_hex(s.subrange(0, h)),
        h == s.len() || !is_hex_digit(s[h]),
        h == s.len() || s[h] != 0x2E || h + 1 == s.len() || s[h + 1] != 0x2E,
    ensures
        !is_range(s),
{
    if is_range(s) {
        let (r1, r2, rt) = choose|h1: int, h2: int, t: int| range_form(s, h1, h2, t);
        assert(range_form(s, r1, r2, rt));
        lemma_hex_run_unique(s, 0, h, r1);
    }
}

/// A first field not followed by at least one space and a semicolon rules
/// out the single shape.
proof fn lemma_not_single_bad_tail(s: Seq<u8>, h: int, t: int)
    requires
        0 < h <= s.len(),
        all_hex(s.subrange(0, h)),
        h == s.len() || !is_hex_digit(s[h]),
        h <= t <= s.len(),
        all_space(s.subrange(h, t)),
        t == s.len() || s[t] != 0x20,
        t == h || t == s.len() || s[t] != 0x3B,
    ensures
        !is_single(s),
{
    if is_single(s) {
        let (sh, st) = choose|h: int, t: int| single_form(s, h, t);
        assert(single_form(s, sh, st));
        assert(s.subrange(sh, st)[0] == s[sh]);
        lemma_hex_run_unique(s, 0, h, sh);
        lemma_space_run_unique(s, h, t, st);
    }
}

/// Finds the end of the run of hexadecimal digits starting at `from`.
fn scan_hex(line: &Vec<u8>, from: usize) -> (end: usize)
    requires
        from <= line@.len(),
    ensures
        from <= end <= line@.len(),
        all_hex(line@.subrange(from as int, end as int)),
        end == line@.len() || !is_hex_digit(line@[end as int]),
{
    let n = line.len();
    let mut end: usize = from;
    loop
        invariant
            from <= end <= n,
            n == line@.len(),
            forall|j: int| from <= j < end ==> is_hex_digit(#[trigger] line@[j]),
        ensures
            from <= end <= n,
            forall|j: int| from <= j < end ==> is_hex_digit(#[trigger] line@[j]),
            end == n || !is_hex_digit(line@[end as int]),
        decreases n - end,
    {
        if end == n {
            break;
        }
        if !hex_digit_check(line[end]) {
            break;
        }
        end = end + 1;
    }
    assert(all_hex(line@.subrange(from as int, end as int)));
    end
}

/// Finds the end of the run of spaces starting at `from`.
fn scan_spaces(line: &Vec<u8>, from: usize) -> (end: usize)
    requires
        from <= line@.len(),
    ensures
        from <= end <= line@.len(),
        all_space(line@.subrange(from as int, end as int)),
        end == line@.len() || line@[end as int] != 0x20,
{
    let n = line.len();
    let mut end: usize = from;
    loop
        invariant
            from <= end <= n,
            n == line@.len(),
            forall|j: int| from <= j < end ==> (#[trigger] line@[j]) == 0x20,
        ensures
            from <= end <= n,
            forall|j: int| from <= j < end ==> (#[trigger] line@[j]) == 0x20,
            end == n || line@[end as int] != 0x20,
        decreases n - end,
    {
        if end == n {
            break;
        }
        if line[end] != 0x20 {
            break;
        }
        end = end + 1;
    }
    assert(all_space(line@.subrange(from as int, end as int)));
    end
}

/// Classifies one line of the source list. An ignored line is `Ok(None)`, an
/// accepted line is its entry, and a failing line is the build's error.
pub fn parse_line(line: &Vec<u8>) -> (r: Result<Option<Entry>, BuildError>)
    ensures
        r is Err <==> line_fails(line@),
        r is Err ==> r->Err_0 == line_error(line@),
        !line_fails(line@) ==> r == Ok::<Option<Entry>, BuildError>(spec_entry(line@)),
{
    let ghost s = line@;
    let n = line.len();
    let h = scan_hex(line, 0);
    if h == 0 {
        proof {
            lemma_no_hex_start(s);
        }
        return Ok(None);
    }
    if h < n && line[h] == 0x2E && h + 1 < n && line[h + 1] == 0x2E {
        // A `..` follows the first field: only the range shape can match.
        let h2 = scan_hex(line, h + 2);
        proof {
            lemma_not_single_after_dot(s, h as int);
        }
        if h2 == h + 2 {
            proof {
                lemma_not_range_empty_second(s, h as int, h2 as int);
            }
            return Ok(None);
        }
        let t = scan_spaces(line, h2);
        if t == h2 || t == n || line[t] != 0x3B {
            proof {
                lemma_not_range_bad_tail(s, h as int, h2 as int, t as int);
            }
            return Ok(None);
        }
        proof {
            lemma_range_form_vals(s, h as int, h2 as int, t as int);
        }
        let lo = match parse_hex(line, 0, h) {
            Ok(v) => v,
            Err(e) => {
                return Err(e);
            },
        };
        let hi = match parse_hex(line, h + 2, h2) {
            Ok(v) => v,
            Err(e) => {
                return Err(e);
            },
        };
        if lo > hi {
            return Err(BuildError::ReversedRange);
        }
        Ok(Some(Entry::Range(lo, hi)))
    } else {
        // No `..` after the first field: only the single shape can match.
        let t = scan_spaces(line, h);
        proof {
            lemma_not_range_no_dots(s, h as int);
        }
        if t == h || t == n || line[t] != 0x3B {
            proof {
                lemma_not_single_bad_tail(s, h as int, t as int);
            }
            return Ok(None);
        }
        proof {
            lemma_single_form_val(s, h as int, t as int);
        }
        match parse_hex(line, 0, h) {
            Ok(v) => Ok(Some(Entry::Single(v))),
            Err(e) => Err(e),
        }
    }
}

} // verus!
