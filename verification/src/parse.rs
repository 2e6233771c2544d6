//! The message parser: recognising a balance SMS and decoding it into a
//! `DataStatus`.
//!
//! A balance reply has the shape
//! `Dati: hai ancora a disposizione il <p>% di <g> GIGA ...`
//! where `<p>` is a run of digits and `<g>` is a run of digits and commas,
//! read as a decimal number whose separator is a comma. The leftmost
//! occurrence of the shape decides; trailing text after ` GIGA` is ignored.
//!
//! Decoding: `total_mb = round(g * 1024)` and
//! `remaining_mb = round(p / 100 * total_mb)`, rounding half up, exact for
//! any number of fractional digits. A message that does not match the shape
//! yields no observation; so does one whose percentage exceeds 100 — an
//! observation's percentage lies in 0 to 100 — or whose total does not fit
//! in the stored integer range.
use vstd::prelude::*;
use vstd::arithmetic::div_mod::{
    lemma_fundamental_div_mod, lemma_fundamental_div_mod_converse_div,
    lemma_mod_division_less_than_divisor,
};

use crate::timeconv::{parse_rfc3339_secs, civil_to_secs, rfc3339_secs, secs_of_civil};
use crate::types::{DataStatus, Sms};

verus! {

pub open spec fn is_digit(c: char) -> bool {
    48 <= c as int <= 57
}

pub open spec fn digit_of(c: char) -> int {
    c as int - 48
}

pub open spec fn is_comma(c: char) -> bool {
    c as int == 44
}

pub open spec fn is_digit_or_comma(c: char) -> bool {
    is_digit(c) || is_comma(c)
}

/// End of the run of digits (with_comma: digits or commas) that starts at `i`:
/// the first index at or after `i` that does not continue the run.
pub open spec fn run_end(s: Seq<char>, i: int, with_comma: bool) -> int
    decreases s.len() - i,
{
    if i < 0 || i >= s.len() {
        i
    } else if (with_comma && is_digit_or_comma(s[i])) || (!with_comma && is_digit(s[i])) {
        run_end(s, i + 1, with_comma)
    } else {
        i
    }
}

pub open spec fn head_lit() -> Seq<char> {
    "Dati: hai ancora a disposizione il "@
}

pub open spec fn mid_lit() -> Seq<char> {
    "% di "@
}

pub open spec fn tail_lit() -> Seq<char> {
    " GIGA"@
}

/// Does the balance shape occur at position `i`: the head phrase, a nonempty
/// digit run, `% di `, a nonempty digit-or-comma run, and ` GIGA`.
pub open spec fn match_at(s: Seq<char>, i: int) -> bool {
    let ds = i + head_lit().len();
    let de = run_end(s, ds, false);
    let cs = de + mid_lit().len();
    let ce = run_end(s, cs, true);
    &&& 0 <= i
    &&& ds <= s.len()
    &&& s.subrange(i, ds) == head_lit()
    &&& de > ds
    &&& cs <= s.len()
    &&& s.subrange(de, cs) == mid_lit()
    &&& ce > cs
    &&& ce + tail_lit().len() <= s.len()
    &&& s.subrange(ce, ce + tail_lit().len()) == tail_lit()
}

/// The leftmost position at or after `i` where the balance shape occurs.
pub open spec fn first_match_from(s: Seq<char>, i: int) -> Option<int>
    decreases s.len() - i,
{
    if i < 0 || i >= s.len() {
        None
    } else if match_at(s, i) {
        Some(i)
    } else {
        first_match_from(s, i + 1)
    }
}

/// Value of the digit run `s[i..end)`, read as a decimal number.
pub open spec fn digits_val_in(s: Seq<char>, i: int, end: int) -> int
    decreases end - i,
{
    if i >= end {
        0
    } else {
        digits_val_in(s, i, end - 1) * 10 + digit_of(s[end - 1])
    }
}

/// Number of commas in `s[i..end)`.
pub open spec fn commas_in(s: Seq<char>, i: int, end: int) -> int
    decreases end - i,
{
    if i < 0 || i >= end || end > s.len() {
        0
    } else {
        (if is_comma(s[i]) { 1int } else { 0int }) + commas_in(s, i + 1, end)
    }
}

/// Position of the first comma in `s[i..end)`, or `end` if there is none.
pub open spec fn comma_pos_in(s: Seq<char>, i: int, end: int) -> int
    decreases end - i,
{
    if i < 0 || i >= end || end > s.len() {
        end
    } else if is_comma(s[i]) {
        i
    } else {
        comma_pos_in(s, i + 1, end)
    }
}

pub open spec fn pow10(k: nat) -> int
    decreases k,
{
    if k == 0 {
        1
    } else {
        10 * pow10((k - 1) as nat)
    }
}

/// `n / d` rounded half up (for non-negative `n` and positive `d`).
pub open spec fn round_div(n: int, d: int) -> int
    recommends
        n >= 0,
        d > 0,
{
    (2 * n + d) / (2 * d)
}

/// The total plan size in megabytes encoded by the digit-and-comma run
/// `s[cs..ce)`: the run, with its comma read as a decimal separator, is a
/// number of gigabytes `g`, and the result is `round(g * 1024)`, rounding
/// half up. `None` where the run has two or more commas or no digit at all.
pub open spec fn total_mb_in(s: Seq<char>, cs: int, ce: int) -> Option<int> {
    let cp = comma_pos_in(s, cs, ce);
    let cc = commas_in(s, cs, ce);
    if cc <= 1 && ce - cs - cc >= 1 {
        let fs = if cp < ce {
            cp + 1
        } else {
            ce
        };
        Some(
            digits_val_in(s, cs, cp) * 1024 + round_div(
                digits_val_in(s, fs, ce) * 1024,
                pow10((ce - fs) as nat),
            ),
        )
    } else {
        None
    }
}

/// What `parse_sms_message` returns: the decoded observation of the leftmost
/// occurrence of the balance shape, or `None` where the text does not match,
/// the percentage exceeds 100, or the total does not fit in an `i32`.
pub open spec fn parse_sms_spec(s: Seq<char>, ts: i64) -> Option<DataStatus> {
    match first_match_from(s, 0) {
        None => None,
        Some(i) => {
            let ds = i + head_lit().len();
            let de = run_end(s, ds, false);
            let cs = de + mid_lit().len();
            let ce = run_end(s, cs, true);
            let p = digits_val_in(s, ds, de);
            match total_mb_in(s, cs, ce) {
                None => None,
                Some(t) => {
                    let r = round_div(p * t, 100);
                    if p <= 100 && t <= i32::MAX && r <= i32::MAX {
                        Some(
                            DataStatus {
                                remaining_percentage: p as i32,
                                remaining_data_mb: r as i32,
                                date_time: ts,
                            },
                        )
                    } else {
                        None
                    }
                },
            }
        },
    }
}

// ---------------------------------------------------------------------------
// Facts about the scan functions.
// ---------------------------------------------------------------------------

pub proof fn lemma_run_end_props(s: Seq<char>, i: int, with_comma: bool)
    requires
        0 <= i <= s.len(),
    ensures
        i <= run_end(s, i, with_comma) <= s.len(),
        forall|k: int|
            i <= k < run_end(s, i, with_comma) ==> (if with_comma {
                is_digit_or_comma(s[k])
            } else {
                is_digit(s[k])
            }),
        run_end(s, i, with_comma) == s.len() || (if with_comma {
            !is_digit_or_comma(s[run_end(s, i, with_comma)])
        } else {
            !is_digit(s[run_end(s, i, with_comma)])
        }),
    decreases s.len() - i,
{
    if i < s.len() && ((with_comma && is_digit_or_comma(s[i])) || (!with_comma && is_digit(s[i]))) {
        lemma_run_end_props(s, i + 1, with_comma);
    }
}

proof fn lemma_first_match_skip(s: Seq<char>, a: int, b: int)
    requires
        0 <= a <= b <= s.len(),
        forall|j: int| a <= j < b ==> !match_at(s, j),
    ensures
        first_match_from(s, a) == first_match_from(s, b),
    decreases b - a,
{
    if a < b {
        lemma_first_match_skip(s, a + 1, b);
    }
}

proof fn lemma_digits_val_nonneg(s: Seq<char>, i: int, end: int)
    requires
        forall|k: int| i <= k < end ==> is_digit(s[k]),
        0 <= i <= end <= s.len(),
    ensures
        digits_val_in(s, i, end) >= 0,
    decreases end - i,
{
    if i < end {
        lemma_digits_val_nonneg(s, i, end - 1);
    }
}

/// Appending digits to a digit run can only increase its value.
proof fn lemma_digits_val_mono(s: Seq<char>, i: int, m: int, end: int)
    requires
        forall|k: int| i <= k < end ==> is_digit(s[k]),
        0 <= i <= m <= end <= s.len(),
    ensures
        digits_val_in(s, i, end) >= digits_val_in(s, i, m),
    decreases end - m,
{
    if m < end {
        lemma_digits_val_nonneg(s, i, end - 1);
        lemma_digits_val_mono(s, i, m, end - 1);
    }
}

/// A digit run of width `w` has value below `pow10(w)`.
proof fn lemma_digits_val_bound(s: Seq<char>, i: int, end: int)
    requires
        forall|k: int| i <= k < end ==> is_digit(s[k]),
        0 <= i <= end <= s.len(),
    ensures
        digits_val_in(s, i, end) < pow10((end - i) as nat),
    decreases end - i,
{
    if i < end {
        lemma_digits_val_bound(s, i, end - 1);
    }
}

proof fn lemma_commas_split(s: Seq<char>, a: int, m: int, b: int)
    requires
        0 <= a <= m <= b <= s.len(),
    ensures
        commas_in(s, a, b) == commas_in(s, a, m) + commas_in(s, m, b),
    decreases m - a,
{
    if a < m {
        lemma_commas_split(s, a + 1, m, b);
    }
}

proof fn lemma_commas_none(s: Seq<char>, a: int, b: int)
    requires
        0 <= a <= b <= s.len(),
        forall|k: int| a <= k < b ==> !is_comma(s[k]),
    ensures
        commas_in(s, a, b) == 0,
    decreases b - a,
{
    if a < b {
        lemma_commas_none(s, a + 1, b);
    }
}

pub proof fn lemma_comma_pos_props(s: Seq<char>, a: int, b: int)
    requires
        0 <= a <= b <= s.len(),
    ensures
        a <= comma_pos_in(s, a, b) <= b,
        forall|k: int| a <= k < comma_pos_in(s, a, b) ==> !is_comma(s[k]),
        comma_pos_in(s, a, b) < b ==> is_comma(s[comma_pos_in(s, a, b)]),
    decreases b - a,
{
    if a < b && !is_comma(s[a]) {
        lemma_comma_pos_props(s, a + 1, b);
    }
}

// ---------------------------------------------------------------------------
// Executable scanning.
// ---------------------------------------------------------------------------

/// True when the text of `lit` stands in `s` at position `pos`.
fn lit_matches(s: &str, pos: usize, lit: &str, lit_len: usize, n: usize) -> (r: bool)
    requires
        n == s@.len(),
        lit_len == lit@.len(),
        pos <= n,
        n - pos >= lit_len,
    ensures
        r <==> s@.subrange(pos as int, pos as int + lit_len as int) == lit@,
{
    let mut j: usize = 0;
    while j < lit_len
        invariant
            n == s@.len(),
            lit_len == lit@.len(),
            pos <= n,
            n - pos >= lit_len,
            0 <= j <= lit_len,
            forall|k: int| 0 <= k < j ==> s@[pos + k] == lit@[k],
        decreases lit_len - j,
    {
        let c = s.get_char(pos + j);
        let l = lit.get_char(j);
        if c != l {
            proof {
                let sub = s@.subrange(pos as int, pos as int + lit_len as int);
                assert(sub == lit@ ==> sub[j as int] == lit@[j as int]);
                assert(sub[j as int] == s@[pos + j]);
            }
            return false;
        }
        j += 1;
    }
    proof {
        assert(s@.subrange(pos as int, pos as int + lit_len as int) =~= lit@);
    }
    true
}

/// First index at or after `start` that does not continue the digit run
/// (`with_comma`: digit-or-comma run).
fn scan_run(s: &str, start: usize, n: usize, with_comma: bool) -> (e: usize)
    requires
        n == s@.len(),
        start <= n,
    ensures
        e == run_end(s@, start as int, with_comma),
        start <= e <= n,
{
    let mut j: usize = start;
    loop
        invariant
            n == s@.len(),
            start <= j <= n,
            run_end(s@, start as int, with_comma) == run_end(s@, j as int, with_comma),
        decreases n - j,
    {
        if j == n {
            return j;
        }
        let c = s.get_char(j);
        let u = c as u32;
        let in_run = if with_comma {
            (48 <= u && u <= 57) || u == 44
        } else {
            48 <= u && u <= 57
        };
        if !in_run {
            return j;
        }
        j += 1;
    }
}

/// Value of the digit run `s[start..end)`, or `None` where it exceeds
/// `i32::MAX`.
fn scan_digits_capped(s: &str, start: usize, end: usize, n: usize) -> (r: Option<u64>)
    requires
        n == s@.len(),
        start <= end <= n,
        forall|k: int| start <= k < end ==> is_digit(s@[k]),
    ensures
        match r {
            Some(v) => v as int == digits_val_in(s@, start as int, end as int) && v <= i32::MAX
                as u64,
            None => digits_val_in(s@, start as int, end as int) > i32::MAX as int,
        },
{
    let mut acc: u64 = 0;
    let mut j: usize = start;
    while j < end
        invariant
            n == s@.len(),
            start <= j <= end <= n,
            forall|k: int| start <= k < end ==> is_digit(s@[k]),
            acc as int == digits_val_in(s@, start as int, j as int),
            acc <= i32::MAX as u64,
        decreases end - j,
    {
        let c = s.get_char(j);
        let d = (c as u32 - 48) as u64;
        let next: u64 = acc * 10 + d;
        proof {
            assert(digits_val_in(s@, start as int, j + 1) == digits_val_in(
                s@,
                start as int,
                j as int,
            ) * 10 + digit_of(s@[j as int]));
        }
        if next > i32::MAX as u64 {
            proof {
                lemma_digits_val_mono(s@, start as int, j + 1, end as int);
            }
            return None;
        }
        acc = next;
        j += 1;
    }
    Some(acc)
}

/// Position of the first comma in `s[start..end)` (or `end`), and the number
/// of commas there.
fn scan_commas(s: &str, start: usize, end: usize, n: usize) -> (r: (usize, usize))
    requires
        n == s@.len(),
        start <= end <= n,
    ensures
        r.0 as int == comma_pos_in(s@, start as int, end as int),
        r.1 as int == commas_in(s@, start as int, end as int),
        r.1 <= end - start,
{
    let mut pos: usize = end;
    let mut count: usize = 0;
    let mut j: usize = start;
    while j < end
        invariant
            n == s@.len(),
            start <= j <= end <= n,
            count <= j - start,
            count as int == commas_in(s@, start as int, end as int) - commas_in(
                s@,
                j as int,
                end as int,
            ),
            pos as int == if count == 0 {
                end as int
            } else {
                comma_pos_in(s@, start as int, end as int)
            },
            count == 0 ==> comma_pos_in(s@, start as int, end as int) == comma_pos_in(
                s@,
                j as int,
                end as int,
            ),
        decreases end - j,
    {
        proof {
            lemma_commas_split(s@, start as int, j as int, end as int);
            lemma_commas_split(s@, start as int, j + 1, end as int);
            lemma_commas_split(s@, j as int, j + 1, end as int);
        }
        let c = s.get_char(j);
        if c as u32 == 44 {
            if count == 0 {
                pos = j;
            }
            count += 1;
        }
        j += 1;
    }
    proof {
        lemma_commas_split(s@, start as int, end as int, end as int);
        if count == 0 {
            lemma_comma_pos_props(s@, start as int, end as int);
        }
    }
    (pos, count)
}

pub proof fn lemma_pow10_values()
    ensures
        pow10(0) == 1,
        pow10(1) == 10,
        pow10(2) == 100,
        pow10(3) == 1000,
        pow10(4) == 10_000,
        pow10(5) == 100_000,
        pow10(6) == 1_000_000,
        pow10(7) == 10_000_000,
        pow10(8) == 100_000_000,
        pow10(9) == 1_000_000_000,
{
    assert(pow10(0) == 1);
    assert(pow10(1) == 10);
    assert(pow10(2) == 100);
    assert(pow10(3) == 1000);
    assert(pow10(4) == 10_000);
    assert(pow10(5) == 100_000);
    assert(pow10(6) == 1_000_000);
    assert(pow10(7) == 10_000_000);
    assert(pow10(8) == 100_000_000);
    assert(pow10(9) == 1_000_000_000);
}

fn pow10_exec(k: usize) -> (r: u64)
    requires
        k <= 9,
    ensures
        r as int == pow10(k as nat),
        1 <= r <= 1_000_000_000,
{
    proof {
        lemma_pow10_values();
    }
    if k == 0 {
        1
    } else if k == 1 {
        10
    } else if k == 2 {
        100
    } else if k == 3 {
        1000
    } else if k == 4 {
        10_000
    } else if k == 5 {
        100_000
    } else if k == 6 {
        1_000_000
    } else if k == 7 {
        10_000_000
    } else if k == 8 {
        100_000_000
    } else {
        1_000_000_000
    }
}

/// Checks the balance shape at position `i`; on success hands back the
/// bounds of the two captured runs `(ds, de, cs, ce)`.
fn try_match_at(s: &str, i: usize, n: usize) -> (r: Option<(usize, usize, usize, usize)>)
    requires
        n == s@.len(),
        i < n,
    ensures
        match r {
            Some(m) => {
                &&& match_at(s@, i as int)
                &&& m.0 == i + head_lit().len()
                &&& m.1 == run_end(s@, m.0 as int, false)
                &&& m.2 == m.1 + mid_lit().len()
                &&& m.3 == run_end(s@, m.2 as int, true)
            },
            None => !match_at(s@, i as int),
        },
{
    let head = "Dati: hai ancora a disposizione il ";
    let mid = "% di ";
    let tail = " GIGA";
    proof {
        reveal_strlit("Dati: hai ancora a disposizione il ");
        reveal_strlit("% di ");
        reveal_strlit(" GIGA");
        assert(head_lit().len() == 35);
        assert(mid_lit().len() == 5);
        assert(tail_lit().len() == 5);
    }
    if n - i < 35 {
        return None;
    }
    if !lit_matches(s, i, head, 35, n) {
        return None;
    }
    let ds = i + 35;
    let de = scan_run(s, ds, n, false);
    if de == ds {
        return None;
    }
    if n - de < 5 {
        return None;
    }
    if !lit_matches(s, de, mid, 5, n) {
        return None;
    }
    let cs = de + 5;
    let ce = scan_run(s, cs, n, true);
    if ce == cs {
        return None;
    }
    if n - ce < 5 {
        return None;
    }
    if !lit_matches(s, ce, tail, 5, n) {
        return None;
    }
    Some((ds, de, cs, ce))
}

/// When a digit-and-comma run holds at most one comma, everything after that
/// comma is a digit.
proof fn lemma_single_comma_digits(s: Seq<char>, cs: int, cp: int, ce: int)
    requires
        0 <= cs <= ce <= s.len(),
        cp == comma_pos_in(s, cs, ce),
        cp < ce,
        commas_in(s, cs, ce) <= 1,
        forall|k: int| cs <= k < ce ==> is_digit_or_comma(s[k]),
    ensures
        forall|k: int| cp + 1 <= k < ce ==> is_digit(s[k]),
{
    lemma_comma_pos_props(s, cs, ce);
    lemma_commas_split(s, cs, cp, ce);
    lemma_commas_none(s, cs, cp);
    assert(commas_in(s, cp, cp + 1) == 1 + commas_in(s, cp + 1, cp + 1));
    lemma_commas_split(s, cp, cp + 1, ce);
    lemma_commas_nonneg(s, cp + 1, ce);
    assert forall|k: int| cp + 1 <= k < ce implies is_digit(s[k]) by {
        if is_comma(s[k]) {
            lemma_commas_split(s, cp + 1, k, ce);
            lemma_commas_split(s, k, k + 1, ce);
            lemma_commas_nonneg(s, cp + 1, k);
            lemma_commas_nonneg(s, k + 1, ce);
            assert(commas_in(s, k, k + 1) == 1 + commas_in(s, k + 1, k + 1));
        }
    }
}

/// The leftmost occurrence of the balance shape, with the bounds of its two
/// captured runs `(ds, de, cs, ce)`.
fn find_first_match(s: &str, n: usize) -> (r: Option<(usize, usize, usize, usize)>)
    requires
        n == s@.len(),
    ensures
        match r {
            Some(m) => {
                &&& m.0 >= head_lit().len()
                &&& first_match_from(s@, 0) == Some(m.0 - head_lit().len())
                &&& match_at(s@, m.0 - head_lit().len())
                &&& m.1 == run_end(s@, m.0 as int, false)
                &&& m.2 == m.1 + mid_lit().len()
                &&& m.3 == run_end(s@, m.2 as int, true)
            },
            None => first_match_from(s@, 0) is None,
        },
{
    let mut i: usize = 0;
    while i < n
        invariant
            n == s@.len(),
            0 <= i <= n,
            forall|j: int| 0 <= j < i ==> !match_at(s@, j),
        decreases n - i,
    {
        match try_match_at(s, i, n) {
            Some(m) => {
                proof {
                    lemma_first_match_skip(s@, 0, i as int);
                }
                return Some(m);
            },
            None => {
                i += 1;
            },
        }
    }
    proof {
        lemma_first_match_skip(s@, 0, n as int);
    }
    None
}

/// Decides whether `message` is a balance reply and, if so, decodes it into
/// an observation carrying the instant `date_time`. Returns exactly
/// `parse_sms_spec(message@, date_time)`; in particular the result depends on
/// the two arguments alone.
#[verifier::rlimit(50)]
pub fn parse_sms_message(message: &str, date_time: i64) -> (r: Option<DataStatus>)
    ensures
        r == parse_sms_spec(message@, date_time),
{
    let n = message.unicode_len();
    match find_first_match(message, n) {
        None => None,
        Some((ds, de, cs, ce)) => {
            proof {
                lemma_run_end_props(message@, ds as int, false);
                lemma_run_end_props(message@, cs as int, true);
                lemma_comma_pos_props(message@, cs as int, ce as int);
            }
            // percent capture; an observation's percentage is 0 to 100
            let p = match scan_digits_capped(message, ds, de, n) {
                Some(v) => v,
                None => {
                    return None;
                },
            };
            if p > 100 {
                return None;
            }
            // total capture: a decimal number with a comma separator
            let (cp, cc) = scan_commas(message, cs, ce, n);
            if cc > 1 || (ce - cs) - cc < 1 {
                return None;
            }
            proof {
                if cp < ce {
                    lemma_single_comma_digits(message@, cs as int, cp as int, ce as int);
                }
            }
            let ip = match scan_digits_capped(message, cs, cp, n) {
                Some(v) => v,
                None => {
                    // the integer part alone already exceeds the range
                    proof {
                        let s = message@;
                        let cp0 = cp as int;
                        let ce0 = ce as int;
                        let fs0 = if cp0 < ce0 {
                            cp0 + 1
                        } else {
                            ce0
                        };
                        lemma_digits_val_nonneg(s, fs0, ce0);
                        lemma_pow10_pos((ce0 - fs0) as nat);
                        let n0 = digits_val_in(s, fs0, ce0) * 1024;
                        let d0 = pow10((ce0 - fs0) as nat);
                        assert((2 * n0 + d0) / (2 * d0) >= 0) by (nonlinear_arith)
                            requires
                                n0 >= 0,
                                d0 >= 1,
                        ;
                    }
                    return None;
                },
            };
            let fs: usize = if cp < ce {
                cp + 1
            } else {
                ce
            };
            let klen: usize = ce - fs;
            // round(g_frac * 1024), half up, exact over all fractional digits
            let frac_mb: u64 = if klen <= 9 {
                let f = scan_frac(message, fs, ce, n);
                let p10 = pow10_exec(klen);
                proof {
                    lemma_digits_val_nonneg(message@, fs as int, ce as int);
                }
                (2 * f * 1024 + p10) / (2 * p10)
            } else {
                let f9 = scan_frac(message, fs, fs + 9, n);
                let a: u64 = f9 * 1024 + 500_000_000;
                let q0: u64 = a / 1_000_000_000;
                let rr: u64 = a % 1_000_000_000;
                let c: u64 = 1_000_000_000 - rr;
                let bump: bool = if c > 1024 {
                    false
                } else {
                    frac_at_least_exec(message, fs + 9, ce, n, c)
                };
                proof {
                    lemma_round_split(
                        message@,
                        fs as int,
                        ce as int,
                        f9 as int,
                        q0 as int,
                        rr as int,
                        c as int,
                        bump,
                    );
                }
                if bump {
                    q0 + 1
                } else {
                    q0
                }
            };
            let total: u64 = ip * 1024 + frac_mb;
            if total > i32::MAX as u64 {
                return None;
            }
            // round(p / 100 * total)
            proof {
                assert(2 * (p as int) * (total as int) + 100 <= u64::MAX as int)
                    by (nonlinear_arith)
                    requires
                        0 <= p as int <= 0x7fff_ffff,
                        0 <= total as int <= 0x7fff_ffff,
                ;
                assert((2 * (p as int)) * (total as int) == 2 * ((p as int) * (total as int)))
                    by (nonlinear_arith);
            }
            let rem: u64 = (2 * p * total + 100) / 200;
            if rem > i32::MAX as u64 {
                return None;
            }
            Some(
                DataStatus {
                    remaining_percentage: p as i32,
                    remaining_data_mb: rem as i32,
                    date_time,
                },
            )
        },
    }
}

proof fn lemma_commas_nonneg(s: Seq<char>, a: int, b: int)
    ensures
        commas_in(s, a, b) >= 0,
    decreases b - a,
{
    if !(a < 0 || a >= b || b > s.len()) {
        lemma_commas_nonneg(s, a + 1, b);
    }
}

/// Value of the digit run `s[start..end)`, which the callers keep short
/// enough to fit.
fn scan_frac(s: &str, start: usize, end: usize, n: usize) -> (r: u64)
    requires
        n == s@.len(),
        start <= end <= n,
        end - start <= 9,
        forall|k: int| start <= k < end ==> is_digit(s@[k]),
    ensures
        r as int == digits_val_in(s@, start as int, end as int),
        r < 1_000_000_000,
{
    proof {
        lemma_digits_val_bound(s@, start as int, end as int);
        lemma_pow10_values();
        lemma_pow10_mono((end - start) as nat, 9);
    }
    let mut acc: u64 = 0;
    let mut j: usize = start;
    while j < end
        invariant
            n == s@.len(),
            start <= j <= end <= n,
            end - start <= 9,
            forall|k: int| start <= k < end ==> is_digit(s@[k]),
            acc as int == digits_val_in(s@, start as int, j as int),
            (acc as int) < pow10((j - start) as nat),
        decreases end - j,
    {
        let c = s.get_char(j);
        let d = (c as u32 - 48) as u64;
        proof {
            lemma_pow10_mono((j - start) as nat, 8);
            lemma_pow10_values();
            assert(digits_val_in(s@, start as int, j + 1) == digits_val_in(
                s@,
                start as int,
                j as int,
            ) * 10 + digit_of(s@[j as int]));
        }
        acc = acc * 10 + d;
        j += 1;
    }
    proof {
        lemma_pow10_mono((end - start) as nat, 9);
        lemma_pow10_values();
    }
    acc
}

proof fn lemma_pow10_mono(a: nat, b: nat)
    requires
        a <= b,
    ensures
        pow10(a) <= pow10(b),
        pow10(a) >= 1,
    decreases b,
{
    if a == b {
        lemma_pow10_pos(a);
    } else {
        lemma_pow10_mono(a, (b - 1) as nat);
    }
}

proof fn lemma_pow10_pos(k: nat)
    ensures
        pow10(k) >= 1,
    decreases k,
{
    if k > 0 {
        lemma_pow10_pos((k - 1) as nat);
    }
}

proof fn lemma_pow10_add(a: nat, b: nat)
    ensures
        pow10(a + b) == pow10(a) * pow10(b),
    decreases b,
{
    if b == 0 {
        assert(pow10(a + 0) == pow10(a) * 1);
    } else {
        lemma_pow10_add(a, (b - 1) as nat);
        assert(pow10(a + b) == 10 * pow10((a + b - 1) as nat));
        assert(10 * (pow10(a) * pow10((b - 1) as nat)) == pow10(a) * (10 * pow10(
            (b - 1) as nat,
        ))) by (nonlinear_arith);
    }
}

/// A digit run reads as its prefix, shifted up by the width of the rest,
/// plus the rest.
proof fn lemma_digits_val_split(s: Seq<char>, i: int, mid: int, ce: int)
    requires
        0 <= i <= mid <= ce <= s.len(),
    ensures
        digits_val_in(s, i, ce) == digits_val_in(s, i, mid) * pow10((ce - mid) as nat)
            + digits_val_in(s, mid, ce),
    decreases ce - mid,
{
    if mid == ce {
        assert(digits_val_in(s, i, mid) * pow10(0) == digits_val_in(s, i, mid));
    } else {
        lemma_digits_val_split(s, i, mid, ce - 1);
        let a = digits_val_in(s, i, mid);
        let q = pow10((ce - 1 - mid) as nat);
        assert((a * q) * 10 == a * (q * 10)) by (nonlinear_arith);
        assert(pow10((ce - mid) as nat) == 10 * pow10((ce - 1 - mid) as nat));
    }
}

/// Is the decimal fraction written by the digits `s[i..ce)` at least
/// `p / 1024`? Decided digit by digit, the open part of the threshold
/// carried along.
pub open spec fn frac_at_least(s: Seq<char>, i: int, ce: int, p: int) -> bool
    decreases ce - i,
{
    if i >= ce {
        p <= 0
    } else {
        let v = digit_of(s[i]) * 1024;
        if v >= 10 * p {
            true
        } else if v + 1024 <= 10 * p {
            false
        } else {
            frac_at_least(s, i + 1, ce, 10 * p - v)
        }
    }
}

/// The digit-by-digit decision is the rational comparison it stands for.
proof fn lemma_frac_at_least(s: Seq<char>, i: int, ce: int, p: int)
    requires
        0 <= i <= ce <= s.len(),
        forall|k: int| i <= k < ce ==> is_digit(s[k]),
    ensures
        frac_at_least(s, i, ce, p) <==> digits_val_in(s, i, ce) * 1024 >= p * pow10(
            (ce - i) as nat,
        ),
    decreases ce - i,
{
    if i >= ce {
        assert(pow10(0) == 1);
        assert(p * 1 == p) by (nonlinear_arith);
    } else {
        let d = digit_of(s[i]);
        let v = d * 1024;
        let q = pow10((ce - i - 1) as nat);
        let dv = digits_val_in(s, i, ce);
        let rest = digits_val_in(s, i + 1, ce);
        lemma_digits_val_split(s, i, i + 1, ce);
        assert(digits_val_in(s, i, i) == 0);
        assert(digits_val_in(s, i, i + 1) == d);
        assert(dv == d * q + rest);
        lemma_digits_val_nonneg(s, i + 1, ce);
        lemma_digits_val_bound(s, i + 1, ce);
        lemma_pow10_pos((ce - i - 1) as nat);
        assert(pow10((ce - i) as nat) == 10 * q);
        if v >= 10 * p {
            assert((d * q + rest) * 1024 >= p * (10 * q)) by (nonlinear_arith)
                requires
                    d * 1024 >= 10 * p,
                    rest >= 0,
                    q >= 1,
            ;
        } else if v + 1024 <= 10 * p {
            assert((d * q + rest) * 1024 < p * (10 * q)) by (nonlinear_arith)
                requires
                    d * 1024 + 1024 <= 10 * p,
                    rest < q,
                    rest >= 0,
                    q >= 1,
            ;
        } else {
            lemma_frac_at_least(s, i + 1, ce, 10 * p - v);
            assert((d * q + rest) * 1024 >= p * (10 * q) <==> rest * 1024 >= (10 * p - d * 1024)
                * q) by (nonlinear_arith)
                requires
                    q >= 1,
            ;
        }
    }
}

/// Rounding a fraction of arbitrarily many digits splits into rounding its
/// first nine and asking whether the remaining digits reach the distance to
/// the next step: `round(0.F * 1024)` is `q0` plus one exactly when the tail
/// fraction reaches `c / 1024`.
proof fn lemma_round_split(
    s: Seq<char>,
    fs: int,
    ce: int,
    f9: int,
    q0: int,
    rr: int,
    c: int,
    bump: bool,
)
    requires
        0 <= fs,
        fs + 9 < ce <= s.len(),
        forall|k: int| fs <= k < ce ==> is_digit(s[k]),
        f9 == digits_val_in(s, fs, fs + 9),
        q0 == (f9 * 1024 + 500_000_000) / 1_000_000_000,
        rr == (f9 * 1024 + 500_000_000) % 1_000_000_000,
        c == 1_000_000_000 - rr,
        bump == (c <= 1024 && frac_at_least(s, fs + 9, ce, c)),
    ensures
        round_div(digits_val_in(s, fs, ce) * 1024, pow10((ce - fs) as nat)) == q0 + (if bump {
            1int
        } else {
            0int
        }),
{
    let m = ce - fs - 9;
    let big = digits_val_in(s, fs, ce);
    let rest = digits_val_in(s, fs + 9, ce);
    let pm = pow10(m as nat);
    let d9 = 1_000_000_000int;
    let a = f9 * 1024 + 500_000_000;
    lemma_digits_val_split(s, fs, fs + 9, ce);
    lemma_digits_val_nonneg(s, fs, fs + 9);
    lemma_digits_val_nonneg(s, fs + 9, ce);
    lemma_digits_val_bound(s, fs, fs + 9);
    lemma_digits_val_bound(s, fs + 9, ce);
    lemma_pow10_values();
    lemma_pow10_pos(m as nat);
    lemma_pow10_add(9, m as nat);
    assert(pow10((ce - fs) as nat) == d9 * pm);
    assert(big == f9 * pm + rest);
    assert(0 <= f9 < d9);
    assert(0 <= rest < pm);
    lemma_fundamental_div_mod(a, d9);
    lemma_mod_division_less_than_divisor(a, d9);
    assert(a == q0 * d9 + rr) by (nonlinear_arith)
        requires
            a == d9 * q0 + rr,
    ;
    assert(q0 >= 0) by (nonlinear_arith)
        requires
            a == q0 * d9 + rr,
            a >= 500_000_000,
            0 <= rr < d9,
    ;
    // the tail decision is the rational comparison with c / 1024
    lemma_frac_at_least(s, fs + 9, ce, c);
    assert(bump <==> rest * 1024 >= c * pm) by {
        if c > 1024 {
            assert(rest * 1024 < c * pm) by (nonlinear_arith)
                requires
                    0 <= rest < pm,
                    c > 1024,
                    pm >= 1,
            ;
        }
    }
    // the numerator of the half-up rounding, split at the ninth digit
    let m2 = d9 * pm;
    let y = rr * pm + rest * 1024;
    assert(2 * (big * 1024) + d9 * pm == 2 * (q0 * m2) + 2 * y) by (nonlinear_arith)
        requires
            big == f9 * pm + rest,
            a == q0 * d9 + rr,
            a == f9 * 1024 + 500_000_000,
            m2 == d9 * pm,
            y == rr * pm + rest * 1024,
            d9 == 1_000_000_000,
    ;
    assert(0 <= y < 2 * m2) by (nonlinear_arith)
        requires
            y == rr * pm + rest * 1024,
            0 <= rr < d9,
            0 <= rest < pm,
            pm >= 1,
            m2 == d9 * pm,
            d9 == 1_000_000_000,
    ;
    assert(y >= m2 <==> rest * 1024 >= c * pm) by (nonlinear_arith)
        requires
            y == rr * pm + rest * 1024,
            c == d9 - rr,
            m2 == d9 * pm,
    ;
    if y < m2 {
        assert(2 * (big * 1024) + d9 * pm == q0 * (2 * m2) + 2 * y) by (nonlinear_arith)
            requires
                2 * (big * 1024) + d9 * pm == 2 * (q0 * m2) + 2 * y,
        ;
        lemma_fundamental_div_mod_converse_div(
            2 * (big * 1024) + d9 * pm,
            2 * m2,
            q0,
            2 * y,
        );
    } else {
        assert(2 * (big * 1024) + d9 * pm == (q0 + 1) * (2 * m2) + 2 * (y - m2))
            by (nonlinear_arith)
            requires
                2 * (big * 1024) + d9 * pm == 2 * (q0 * m2) + 2 * y,
        ;
        lemma_fundamental_div_mod_converse_div(
            2 * (big * 1024) + d9 * pm,
            2 * m2,
            q0 + 1,
            2 * (y - m2),
        );
    }
}

/// Decides whether the fraction written by the digits `s[start..ce)` is at
/// least `p0 / 1024`.
fn frac_at_least_exec(s: &str, start: usize, ce: usize, n: usize, p0: u64) -> (r: bool)
    requires
        n == s@.len(),
        start <= ce <= n,
        p0 <= 1024,
        forall|k: int| start <= k < ce ==> is_digit(s@[k]),
    ensures
        r == frac_at_least(s@, start as int, ce as int, p0 as int),
{
    let mut p: u64 = p0;
    let mut j: usize = start;
    loop
        invariant
            n == s@.len(),
            start <= j <= ce <= n,
            p <= 1024,
            forall|k: int| start <= k < ce ==> is_digit(s@[k]),
            frac_at_least(s@, start as int, ce as int, p0 as int) == frac_at_least(
                s@,
                j as int,
                ce as int,
                p as int,
            ),
        decreases ce - j,
    {
        if j == ce {
            return p == 0;
        }
        let d = (s.get_char(j) as u32 - 48) as u64;
        let v: u64 = d * 1024;
        let t: u64 = 10 * p;
        if v >= t {
            return true;
        }
        if v + 1024 <= t {
            return false;
        }
        p = t - v;
        j += 1;
    }
}

// ---------------------------------------------------------------------------
// Timestamp reconstruction.
// ---------------------------------------------------------------------------

/// The code point of `c` with an ASCII capital letter taken to lower case.
pub open spec fn lc(c: char) -> int {
    if 65 <= c as int <= 90 {
        c as int + 32
    } else {
        c as int
    }
}

/// The month number of a three-letter English month name, read without regard
/// to case.
pub open spec fn month_num(a: char, b: char, c: char) -> Option<u32> {
    if lc(a) == 'j' as int && lc(b) == 'a' as int && lc(c) == 'n' as int {
        Some(1u32)
    } else if lc(a) == 'f' as int && lc(b) == 'e' as int && lc(c) == 'b' as int {
        Some(2u32)
    } else if lc(a) == 'm' as int && lc(b) == 'a' as int && lc(c) == 'r' as int {
        Some(3u32)
    } else if lc(a) == 'a' as int && lc(b) == 'p' as int && lc(c) == 'r' as int {
        Some(4u32)
    } else if lc(a) == 'm' as int && lc(b) == 'a' as int && lc(c) == 'y' as int {
        Some(5u32)
    } else if lc(a) == 'j' as int && lc(b) == 'u' as int && lc(c) == 'n' as int {
        Some(6u32)
    } else if lc(a) == 'j' as int && lc(b) == 'u' as int && lc(c) == 'l' as int {
        Some(7u32)
    } else if lc(a) == 'a' as int && lc(b) == 'u' as int && lc(c) == 'g' as int {
        Some(8u32)
    } else if lc(a) == 's' as int && lc(b) == 'e' as int && lc(c) == 'p' as int {
        Some(9u32)
    } else if lc(a) == 'o' as int && lc(b) == 'c' as int && lc(c) == 't' as int {
        Some(10u32)
    } else if lc(a) == 'n' as int && lc(b) == 'o' as int && lc(c) == 'v' as int {
        Some(11u32)
    } else if lc(a) == 'd' as int && lc(b) == 'e' as int && lc(c) == 'c' as int {
        Some(12u32)
    } else {
        None
    }
}

/// Value of the two digits at `i`.
pub open spec fn num2(s: Seq<char>, i: int) -> int {
    10 * digit_of(s[i]) + digit_of(s[i + 1])
}

/// Value of the four digits at `i`.
pub open spec fn num4(s: Seq<char>, i: int) -> int {
    1000 * digit_of(s[i]) + 100 * digit_of(s[i + 1]) + 10 * digit_of(s[i + 2]) + digit_of(
        s[i + 3],
    )
}

/// The router-local date form `mon/dd/yyyy HH:MM:SS`, with a three-letter
/// month name in any case.
pub open spec fn router_time_wf(s: Seq<char>) -> bool {
    &&& s.len() == 20
    &&& month_num(s[0], s[1], s[2]) is Some
    &&& s[3] as int == 47
    &&& is_digit(s[4]) && is_digit(s[5])
    &&& s[6] as int == 47
    &&& is_digit(s[7]) && is_digit(s[8]) && is_digit(s[9]) && is_digit(s[10])
    &&& s[11] as int == 32
    &&& is_digit(s[12]) && is_digit(s[13])
    &&& s[14] as int == 58
    &&& is_digit(s[15]) && is_digit(s[16])
    &&& s[17] as int == 58
    &&& is_digit(s[18]) && is_digit(s[19])
}

/// The instant a router-local date string denotes, taken as UTC; `None` where
/// the text is not of the form or names no real date.
pub open spec fn router_time_secs(s: Seq<char>) -> Option<i64> {
    if router_time_wf(s) {
        secs_of_civil(
            num4(s, 7) as i32,
            month_num(s[0], s[1], s[2])->0,
            num2(s, 4) as u32,
            num2(s, 12) as u32,
            num2(s, 15) as u32,
            num2(s, 18) as u32,
        )
    } else {
        None
    }
}

fn lower_u32(c: char) -> (r: u32)
    ensures
        r as int == lc(c),
{
    let u = c as u32;
    if 65 <= u && u <= 90 {
        u + 32
    } else {
        u
    }
}

fn month_of(a: char, b: char, c: char) -> (r: Option<u32>)
    ensures
        r == month_num(a, b, c),
{
    let x = lower_u32(a);
    let y = lower_u32(b);
    let z = lower_u32(c);
    let j = 'j' as u32;
    let n = 'n' as u32;
    if x == j && y == 'a' as u32 && z == n {
        Some(1)
    } else if x == 'f' as u32 && y == 'e' as u32 && z == 'b' as u32 {
        Some(2)
    } else if x == 'm' as u32 && y == 'a' as u32 && z == 'r' as u32 {
        Some(3)
    } else if x == 'a' as u32 && y == 'p' as u32 && z == 'r' as u32 {
        Some(4)
    } else if x == 'm' as u32 && y == 'a' as u32 && z == 'y' as u32 {
        Some(5)
    } else if x == j && y == 'u' as u32 && z == n {
        Some(6)
    } else if x == j && y == 'u' as u32 && z == 'l' as u32 {
        Some(7)
    } else if x == 'a' as u32 && y == 'u' as u32 && z == 'g' as u32 {
        Some(8)
    } else if x == 's' as u32 && y == 'e' as u32 && z == 'p' as u32 {
        Some(9)
    } else if x == 'o' as u32 && y == 'c' as u32 && z == 't' as u32 {
        Some(10)
    } else if x == n && y == 'o' as u32 && z == 'v' as u32 {
        Some(11)
    } else if x == 'd' as u32 && y == 'e' as u32 && z == 'c' as u32 {
        Some(12)
    } else {
        None
    }
}

/// The digit at `i`, or `None` where the character there is no digit.
fn digit_at(s: &str, i: usize) -> (r: Option<u32>)
    requires
        i < s@.len(),
    ensures
        match r {
            Some(v) => is_digit(s@[i as int]) && v as int == digit_of(s@[i as int]),
            None => !is_digit(s@[i as int]),
        },
{
    let u = s.get_char(i) as u32;
    if 48 <= u && u <= 57 {
        Some(u - 48)
    } else {
        None
    }
}

/// Reads a router-local date string (`mon/dd/yyyy HH:MM:SS`, month in any
/// case) as an instant, taken as UTC.
pub fn parse_router_time(t: &str) -> (r: Option<i64>)
    ensures
        r == router_time_secs(t@),
{
    let n = t.unicode_len();
    if n != 20 {
        return None;
    }
    if t.get_char(3) as u32 != 47 || t.get_char(6) as u32 != 47 {
        return None;
    }
    if t.get_char(11) as u32 != 32 || t.get_char(14) as u32 != 58 || t.get_char(17) as u32 != 58 {
        return None;
    }
    let mo = match month_of(t.get_char(0), t.get_char(1), t.get_char(2)) {
        Some(m) => m,
        None => {
            return None;
        },
    };
    let d1 = digit_at(t, 4);
    let d2 = digit_at(t, 5);
    let y1 = digit_at(t, 7);
    let y2 = digit_at(t, 8);
    let y3 = digit_at(t, 9);
    let y4 = digit_at(t, 10);
    let h1 = digit_at(t, 12);
    let h2 = digit_at(t, 13);
    let m1 = digit_at(t, 15);
    let m2 = digit_at(t, 16);
    let s1 = digit_at(t, 18);
    let s2 = digit_at(t, 19);
    match (d1, d2, y1, y2, y3, y4, h1, h2, m1, m2, s1, s2) {
        (
            Some(d1),
            Some(d2),
            Some(y1),
            Some(y2),
            Some(y3),
            Some(y4),
            Some(h1),
            Some(h2),
            Some(m1),
            Some(m2),
            Some(s1),
            Some(s2),
        ) => {
            let year: u32 = 1000 * y1 + 100 * y2 + 10 * y3 + y4;
            let day: u32 = 10 * d1 + d2;
            let hour: u32 = 10 * h1 + h2;
            let minute: u32 = 10 * m1 + m2;
            let second: u32 = 10 * s1 + s2;
            civil_to_secs(year as i32, mo, day, hour, minute, second)
        },
        _ => None,
    }
}

/// The instant of an SMS: the first of its timestamp fields that reads as an
/// ISO-8601 instant, and failing both, its router-local date string.
pub open spec fn sms_date_spec(sms: Sms) -> Option<i64> {
    if sms.timestamp is Some && rfc3339_secs(sms.timestamp->0@) is Some {
        rfc3339_secs(sms.timestamp->0@)
    } else if sms.received is Some && rfc3339_secs(sms.received->0@) is Some {
        rfc3339_secs(sms.received->0@)
    } else if sms.time is Some {
        router_time_secs(sms.time->0@)
    } else {
        None
    }
}

/// Reconstructs the instant of an SMS from whichever of its timestamp fields
/// parses first, trying the two ISO-8601 fields and then the router-local
/// date string.
pub fn sms_date(sms: &Sms) -> (r: Option<i64>)
    ensures
        r == sms_date_spec(*sms),
{
    match &sms.timestamp {
        Some(ts) => {
            match parse_rfc3339_secs(ts.as_str()) {
                Some(v) => {
                    return Some(v);
                },
                None => {},
            }
        },
        None => {},
    }
    match &sms.received {
        Some(ts) => {
            match parse_rfc3339_secs(ts.as_str()) {
                Some(v) => {
                    return Some(v);
                },
                None => {},
            }
        },
        None => {},
    }
    match &sms.time {
        Some(t) => parse_router_time(t.as_str()),
        None => None,
    }
}

/// The observation an SMS yields: its reconstructed instant paired with its
/// decoded balance text, or `None` where either part fails.
pub open spec fn sms_observation(sms: Sms) -> Option<DataStatus> {
    match sms_date_spec(sms) {
        None => None,
        Some(dt) => parse_sms_spec(sms.message@, dt),
    }
}

/// Decodes one SMS into an observation: the balance text and a timestamp
/// must both parse.
pub fn parse_data_status_from_sms(sms: &Sms) -> (r: Option<DataStatus>)
    ensures
        r == sms_observation(*sms),
{
    match sms_date(sms) {
        None => None,
        Some(dt) => parse_sms_message(sms.message.as_str(), dt),
    }
}

} // verus!
