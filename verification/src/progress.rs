//! The progress parser: a pure filter over one line of raw downloader
//! output. It recognises the pattern `<current> MB / <total> MB` —
//! two decimal numbers with arbitrary surrounding text — and yields
//! the exact ratio, or nothing at all for uninformative lines.
use vstd::prelude::*;
use crate::models::Progress;

verus! {

/// An ASCII decimal digit.
pub open spec fn is_digit(b: u8) -> bool {
    48 <= b && b <= 57
}

/// ASCII whitespace.
pub open spec fn is_space(b: u8) -> bool {
    b == 32 || b == 9 || b == 10 || b == 13 || b == 11 || b == 12
}

/// The position right after the run of digits starting at `i`.
pub open spec fn skip_digits(s: Seq<u8>, i: int) -> int
    decreases s.len() - i,
{
    if 0 <= i < s.len() && is_digit(s[i]) {
        skip_digits(s, i + 1)
    } else {
        i
    }
}

/// The position right after the run of whitespace starting at `i`.
pub open spec fn skip_spaces(s: Seq<u8>, i: int) -> int
    decreases s.len() - i,
{
    if 0 <= i < s.len() && is_space(s[i]) {
        skip_spaces(s, i + 1)
    } else {
        i
    }
}

/// Every byte of `s` in `[i, j)` is a digit.
pub open spec fn all_digits(s: Seq<u8>, i: int, j: int) -> bool {
    forall|k: int| i <= k < j ==> is_digit(s[k])
}

proof fn lemma_skip_digits_props(s: Seq<u8>, i: int)
    requires
        0 <= i <= s.len(),
    ensures
        i <= skip_digits(s, i) <= s.len(),
        all_digits(s, i, skip_digits(s, i)),
    decreases s.len() - i,
{
    if i < s.len() && is_digit(s[i]) {
        lemma_skip_digits_props(s, i + 1);
    }
}

proof fn lemma_skip_spaces_props(s: Seq<u8>, i: int)
    requires
        0 <= i <= s.len(),
    ensures
        i <= skip_spaces(s, i) <= s.len(),
    decreases s.len() - i,
{
    if i < s.len() && is_space(s[i]) {
        lemma_skip_spaces_props(s, i + 1);
    }
}

/// The end of a decimal number token `digits [ '.' digits ]` starting at `i`.
pub open spec fn number_end(s: Seq<u8>, i: int) -> int {
    let j = skip_digits(s, i);
    if 0 <= j < s.len() && s[j] == 46 {
        skip_digits(s, j + 1)
    } else {
        j
    }
}

/// The value of the digit run `s[i..j]` read as a decimal integer.
pub open spec fn digits_val(s: Seq<u8>, i: int, j: int) -> int
    decreases j - i,
{
    if i < j {
        digits_val(s, i, j - 1) * 10 + (s[j - 1] - 48)
    } else {
        0
    }
}

/// Ten to the `k`-th power.
pub open spec fn pow10(k: int) -> int
    decreases k,
{
    if k <= 0 {
        1
    } else {
        10 * pow10(k - 1)
    }
}

proof fn lemma_pow10_pos(k: int)
    ensures
        pow10(k) >= 1,
    decreases k,
{
    if k > 0 {
        lemma_pow10_pos(k - 1);
    }
}

proof fn lemma_digits_val_nonneg(s: Seq<u8>, i: int, j: int)
    requires
        all_digits(s, i, j),
    ensures
        digits_val(s, i, j) >= 0,
    decreases j - i,
{
    if i < j {
        lemma_digits_val_nonneg(s, i, j - 1);
    }
}

/// The numerator of the decimal number starting at `i`: its digits with
/// the decimal point removed, read as one integer.
pub open spec fn number_numer(s: Seq<u8>, i: int) -> int {
    let j = skip_digits(s, i);
    if 0 <= j < s.len() && s[j] == 46 {
        let k = skip_digits(s, j + 1);
        digits_val(s, i, j) * pow10(k - j - 1) + digits_val(s, j + 1, k)
    } else {
        digits_val(s, i, j)
    }
}

/// The scale of the decimal number starting at `i`: how many digits
/// follow the decimal point. The number's value is `numer / 10^scale`.
pub open spec fn number_scale(s: Seq<u8>, i: int) -> int {
    let j = skip_digits(s, i);
    if 0 <= j < s.len() && s[j] == 46 {
        skip_digits(s, j + 1) - j - 1
    } else {
        0
    }
}

/// Whether the full pattern `<number> MB / <number> MB` sits at
/// position `i` of the line (the first number starting exactly there).
pub open spec fn match_at(s: Seq<u8>, i: int) -> bool {
    let e1 = number_end(s, i);
    let m1 = skip_spaces(s, e1);
    let sl = skip_spaces(s, m1 + 2);
    let n2 = skip_spaces(s, sl + 1);
    let e2 = number_end(s, n2);
    let m2 = skip_spaces(s, e2);
    &&& 0 <= i < s.len()
    &&& is_digit(s[i])
    &&& m1 + 1 < s.len() && s[m1] == 77 && s[m1 + 1] == 66
    &&& sl < s.len() && s[sl] == 47
    &&& n2 < s.len() && is_digit(s[n2])
    &&& m2 + 1 < s.len() && s[m2] == 77 && s[m2 + 1] == 66
}

/// Where the second number of a match at `i` starts.
pub open spec fn second_num_start(s: Seq<u8>, i: int) -> int {
    let e1 = number_end(s, i);
    let m1 = skip_spaces(s, e1);
    let sl = skip_spaces(s, m1 + 2);
    skip_spaces(s, sl + 1)
}

/// The leftmost position at or after `i` where the pattern matches,
/// or the length of the line when it matches nowhere.
pub open spec fn first_match(s: Seq<u8>, i: int) -> int
    decreases s.len() - i,
{
    if 0 <= i < s.len() {
        if match_at(s, i) {
            i
        } else {
            first_match(s, i + 1)
        }
    } else {
        s.len() as int
    }
}

/// What parsing a whole line yields: the exact ratio taken from the
/// leftmost match, provided its total is positive and both numerators
/// fit a machine word; otherwise nothing.
pub open spec fn parse_result(s: Seq<u8>) -> Option<Progress> {
    let m = first_match(s, 0);
    if m < s.len() {
        let n2 = second_num_start(s, m);
        let cn = number_numer(s, m);
        let cs = number_scale(s, m);
        let tn = number_numer(s, n2);
        let ts = number_scale(s, n2);
        if tn > 0 && cn <= u64::MAX && tn <= u64::MAX {
            Option::Some(
                Progress {
                    cur_num: cn as u64,
                    cur_scale: cs as usize,
                    total_num: tn as u64,
                    total_scale: ts as usize,
                },
            )
        } else {
            Option::None
        }
    } else {
        Option::None
    }
}

/// Nothing before the leftmost match matches, and the leftmost match
/// (when inside the line) does.
pub proof fn lemma_first_match_props(s: Seq<u8>, i: int)
    requires
        0 <= i <= s.len(),
    ensures
        i <= first_match(s, i) <= s.len(),
        forall|j: int| i <= j < first_match(s, i) ==> !match_at(s, j),
        first_match(s, i) < s.len() ==> match_at(s, first_match(s, i)),
    decreases s.len() - i,
{
    if i < s.len() && !match_at(s, i) {
        lemma_first_match_props(s, i + 1);
    }
}

proof fn lemma_number_end_bounds(s: Seq<u8>, i: int)
    requires
        0 <= i <= s.len(),
    ensures
        i <= number_end(s, i) <= s.len(),
{
    lemma_skip_digits_props(s, i);
    let j = skip_digits(s, i);
    if 0 <= j < s.len() && s[j] == 46 {
        lemma_skip_digits_props(s, j + 1);
    }
}

proof fn lemma_number_scale_bounds(s: Seq<u8>, i: int)
    requires
        0 <= i <= s.len(),
    ensures
        0 <= number_scale(s, i) <= s.len(),
{
    lemma_skip_digits_props(s, i);
    let j = skip_digits(s, i);
    if 0 <= j < s.len() && s[j] == 46 {
        lemma_skip_digits_props(s, j + 1);
    }
}

proof fn lemma_number_numer_nonneg(s: Seq<u8>, i: int)
    requires
        0 <= i <= s.len(),
    ensures
        number_numer(s, i) >= 0,
{
    lemma_skip_digits_props(s, i);
    let j = skip_digits(s, i);
    lemma_digits_val_nonneg(s, i, j);
    if 0 <= j < s.len() && s[j] == 46 {
        lemma_skip_digits_props(s, j + 1);
        let k = skip_digits(s, j + 1);
        lemma_digits_val_nonneg(s, j + 1, k);
        lemma_pow10_pos(k - j - 1);
        assert(digits_val(s, i, j) * pow10(k - j - 1) >= 0) by (nonlinear_arith)
            requires
                digits_val(s, i, j) >= 0,
                pow10(k - j - 1) >= 1,
        ;
    }
}

/// What a parsed line yields comes from a real match: the leftmost
/// occurrence of the pattern, nothing before it matching, with the
/// ratio's numerators and scales exactly those of the two numbers
/// found there, and the total positive.
pub proof fn lemma_parse_picks_leftmost_match(s: Seq<u8>)
    requires
        parse_result(s) is Some,
        s.len() <= usize::MAX,
    ensures
        ({
            let m = first_match(s, 0);
            let p = parse_result(s).unwrap();
            &&& 0 <= m < s.len() && match_at(s, m)
            &&& forall|j: int| 0 <= j < m ==> !match_at(s, j)
            &&& p.cur_num == number_numer(s, m)
            &&& p.cur_scale == number_scale(s, m)
            &&& p.total_num == number_numer(s, second_num_start(s, m))
            &&& p.total_scale == number_scale(s, second_num_start(s, m))
            &&& p.total_num > 0
        }),
{
    lemma_first_match_props(s, 0);
    let m = first_match(s, 0);
    lemma_number_numer_nonneg(s, m);
    lemma_number_end_bounds(s, m);
    let e1 = number_end(s, m);
    lemma_skip_spaces_props(s, e1);
    let m1 = skip_spaces(s, e1);
    lemma_skip_spaces_props(s, m1 + 2);
    let sl = skip_spaces(s, m1 + 2);
    lemma_skip_spaces_props(s, sl + 1);
    let n2 = second_num_start(s, m);
    lemma_number_numer_nonneg(s, n2);
    lemma_number_scale_bounds(s, m);
    lemma_number_scale_bounds(s, n2);
}

/// A line on which the pattern matches nowhere parses to nothing.
pub proof fn lemma_no_match_parses_to_none(s: Seq<u8>)
    requires
        forall|j: int| 0 <= j < s.len() ==> !match_at(s, j),
    ensures
        parse_result(s) is None,
{
    lemma_first_match_props(s, 0);
    if first_match(s, 0) < s.len() {
        assert(match_at(s, first_match(s, 0)));
    }
}

fn byte_is_digit(b: u8) -> (r: bool)
    ensures
        r == is_digit(b),
{
    48 <= b && b <= 57
}

fn byte_is_space(b: u8) -> (r: bool)
    ensures
        r == is_space(b),
{
    b == 32 || b == 9 || b == 10 || b == 13 || b == 11 || b == 12
}

fn skip_digits_exec(s: &[u8], i: usize) -> (r: usize)
    requires
        i <= s@.len(),
    ensures
        r == skip_digits(s@, i as int),
        i <= r <= s@.len(),
{
    proof {
        lemma_skip_digits_props(s@, i as int);
    }
    let n = s.len();
    let mut j = i;
    while j < n && byte_is_digit(s[j])
        invariant
            i <= j <= n,
            n == s@.len(),
            skip_digits(s@, i as int) == skip_digits(s@, j as int),
        decreases n - j,
    {
        j += 1;
    }
    j
}

fn skip_spaces_exec(s: &[u8], i: usize) -> (r: usize)
    requires
        i <= s@.len(),
    ensures
        r == skip_spaces(s@, i as int),
        i <= r <= s@.len(),
{
    proof {
        lemma_skip_spaces_props(s@, i as int);
    }
    let n = s.len();
    let mut j = i;
    while j < n && byte_is_space(s[j])
        invariant
            i <= j <= n,
            n == s@.len(),
            skip_spaces(s@, i as int) == skip_spaces(s@, j as int),
        decreases n - j,
    {
        j += 1;
    }
    j
}

fn number_end_exec(s: &[u8], i: usize) -> (r: usize)
    requires
        i <= s@.len(),
    ensures
        r == number_end(s@, i as int),
        i <= r <= s@.len(),
{
    let j = skip_digits_exec(s, i);
    if j < s.len() && s[j] == 46 {
        skip_digits_exec(s, j + 1)
    } else {
        j
    }
}

/// Whether the pattern sits at position `i`.
fn try_match(s: &[u8], i: usize) -> (r: bool)
    requires
        i < s@.len(),
    ensures
        r == match_at(s@, i as int),
{
    if !byte_is_digit(s[i]) {
        return false;
    }
    let e1 = number_end_exec(s, i);
    let m1 = skip_spaces_exec(s, e1);
    if !(m1 < s.len() && s[m1] == 77) {
        return false;
    }
    if !(m1 + 1 < s.len() && s[m1 + 1] == 66) {
        return false;
    }
    let sl = skip_spaces_exec(s, m1 + 2);
    if !(sl < s.len() && s[sl] == 47) {
        return false;
    }
    let n2 = skip_spaces_exec(s, sl + 1);
    if !(n2 < s.len() && byte_is_digit(s[n2])) {
        return false;
    }
    let e2 = number_end_exec(s, n2);
    let m2 = skip_spaces_exec(s, e2);
    if !(m2 < s.len() && s[m2] == 77) {
        return false;
    }
    m2 + 1 < s.len() && s[m2 + 1] == 66
}

/// The numerator (digits with the point removed) and scale of the
/// decimal number starting at `i`. The numerator comes back only when
/// it fits a machine word; the spec-level value is exact either way.
fn parse_number(s: &[u8], i: usize) -> (r: (Option<u64>, usize))
    requires
        i < s@.len(),
        is_digit(s@[i as int]),
    ensures
        r.1 == number_scale(s@, i as int),
        r.0 is Some <==> number_numer(s@, i as int) <= u64::MAX,
        r.0 is Some ==> r.0.unwrap() == number_numer(s@, i as int),
{
    proof {
        lemma_skip_digits_props(s@, i as int);
    }
    let d1e = skip_digits_exec(s, i);
    let mut acc: Option<u64> = Option::Some(0);
    let mut j = i;
    proof {
        lemma_digits_val_nonneg(s@, i as int, d1e as int);
    }
    while j < d1e
        invariant
            i <= j <= d1e <= s@.len(),
            d1e == skip_digits(s@, i as int),
            all_digits(s@, i as int, d1e as int),
            acc is Some ==> acc.unwrap() == digits_val(s@, i as int, j as int),
            acc is None ==> digits_val(s@, i as int, j as int) > u64::MAX,
        decreases d1e - j,
    {
        let b = s[j];
        assert(is_digit(s@[j as int]));
        let d = (b - 48) as u64;
        acc = push_digit(acc, d);
        proof {
            assert(digits_val(s@, i as int, j + 1) == digits_val(s@, i as int, j as int) * 10 + (
            s@[j as int] - 48));
        }
        j += 1;
    }
    if d1e < s.len() && s[d1e] == 46 {
        let nend = skip_digits_exec(s, d1e + 1);
        proof {
            lemma_skip_digits_props(s@, d1e + 1);
            lemma_digits_val_nonneg(s@, d1e + 1, nend as int);
        }
        let ghost base: int = digits_val(s@, i as int, d1e as int);
        let mut k = d1e + 1;
        proof {
            assert(pow10(0) == 1);
            assert(base * 1 == base) by (nonlinear_arith);
        }
        while k < nend
            invariant
                d1e + 1 <= k <= nend <= s@.len(),
                nend == skip_digits(s@, d1e + 1),
                all_digits(s@, d1e + 1, nend as int),
                base == digits_val(s@, i as int, d1e as int),
                base >= 0,
                acc is Some ==> acc.unwrap() == base * pow10(k - d1e - 1) + digits_val(
                    s@,
                    d1e + 1,
                    k as int,
                ),
                acc is None ==> base * pow10(k - d1e - 1) + digits_val(s@, d1e + 1, k as int)
                    > u64::MAX,
            decreases nend - k,
        {
            let b = s[k];
            assert(is_digit(s@[k as int]));
            let d = (b - 48) as u64;
            let ghost m: int = k - d1e - 1;
            let ghost frac: int = digits_val(s@, d1e + 1, k as int);
            proof {
                lemma_pow10_pos(m);
                lemma_digits_val_nonneg(s@, d1e + 1, k as int);
                assert(pow10(m + 1) == 10 * pow10(m));
                assert(base * (10 * pow10(m)) == (base * pow10(m)) * 10) by (nonlinear_arith);
                assert(digits_val(s@, d1e + 1, k + 1) == frac * 10 + (s@[k as int] - 48));
                assert(base * pow10(m) >= 0) by (nonlinear_arith)
                    requires
                        base >= 0,
                        pow10(m) >= 1,
                ;
            }
            acc = push_digit(acc, d);
            k += 1;
        }
        (acc, nend - d1e - 1)
    } else {
        (acc, 0)
    }
}

/// One step of decimal accumulation: `acc * 10 + d`, tracking exactly
/// whether the true value still fits a machine word.
fn push_digit(acc: Option<u64>, d: u64) -> (r: Option<u64>)
    requires
        d <= 9,
    ensures
        r is Some <==> (acc is Some && acc.unwrap() * 10 + d <= u64::MAX),
        r is Some ==> r.unwrap() == acc.unwrap() * 10 + d,
{
    match acc {
        Option::Some(a) => {
            proof {
                vstd::arithmetic::div_mod::lemma_fundamental_div_mod(
                    (u64::MAX - d) as int,
                    10,
                );
                vstd::arithmetic::div_mod::lemma_mod_bound((u64::MAX - d) as int, 10);
            }
            if a > (u64::MAX - d) / 10 {
                Option::None
            } else {
                Option::Some(a * 10 + d)
            }
        },
        Option::None => Option::None,
    }
}

/// Parse one raw output line, given as bytes.
///
/// The result is pinned down completely: the exact decimal values of
/// the leftmost `<current> MB / <total> MB` pattern when the line has
/// one with a positive total (and numerators that fit a machine word),
/// and nothing otherwise. The function never fails: a malformed line
/// is simply non-informative.
pub fn parse_progress_line(line: &[u8]) -> (r: Option<Progress>)
    ensures
        r == parse_result(line@),
        r is Some ==> r.unwrap().wf(),
{
    let n = line.len();
    let mut i: usize = 0;
    while i < n && !try_match(line, i)
        invariant
            0 <= i <= n,
            n == line@.len(),
            first_match(line@, 0) == first_match(line@, i as int),
        decreases n - i,
    {
        i += 1;
    }
    if i == n {
        proof {
            assert(first_match(line@, n as int) == n);
        }
        return Option::None;
    }
    proof {
        assert(match_at(line@, i as int));
        assert(first_match(line@, i as int) == i);
    }
    let e1 = number_end_exec(line, i);
    let m1 = skip_spaces_exec(line, e1);
    let sl = skip_spaces_exec(line, m1 + 2);
    let n2 = skip_spaces_exec(line, sl + 1);
    let (cn_opt, cs) = parse_number(line, i);
    let (tn_opt, ts) = parse_number(line, n2);
    match (cn_opt, tn_opt) {
        (Option::Some(cn), Option::Some(tn)) => {
            if tn > 0 {
                Option::Some(
                    Progress { cur_num: cn, cur_scale: cs, total_num: tn, total_scale: ts },
                )
            } else {
                Option::None
            }
        },
        _ => Option::None,
    }
}

} // verus!
