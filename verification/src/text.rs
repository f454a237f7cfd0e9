//! Small verified text helpers: exact decimal rendering of integers
//! and substring search, used by the supervisor's messages and checks.
use vstd::prelude::*;
use vstd::string::StrSliceExecFns;
use vstd::string::StringExecFns;

verus! {

/// The decimal digit character for `d`.
pub open spec fn digit_char(d: int) -> char {
    if d == 0 {
        '0'
    } else if d == 1 {
        '1'
    } else if d == 2 {
        '2'
    } else if d == 3 {
        '3'
    } else if d == 4 {
        '4'
    } else if d == 5 {
        '5'
    } else if d == 6 {
        '6'
    } else if d == 7 {
        '7'
    } else if d == 8 {
        '8'
    } else {
        '9'
    }
}

/// The decimal digits of a nonnegative number, most significant first.
pub open spec fn dec_digits(n: int) -> Seq<char>
    decreases n,
{
    if n < 10 {
        seq![digit_char(n)]
    } else {
        dec_digits(n / 10).push(digit_char(n % 10))
    }
}

/// The decimal rendering of an integer, sign included.
pub open spec fn int_digits(n: int) -> Seq<char> {
    if n < 0 {
        seq!['-'] + dec_digits(-n)
    } else {
        dec_digits(n)
    }
}

fn digit_str(d: u64) -> (r: &'static str)
    requires
        d <= 9,
    ensures
        r@ == seq![digit_char(d as int)],
{
    proof {
        reveal_strlit("0");
        reveal_strlit("1");
        reveal_strlit("2");
        reveal_strlit("3");
        reveal_strlit("4");
        reveal_strlit("5");
        reveal_strlit("6");
        reveal_strlit("7");
        reveal_strlit("8");
        reveal_strlit("9");
    }
    match d {
        0 => "0",
        1 => "1",
        2 => "2",
        3 => "3",
        4 => "4",
        5 => "5",
        6 => "6",
        7 => "7",
        8 => "8",
        _ => "9",
    }
}

/// Render a number in decimal, exactly.
pub fn u64_to_string(n: u64) -> (r: String)
    ensures
        r@ == dec_digits(n as int),
    decreases n,
{
    if n < 10 {
        digit_str(n).to_owned()
    } else {
        let mut s = u64_to_string(n / 10);
        s.append(digit_str(n % 10));
        proof {
            assert(s@ =~= dec_digits((n / 10) as int).push(digit_char((n % 10) as int)));
        }
        s
    }
}

/// Render a signed number in decimal, exactly.
pub fn i32_to_string(n: i32) -> (r: String)
    ensures
        r@ == int_digits(n as int),
{
    if n >= 0 {
        u64_to_string(n as u64)
    } else {
        let magnitude = (-(n as i64)) as u64;
        let mut s = "-".to_owned();
        let digits = u64_to_string(magnitude);
        s.append(digits.as_str());
        proof {
            reveal_strlit("-");
            assert(s@ =~= seq!['-'] + dec_digits(magnitude as int));
        }
        s
    }
}

/// `p` occurs contiguously somewhere in `h`.
pub open spec fn contains_seq(h: Seq<char>, p: Seq<char>) -> bool {
    exists|i: int| 0 <= i <= h.len() - p.len() && #[trigger] h.subrange(i, i + p.len()) == p
}

fn match_here(h: &str, p: &str, i: usize, hn: usize, pn: usize) -> (r: bool)
    requires
        hn == h@.len(),
        pn == p@.len(),
        i + pn <= hn,
    ensures
        r == (h@.subrange(i as int, i + p@.len()) == p@),
{
    let mut j: usize = 0;
    while j < pn
        invariant
            0 <= j <= pn,
            hn == h@.len(),
            pn == p@.len(),
            i + pn <= hn,
            forall|k: int| 0 <= k < j ==> h@[i + k] == p@[k],
        decreases pn - j,
    {
        if h.get_char(i + j) != p.get_char(j) {
            proof {
                assert(h@.subrange(i as int, i + p@.len())[j as int] != p@[j as int]);
            }
            return false;
        }
        j += 1;
    }
    proof {
        assert(h@.subrange(i as int, i + p@.len()) =~= p@);
    }
    true
}

/// Substring search: whether `p` occurs anywhere in `h`.
pub fn str_contains(h: &str, p: &str) -> (r: bool)
    ensures
        r == contains_seq(h@, p@),
{
    let hn = h.unicode_len();
    let pn = p.unicode_len();
    if pn > hn {
        return false;
    }
    if pn == 0 {
        proof {
            assert(h@.subrange(0, 0 + p@.len() as int) =~= p@);
        }
        return true;
    }
    let mut i: usize = 0;
    while i <= hn - pn
        invariant
            0 <= i <= hn - pn + 1,
            pn <= hn,
            hn == h@.len(),
            pn == p@.len(),
            1 <= pn,
            forall|j: int| 0 <= j < i ==> #[trigger] h@.subrange(j, j + p@.len()) != p@,
        decreases hn - pn - i + 1,
    {
        if match_here(h, p, i, hn, pn) {
            return true;
        }
        i += 1;
    }
    false
}

} // verus!
