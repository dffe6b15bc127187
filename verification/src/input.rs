//! Validation of one line of user input against a question's option count:
//! the line, stripped of surrounding whitespace, must be a decimal numeral —
//! an optional plus sign, then digits — naming a 1-based option; anything
//! else is rejected and scores nothing.

use vstd::prelude::*;
use vstd::string::StrSliceExecFns;

verus! {

/// Whitespace stripped around the user's numeral: the Unicode white-space
/// set, as `str::trim` strips it.
pub open spec fn is_space_char(c: char) -> bool {
    let u = c as int;
    ||| 0x09 <= u <= 0x0D
    ||| u == 0x20
    ||| u == 0x85
    ||| u == 0xA0
    ||| u == 0x1680
    ||| 0x2000 <= u <= 0x200A
    ||| u == 0x2028
    ||| u == 0x2029
    ||| u == 0x202F
    ||| u == 0x205F
    ||| u == 0x3000
}

/// A decimal digit.
pub open spec fn is_digit_char(c: char) -> bool {
    '0' <= c && c <= '9'
}

/// The numeric value of a digit character.
pub open spec fn digit_value(c: char) -> int {
    c as int - '0' as int
}

/// `s` without its leading whitespace.
pub open spec fn ltrimmed(s: Seq<char>) -> Seq<char>
    decreases s.len(),
{
    if s.len() > 0 && is_space_char(s[0]) {
        ltrimmed(s.drop_first())
    } else {
        s
    }
}

/// `s` without its trailing whitespace.
pub open spec fn rtrimmed(s: Seq<char>) -> Seq<char>
    decreases s.len(),
{
    if s.len() > 0 && is_space_char(s.last()) {
        rtrimmed(s.drop_last())
    } else {
        s
    }
}

/// `s` without surrounding whitespace.
pub open spec fn trimmed(s: Seq<char>) -> Seq<char> {
    rtrimmed(ltrimmed(s))
}

/// Every character is a decimal digit.
pub open spec fn all_digits(s: Seq<char>) -> bool {
    forall|i: int| 0 <= i < s.len() ==> is_digit_char(#[trigger] s[i])
}

/// The value of a decimal numeral, most significant digit first.
pub open spec fn numeral_value(s: Seq<char>) -> int
    decreases s.len(),
{
    if s.len() == 0 {
        0
    } else {
        10 * numeral_value(s.drop_last()) + digit_value(s.last())
    }
}

/// The numeral with one leading plus sign, as a decimal integer may carry,
/// dropped.
pub open spec fn unsigned_part(t: Seq<char>) -> Seq<char> {
    if t.len() > 0 && t[0] == '+' {
        t.drop_first()
    } else {
        t
    }
}

/// The zero-based selection a line of input denotes for a question with `n`
/// options: the trimmed line, past an optional leading plus sign, must be a
/// non-empty digit string whose value lies in `1 ..= n`; every other line
/// denotes nothing.
pub open spec fn selection_of(line: Seq<char>, n: int) -> Option<int> {
    let t = unsigned_part(trimmed(line));
    if t.len() > 0 && all_digits(t) && 1 <= numeral_value(t) <= n {
        Some(numeral_value(t) - 1)
    } else {
        None
    }
}

/// Left-trimming a sequence whose first non-space position is `lo` keeps
/// exactly the tail from `lo`.
proof fn lemma_ltrimmed_subrange(s: Seq<char>, lo: int)
    requires
        0 <= lo <= s.len(),
        forall|k: int| 0 <= k < lo ==> is_space_char(#[trigger] s[k]),
        lo < s.len() ==> !is_space_char(s[lo]),
    ensures
        ltrimmed(s) =~= s.subrange(lo, s.len() as int),
    decreases lo,
{
    if lo == 0 {
        assert(ltrimmed(s) == s);
    } else {
        assert(is_space_char(s[0]));
        let d = s.drop_first();
        assert(forall|k: int| 0 <= k < lo - 1 ==> is_space_char(#[trigger] d[k]));
        lemma_ltrimmed_subrange(d, lo - 1);
        assert(d.subrange(lo - 1, d.len() as int) =~= s.subrange(lo, s.len() as int));
    }
}

/// Right-trimming a sequence whose last non-space position is `hi - 1` keeps
/// exactly the head up to `hi`.
proof fn lemma_rtrimmed_subrange(s: Seq<char>, hi: int)
    requires
        0 <= hi <= s.len(),
        forall|k: int| hi <= k < s.len() ==> is_space_char(#[trigger] s[k]),
        hi > 0 ==> !is_space_char(s[hi - 1]),
    ensures
        rtrimmed(s) =~= s.subrange(0, hi),
    decreases s.len(),
{
    if hi == s.len() {
        assert(rtrimmed(s) == s);
        assert(s.subrange(0, hi) =~= s);
    } else {
        assert(is_space_char(s.last()));
        let d = s.drop_last();
        assert(forall|k: int| hi <= k < d.len() ==> is_space_char(#[trigger] d[k]));
        lemma_rtrimmed_subrange(d, hi);
        assert(d.subrange(0, hi) =~= s.subrange(0, hi));
    }
}

/// A digit string's value is non-negative.
proof fn lemma_numeral_nonneg(s: Seq<char>)
    requires
        all_digits(s),
    ensures
        numeral_value(s) >= 0,
    decreases s.len(),
{
    if s.len() > 0 {
        let d = s.drop_last();
        assert(forall|i: int| 0 <= i < d.len() ==> is_digit_char(#[trigger] d[i]));
        lemma_numeral_nonneg(d);
    }
}

/// Extending a digit string can only grow its value.
proof fn lemma_numeral_prefix_bound(s: Seq<char>, m: int)
    requires
        all_digits(s),
        0 <= m <= s.len(),
    ensures
        numeral_value(s.subrange(0, m)) <= numeral_value(s),
    decreases s.len() - m,
{
    let p = s.subrange(0, m);
    assert(forall|i: int| 0 <= i < p.len() ==> is_digit_char(#[trigger] p[i]));
    lemma_numeral_nonneg(p);
    if m == s.len() {
        assert(p =~= s);
    } else {
        let q = s.subrange(0, m + 1);
        assert(q.drop_last() =~= p);
        assert(numeral_value(q) == 10 * numeral_value(p) + digit_value(s[m]));
        lemma_numeral_prefix_bound(s, m + 1);
    }
}

/// Whether `c` is whitespace stripped around the numeral.
fn is_space(c: char) -> (r: bool)
    ensures
        r == is_space_char(c),
{
    let u = c as u32;
    (0x09 <= u && u <= 0x0D) || u == 0x20 || u == 0x85 || u == 0xA0 || u == 0x1680 || (0x2000 <= u
        && u <= 0x200A) || u == 0x2028 || u == 0x2029 || u == 0x202F || u == 0x205F || u == 0x3000
}

/// Parse one line of input for a question with `n_options` options: the
/// zero-based selection when the trimmed line is a decimal numeral in
/// `1 ..= n_options`, and nothing otherwise.
pub fn parse_selection(line: &str, n_options: usize) -> (r: Option<usize>)
    ensures
        match r {
            Some(i) => selection_of(line@, n_options as int) == Some(i as int),
            None => selection_of(line@, n_options as int) is None,
        },
{
    let len = line.unicode_len();
    let mut lo: usize = 0;
    while lo < len && is_space(line.get_char(lo))
        invariant
            len == line@.len(),
            lo <= len,
            forall|k: int| 0 <= k < lo ==> is_space_char(#[trigger] line@[k]),
        decreases len - lo,
    {
        lo = lo + 1;
    }
    let mut hi: usize = len;
    while hi > lo && is_space(line.get_char(hi - 1))
        invariant
            len == line@.len(),
            lo <= hi <= len,
            forall|k: int| hi <= k < len ==> is_space_char(#[trigger] line@[k]),
        decreases hi,
    {
        hi = hi - 1;
    }
    let ghost t = trimmed(line@);
    proof {
        lemma_ltrimmed_subrange(line@, lo as int);
        let u = line@.subrange(lo as int, len as int);
        assert(forall|k: int|
            hi - lo <= k < u.len() ==> is_space_char(#[trigger] u[k]));
        lemma_rtrimmed_subrange(u, hi - lo);
        assert(t =~= line@.subrange(lo as int, hi as int));
    }
    if hi == lo {
        assert(t.len() == 0);
        return None;
    }
    let mut start: usize = lo;
    if line.get_char(lo) == '+' {
        start = lo + 1;
    }
    let ghost digits = unsigned_part(t);
    proof {
        assert(t[0] == line@[lo as int]);
        assert(digits =~= line@.subrange(start as int, hi as int));
    }
    if start == hi {
        assert(digits.len() == 0);
        return None;
    }
    let nn = n_options as u128;
    let mut acc: u128 = 0;
    let mut p: usize = start;
    while p < hi
        invariant
            len == line@.len(),
            start <= p <= hi <= len,
            start < hi,
            digits == unsigned_part(trimmed(line@)),
            digits == line@.subrange(start as int, hi as int),
            nn == n_options as u128,
            forall|k: int| start <= k < p ==> is_digit_char(#[trigger] line@[k]),
            acc <= nn,
            acc == numeral_value(line@.subrange(start as int, p as int)),
        decreases hi - p,
    {
        let c = line.get_char(p);
        if c < '0' || c > '9' {
            proof {
                assert(digits[p - start] == line@[p as int]);
                assert(!all_digits(digits));
            }
            return None;
        }
        let d = (c as u32) - 48;
        proof {
            assert('0' as int == 48);
            assert(d == digit_value(line@[p as int]));
            assert(d <= 9);
            let pre = line@.subrange(start as int, p as int);
            let cur = line@.subrange(start as int, p + 1 as int);
            assert(cur.drop_last() =~= pre);
            assert(cur.last() == line@[p as int]);
        }
        acc = acc * 10 + (d as u128);
        if acc > nn {
            proof {
                assert(acc == numeral_value(line@.subrange(start as int, p + 1 as int)));
                if all_digits(digits) {
                    let m = p + 1 - start as int;
                    assert(digits.subrange(0, m) =~= line@.subrange(start as int, p + 1 as int));
                    lemma_numeral_prefix_bound(digits, m);
                    assert(numeral_value(digits) > n_options as int);
                }
            }
            return None;
        }
        p = p + 1;
    }
    proof {
        assert(line@.subrange(start as int, hi as int) == digits);
        assert(acc == numeral_value(digits));
        assert(all_digits(digits));
    }
    if acc == 0 {
        return None;
    }
    let sel = (acc - 1) as usize;
    assert(selection_of(line@, n_options as int) == Some(sel as int));
    Some(sel)
}

} // verus!
