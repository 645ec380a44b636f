//! Parsing a number from the leading decimal digits of a string, with the
//! exact conditions under which each error is returned.

use vstd::prelude::*;

verus! {

/// Whether `c` is a decimal digit.
pub open spec fn is_digit(c: char) -> bool {
    48 <= c as u32 && c as u32 <= 57
}

/// The numeric value of a digit character.
pub open spec fn digit_val(c: char) -> int {
    c as u32 - 48
}

/// How many decimal digits the string starts with.
pub open spec fn digit_run(s: Seq<char>) -> int
    decreases s.len(),
{
    if s.len() == 0 || !is_digit(s[0]) {
        0
    } else {
        1 + digit_run(s.drop_first())
    }
}

/// The value of a string of decimal digits, most significant first.
pub open spec fn num_of(s: Seq<char>) -> int
    decreases s.len(),
{
    if s.len() == 0 {
        0
    } else {
        num_of(s.drop_last()) * 10 + digit_val(s.last())
    }
}

/// `digit_run` is the position of the first non-digit (or the length, when
/// every character is a digit).
proof fn lemma_digit_run_is(s: Seq<char>, k: int)
    requires
        0 <= k <= s.len(),
        forall|j: int| 0 <= j < k ==> is_digit(s[j]),
        k < s.len() ==> !is_digit(s[k]),
    ensures
        digit_run(s) == k,
    decreases k,
{
    if k > 0 {
        let t = s.drop_first();
        assert(forall|j: int| 0 <= j < k - 1 ==> t[j] == s[j + 1] && is_digit(t[j]));
        assert(k - 1 < t.len() ==> t[k - 1] == s[k as int]);
        lemma_digit_run_is(t, k - 1);
    }
}

/// The value of a digit string is never negative.
proof fn lemma_num_of_nonneg(s: Seq<char>)
    requires
        forall|j: int| 0 <= j < s.len() ==> is_digit(s[j]),
    ensures
        num_of(s) >= 0,
    decreases s.len(),
{
    if s.len() > 0 {
        let t = s.drop_last();
        assert(forall|j: int| 0 <= j < t.len() ==> t[j] == s[j] && is_digit(t[j]));
        lemma_num_of_nonneg(t);
    }
}

/// Reading more digits never makes the value smaller.
proof fn lemma_num_of_monotone(s: Seq<char>, a: int, b: int)
    requires
        0 <= a <= b <= s.len(),
        forall|j: int| 0 <= j < b ==> is_digit(s[j]),
    ensures
        num_of(s.subrange(0, a)) <= num_of(s.subrange(0, b)),
    decreases b - a,
{
    if a < b {
        let p = s.subrange(0, b);
        assert(p.drop_last() =~= s.subrange(0, b - 1));
        assert(forall|j: int| 0 <= j < b - 1 ==> s.subrange(0, b - 1)[j] == s[j]);
        lemma_num_of_nonneg(s.subrange(0, b - 1));
        assert(num_of(s.subrange(0, b - 1)) <= num_of(s.subrange(0, b)));
        lemma_num_of_monotone(s, a, b - 1);
    }
}

/// Finds the position of the first non-digit, or the end of the string.
fn find_digit_run(s: &str, len: usize) -> (k: usize)
    requires
        len == s@.len(),
    ensures
        k <= len,
        forall|j: int| 0 <= j < k ==> is_digit(s@[j]),
        k < len ==> !is_digit(s@[k as int]),
{
    let mut i: usize = 0;
    while i < len
        invariant
            len == s@.len(),
            i <= len,
            forall|j: int| 0 <= j < i ==> is_digit(s@[j]),
        decreases len - i,
    {
        let u = s.get_char(i) as u32;
        if u < 48 || u > 57 {
            return i;
        }
        i += 1;
    }
    i
}

/// Parses the number written in the leading decimal digits of `s`.
///
/// Fails with "failed to parse string" when `s` does not start with a
/// digit, and with "failed to parse captured string" when the leading
/// digits spell a number that does not fit in a `u8`.
pub fn parse_u8(s: &str) -> (r: Result<u8, String>)
    ensures
        ({
            let k = digit_run(s@);
            match r {
                Ok(v) => k > 0 && num_of(s@.subrange(0, k)) == v as int,
                Err(e) => (k == 0 && e@ == "failed to parse string"@) || (k > 0 && num_of(
                    s@.subrange(0, k),
                ) > 255 && e@ == "failed to parse captured string"@),
            }
        }),
{
    let len = s.unicode_len();
    let k = find_digit_run(s, len);
    proof {
        lemma_digit_run_is(s@, k as int);
    }
    if k == 0 {
        return Err(String::from_str("failed to parse string"));
    }
    let mut acc: u32 = 0;
    let mut j: usize = 0;
    proof {
        assert(s@.subrange(0, 0) =~= Seq::<char>::empty());
    }
    while j < k
        invariant
            len == s@.len(),
            0 < k <= len,
            j <= k,
            digit_run(s@) == k,
            forall|i: int| 0 <= i < k ==> is_digit(s@[i]),
            acc <= 255,
            acc as int == num_of(s@.subrange(0, j as int)),
        decreases k - j,
    {
        let c = s.get_char(j);
        let u = c as u32;
        let d = u - 48;
        let acc2 = acc * 10 + d;
        proof {
            assert(s@.subrange(0, j + 1).drop_last() =~= s@.subrange(0, j as int));
            assert(s@.subrange(0, j + 1).last() == s@[j as int]);
            assert(acc2 as int == num_of(s@.subrange(0, j + 1)));
        }
        if acc2 > 255 {
            proof {
                lemma_num_of_monotone(s@, j + 1, k as int);
            }
            return Err(String::from_str("failed to parse captured string"));
        }
        acc = acc2;
        j += 1;
    }
    Ok(acc as u8)
}

} // verus!
