//! Verified text utilities: choosing the longer of two string slices,
//! substring containment, and splitting text into lines.

use vstd::prelude::*;
use vstd::string::StringSliceAdditionalSpecFns;

verus! {

/// Returns the longer of the two slices, measured in bytes; `y` wins ties.
pub fn longest<'a>(x: &'a str, y: &'a str) -> (r: &'a str)
    ensures
        r@ == (if x.spec_bytes().len() > y.spec_bytes().len() {
            x@
        } else {
            y@
        }),
{
    if x.as_bytes().len() > y.as_bytes().len() {
        x
    } else {
        y
    }
}

/// `needle` occurs in `hay` starting at some position.
pub open spec fn contains_seq(hay: Seq<char>, needle: Seq<char>) -> bool {
    exists|i: int|
        0 <= i && i + needle.len() <= hay.len() && #[trigger] hay.subrange(
            i,
            i + needle.len() as int,
        ) == needle
}

/// Compares `needle` against the characters of `hay` starting at `i`.
fn matches_at(hay: &str, needle: &str, i: usize, hay_len: usize, needle_len: usize) -> (b: bool)
    requires
        hay_len == hay@.len(),
        needle_len == needle@.len(),
        i + needle_len <= hay_len,
    ensures
        b == (hay@.subrange(i as int, i + needle@.len()) == needle@),
{
    let ghost sub = hay@.subrange(i as int, i + needle@.len());
    let mut j: usize = 0;
    while j < needle_len
        invariant
            hay_len == hay@.len(),
            needle_len == needle@.len(),
            i + needle_len <= hay_len,
            j <= needle_len,
            sub == hay@.subrange(i as int, i + needle@.len()),
            forall|k: int| 0 <= k < j ==> hay@[i + k] == needle@[k],
        decreases needle_len - j,
    {
        if hay.get_char(i + j) != needle.get_char(j) {
            proof {
                assert(sub[j as int] != needle@[j as int]);
            }
            return false;
        }
        j += 1;
    }
    proof {
        assert(sub =~= needle@);
    }
    true
}

/// Whether `needle` occurs anywhere in `hay`.
pub fn contains_substr(hay: &str, needle: &str) -> (b: bool)
    ensures
        b == contains_seq(hay@, needle@),
{
    let hay_len = hay.unicode_len();
    let needle_len = needle.unicode_len();
    if needle_len > hay_len {
        return false;
    }
    if needle_len == 0 {
        proof {
            assert(hay@.subrange(0, 0 + needle@.len() as int) =~= needle@);
        }
        return true;
    }
    let mut i: usize = 0;
    while i <= hay_len - needle_len
        invariant
            hay_len == hay@.len(),
            needle_len == needle@.len(),
            0 < needle_len <= hay_len,
            i <= hay_len - needle_len + 1,
            forall|k: int|
                0 <= k < i ==> #[trigger] hay@.subrange(k, k + needle@.len()) != needle@,
        decreases hay_len - needle_len + 1 - i,
    {
        if matches_at(hay, needle, i, hay_len, needle_len) {
            return true;
        }
        i += 1;
    }
    false
}

/// `s` begins with `p`.
pub open spec fn starts_with_seq(s: Seq<char>, p: Seq<char>) -> bool {
    p.len() <= s.len() && s.subrange(0, p.len() as int) == p
}

/// Whether `s` begins with `prefix`.
pub fn starts_with(s: &str, prefix: &str) -> (b: bool)
    ensures
        b == starts_with_seq(s@, prefix@),
{
    let s_len = s.unicode_len();
    let p_len = prefix.unicode_len();
    if p_len > s_len {
        return false;
    }
    matches_at(s, prefix, 0, s_len, p_len)
}

/// Prefixes every string that does not already carry the prefix; strings
/// that already do are kept as they are.
pub fn insert_prefix(strs: &Vec<String>, prefix: &str) -> (r: Vec<String>)
    ensures
        r@.len() == strs@.len(),
        forall|i: int|
            0 <= i < strs@.len() ==> #[trigger] r@[i]@ == (if starts_with_seq(
                strs@[i]@,
                prefix@,
            ) {
                strs@[i]@
            } else {
                prefix@ + strs@[i]@
            }),
{
    let mut result: Vec<String> = Vec::new();
    let n = strs.len();
    let mut i: usize = 0;
    while i < n
        invariant
            n == strs@.len(),
            i <= n,
            result@.len() == i,
            forall|j: int|
                0 <= j < i ==> #[trigger] result@[j]@ == (if starts_with_seq(
                    strs@[j]@,
                    prefix@,
                ) {
                    strs@[j]@
                } else {
                    prefix@ + strs@[j]@
                }),
        decreases n - i,
    {
        let s = &strs[i];
        if starts_with(s.as_str(), prefix) {
            result.push(s.clone());
        } else {
            let mut prefixed = String::from_str(prefix);
            prefixed.append(s.as_str());
            result.push(prefixed);
        }
        i += 1;
    }
    result
}

/// The lines of a text: maximal runs of characters between newline
/// characters. A trailing newline closes the last line without opening a
/// new, empty one, so `lines_of("a\n"@) == seq!["a"@]` and the empty text
/// has no lines at all.
pub open spec fn lines_of(s: Seq<char>) -> Seq<Seq<char>>
    decreases s.len(),
{
    if s.len() == 0 {
        Seq::empty()
    } else if s[0] == '\n' {
        seq![Seq::<char>::empty()] + lines_of(s.drop_first())
    } else {
        let rest = lines_of(s.drop_first());
        if rest.len() == 0 {
            seq![seq![s[0]]]
        } else {
            seq![seq![s[0]] + rest[0]] + rest.drop_first()
        }
    }
}

/// Splitting off the first line: if the first `k` characters of a nonempty
/// text hold no newline and position `k` is a newline or the end, then the
/// lines are that prefix followed by the lines of what comes after the
/// newline.
proof fn lemma_lines_of_prefix(s: Seq<char>, k: int)
    requires
        0 < s.len(),
        0 <= k <= s.len(),
        forall|j: int| 0 <= j < k ==> s[j] != '\n',
        k < s.len() ==> s[k] == '\n',
    ensures
        lines_of(s) == seq![s.subrange(0, k)] + (if k < s.len() {
            lines_of(s.subrange(k + 1, s.len() as int))
        } else {
            Seq::<Seq<char>>::empty()
        }),
    decreases k,
{
    if k == 0 {
        assert(s[0] == '\n');
        assert(s.subrange(0, 0) =~= Seq::<char>::empty());
        assert(s.subrange(1, s.len() as int) =~= s.drop_first());
        assert(lines_of(s) =~= seq![s.subrange(0, 0)] + lines_of(
            s.subrange(1, s.len() as int),
        ));
    } else if s.len() == 1 {
        assert(k == 1);
        assert(s[0] != '\n');
        assert(s.drop_first().len() == 0);
        assert(lines_of(s.drop_first()) =~= Seq::<Seq<char>>::empty());
        assert(seq![s[0]] =~= s.subrange(0, 1));
        assert(lines_of(s) =~= seq![s.subrange(0, k)]);
    } else {
        let t = s.drop_first();
        assert(forall|j: int| 0 <= j < k - 1 ==> t[j] == s[j + 1] && t[j] != '\n');
        assert(k - 1 < t.len() ==> t[k - 1] == s[k as int] && t[k - 1] == '\n');
        lemma_lines_of_prefix(t, k - 1);
        let rest = lines_of(t);
        assert(rest.len() > 0);
        assert(rest[0] == t.subrange(0, k - 1));
        assert(seq![s[0]] + t.subrange(0, k - 1) =~= s.subrange(0, k));
        let tail = if k - 1 < t.len() {
            lines_of(t.subrange(k, t.len() as int))
        } else {
            Seq::<Seq<char>>::empty()
        };
        assert(rest.drop_first() =~= tail);
        if k < s.len() {
            assert(t.subrange(k, t.len() as int) =~= s.subrange(k + 1, s.len() as int));
        }
        assert(lines_of(s) =~= seq![s.subrange(0, k)] + tail);
    }
}

/// The views of a sequence of owned strings.
pub open spec fn views_of(ss: Seq<String>) -> Seq<Seq<char>> {
    ss.map_values(|s: String| s@)
}

/// Finds the position of the first newline at or after `from`, or the end
/// of the text if there is none.
fn find_newline(s: &str, from: usize, len: usize) -> (i: usize)
    requires
        len == s@.len(),
        from <= len,
    ensures
        from <= i <= len,
        forall|j: int| from <= j < i ==> s@[j] != '\n',
        i < len ==> s@[i as int] == '\n',
{
    let mut i: usize = from;
    while i < len
        invariant
            len == s@.len(),
            from <= i <= len,
            forall|j: int| from <= j < i ==> s@[j] != '\n',
        decreases len - i,
    {
        if s.get_char(i) == '\n' {
            return i;
        }
        i += 1;
    }
    i
}

/// Splits a text into its lines, as `lines_of` describes.
pub fn split_lines(contents: &str) -> (r: Vec<String>)
    ensures
        views_of(r@) == lines_of(contents@),
{
    let len = contents.unicode_len();
    let mut result: Vec<String> = Vec::new();
    let mut start: usize = 0;
    let mut done = false;
    proof {
        assert(views_of(result@) =~= Seq::<Seq<char>>::empty());
        assert(contents@.subrange(0, len as int) =~= contents@);
    }
    while !done
        invariant
            len == contents@.len(),
            start <= len,
            !done ==> views_of(result@) + lines_of(
                contents@.subrange(start as int, len as int),
            ) =~= lines_of(contents@),
            done ==> views_of(result@) =~= lines_of(contents@),
        decreases len - start + (if done { 0int } else { 1int }),
    {
        if start >= len {
            proof {
                assert(contents@.subrange(start as int, len as int)
                    =~= Seq::<char>::empty());
                assert(lines_of(Seq::<char>::empty()) =~= Seq::<Seq<char>>::empty());
                assert(views_of(result@) + Seq::<Seq<char>>::empty() =~= views_of(result@));
            }
            done = true;
        } else {
            let i = find_newline(contents, start, len);
            let line = contents.substring_char(start, i);
            let ghost old_views = views_of(result@);
            let ghost rem = contents@.subrange(start as int, len as int);
            result.push(String::from_str(line));
            proof {
                let k = i - start;
                assert(forall|j: int| 0 <= j < k ==> rem[j] == contents@[start + j]);
                lemma_lines_of_prefix(rem, k);
                assert(rem.subrange(0, k) =~= line@);
                assert(views_of(result@) =~= old_views.push(line@));
                if i < len {
                    assert(rem.subrange(k + 1, rem.len() as int) =~= contents@.subrange(
                        i + 1,
                        len as int,
                    ));
                    assert(views_of(result@) + lines_of(contents@.subrange(i + 1, len as int))
                        =~= lines_of(contents@));
                } else {
                    assert(views_of(result@) =~= lines_of(contents@));
                }
            }
            if i < len {
                start = i + 1;
            } else {
                start = len;
                done = true;
            }
        }
    }
    result
}

} // verus!
