//! Character-level string utilities with exact specifications.
//!
//! Paths and package names are compared, searched and sliced throughout the
//! crate; every operation here is specified over the `Seq<char>` view of the
//! string, so callers can state their own contracts exactly.

use vstd::prelude::*;

verus! {

/// Relies on `String::push`: it appends the given character to the end of
/// the string.
pub assume_specification[ String::push ](s: &mut String, ch: char)
    ensures
        final(s)@ == old(s)@.push(ch),
;

/// `pat` occurs in `s` starting at character index `i`.
pub open spec fn is_match_at(s: Seq<char>, pat: Seq<char>, i: int) -> bool {
    0 <= i && i + pat.len() <= s.len() && s.subrange(i, i + pat.len() as int) == pat
}

/// `pat` occurs somewhere in `s`.
pub open spec fn contains_sub(s: Seq<char>, pat: Seq<char>) -> bool {
    exists|i: int| is_match_at(s, pat, i)
}

/// `s` begins with `pre`.
pub open spec fn starts_with(s: Seq<char>, pre: Seq<char>) -> bool {
    pre.len() <= s.len() && s.subrange(0, pre.len() as int) == pre
}

/// `s` ends with `suf`.
pub open spec fn ends_with(s: Seq<char>, suf: Seq<char>) -> bool {
    suf.len() <= s.len() && s.subrange(s.len() - suf.len(), s.len() as int) == suf
}

/// Whether `pat` occurs in `s` at exactly index `i`.
pub fn match_at(s: &str, pat: &str, i: usize) -> (r: bool)
    requires
        i + pat@.len() <= s@.len(),
        s@.len() <= usize::MAX,
    ensures
        r == is_match_at(s@, pat@, i as int),
{
    let pat_len = pat.unicode_len();
    let mut j: usize = 0;
    while j < pat_len
        invariant
            0 <= j <= pat_len,
            pat_len == pat@.len(),
            i + pat_len <= s@.len(),
            forall|k: int| 0 <= k < j ==> s@.index(i + k) == pat@.index(k),
        decreases pat_len - j,
    {
        if s.get_char(i + j) != pat.get_char(j) {
            assert(s@.subrange(i as int, i + pat@.len() as int).index(j as int)
                != pat@.index(j as int));
            return false;
        }
        j = j + 1;
    }
    assert(s@.subrange(i as int, i + pat@.len() as int) =~= pat@);
    true
}

/// Index of the first occurrence of `pat` in `s`, if any.
pub fn find_sub(s: &str, pat: &str) -> (r: Option<usize>)
    ensures
        match r {
            Some(i) => is_match_at(s@, pat@, i as int) && forall|j: int|
                0 <= j < i ==> !is_match_at(s@, pat@, j),
            None => !contains_sub(s@, pat@),
        },
{
    let s_len = s.unicode_len();
    let pat_len = pat.unicode_len();
    if pat_len > s_len {
        assert forall|i: int| !is_match_at(s@, pat@, i) by {}
        return None;
    }
    if pat_len == 0 {
        assert(s@.subrange(0, 0) =~= pat@);
        return Some(0);
    }
    let last = s_len - pat_len;
    let mut i: usize = 0;
    loop
        invariant
            0 <= i <= last + 1,
            s_len == s@.len(),
            pat_len == pat@.len(),
            pat_len <= s_len,
            last == s_len - pat_len,
            forall|j: int| 0 <= j < i ==> !is_match_at(s@, pat@, j),
        decreases last + 1 - i,
    {
        if i > last {
            assert forall|j: int| !is_match_at(s@, pat@, j) by {}
            return None;
        }
        if match_at(s, pat, i) {
            return Some(i);
        }
        i = i + 1;
    }
}

/// Whether `pat` occurs anywhere in `s`.
pub fn str_contains(s: &str, pat: &str) -> (r: bool)
    ensures
        r == contains_sub(s@, pat@),
{
    find_sub(s, pat).is_some()
}

/// Whether `s` begins with `pre`.
pub fn str_starts_with(s: &str, pre: &str) -> (r: bool)
    ensures
        r == starts_with(s@, pre@),
{
    let s_len = s.unicode_len();
    let pre_len = pre.unicode_len();
    if pre_len > s_len {
        return false;
    }
    match_at(s, pre, 0)
}

/// Whether `s` ends with `suf`.
pub fn str_ends_with(s: &str, suf: &str) -> (r: bool)
    ensures
        r == ends_with(s@, suf@),
{
    let s_len = s.unicode_len();
    let suf_len = suf.unicode_len();
    if suf_len > s_len {
        return false;
    }
    match_at(s, suf, s_len - suf_len)
}

/// Whether the two strings hold the same characters.
pub fn str_eq(a: &str, b: &str) -> (r: bool)
    ensures
        r == (a@ == b@),
{
    let a_len = a.unicode_len();
    let b_len = b.unicode_len();
    if a_len != b_len {
        return false;
    }
    assert(a@.subrange(0, b@.len() as int) =~= a@);
    match_at(a, b, 0)
}

/// Index of the first occurrence of character `c` in `s` at or after `from`.
pub fn find_char_from(s: &str, c: char, from: usize) -> (r: Option<usize>)
    requires
        from <= s@.len(),
    ensures
        match r {
            Some(i) => from <= i < s@.len() && s@.index(i as int) == c && forall|j: int|
                from <= j < i ==> s@.index(j) != c,
            None => forall|j: int| from <= j < s@.len() ==> s@.index(j) != c,
        },
{
    let s_len = s.unicode_len();
    let mut i: usize = from;
    while i < s_len
        invariant
            from <= i <= s_len,
            s_len == s@.len(),
            forall|j: int| from <= j < i ==> s@.index(j) != c,
        decreases s_len - i,
    {
        if s.get_char(i) == c {
            return Some(i);
        }
        i = i + 1;
    }
    None
}

/// Index of the last occurrence of character `c` in `s`, if any.
pub fn rfind_char(s: &str, c: char) -> (r: Option<usize>)
    ensures
        match r {
            Some(i) => i < s@.len() && s@.index(i as int) == c && forall|j: int|
                i < j < s@.len() ==> s@.index(j) != c,
            None => forall|j: int| 0 <= j < s@.len() ==> s@.index(j) != c,
        },
{
    let s_len = s.unicode_len();
    let mut i: usize = s_len;
    while i > 0
        invariant
            0 <= i <= s_len,
            s_len == s@.len(),
            forall|j: int| i <= j < s@.len() ==> s@.index(j) != c,
        decreases i,
    {
        i = i - 1;
        if s.get_char(i) == c {
            return Some(i);
        }
    }
    None
}

/// An owned copy of the characters of `s` from `from` (inclusive) to `to`
/// (exclusive).
pub fn substring(s: &str, from: usize, to: usize) -> (r: String)
    requires
        from <= to <= s@.len(),
    ensures
        r@ == s@.subrange(from as int, to as int),
{
    s.substring_char(from, to).to_owned()
}

/// An owned copy of `s`.
pub fn copy_str(s: &str) -> (r: String)
    ensures
        r@ == s@,
{
    s.to_owned()
}

/// Index of the first occurrence of `c` in `s`, or `-1`.
pub open spec fn char_index(s: Seq<char>, c: char) -> int
    decreases s.len(),
{
    if s.len() == 0 {
        -1
    } else if s[0] == c {
        0
    } else {
        let r = char_index(s.drop_first(), c);
        if r < 0 {
            -1
        } else {
            r + 1
        }
    }
}

/// `char_index` finds the first occurrence, or reports that there is none.
pub proof fn lemma_char_index(s: Seq<char>, c: char)
    ensures
        -1 <= char_index(s, c) < s.len(),
        char_index(s, c) >= 0 ==> s[char_index(s, c)] == c && forall|j: int|
            0 <= j < char_index(s, c) ==> s[j] != c,
        char_index(s, c) < 0 ==> forall|j: int| 0 <= j < s.len() ==> s[j] != c,
    decreases s.len(),
{
    if s.len() > 0 && s[0] != c {
        let rest = s.drop_first();
        lemma_char_index(rest, c);
        let r = char_index(rest, c);
        if r >= 0 {
            assert(s[r + 1] == rest[r]);
            assert forall|j: int| 0 <= j < r + 1 implies s[j] != c by {
                if j > 0 {
                    assert(rest[j - 1] == s[j]);
                }
            }
        } else {
            assert forall|j: int| 0 <= j < s.len() implies s[j] != c by {
                if j > 0 {
                    assert(rest[j - 1] == s[j]);
                }
            }
        }
    }
}

/// The segments of `s` between occurrences of the separator `c`.
pub open spec fn spec_split(s: Seq<char>, c: char) -> Seq<Seq<char>>
    decreases s.len()
    via spec_split_decreases
{
    let k = char_index(s, c);
    if k < 0 {
        seq![s]
    } else {
        seq![s.subrange(0, k)] + spec_split(s.subrange(k + 1, s.len() as int), c)
    }
}

#[via_fn]
proof fn spec_split_decreases(s: Seq<char>, c: char) {
    lemma_char_index(s, c);
}

/// Split `s` at every occurrence of `c`, as `str::split` does: adjacent
/// separators and separators at either end yield empty segments.
pub fn split_char(s: &str, c: char) -> (r: Vec<String>)
    ensures
        r@.map_values(|x: String| x@) == spec_split(s@, c),
    decreases s@.len(),
{
    proof {
        lemma_char_index(s@, c);
    }
    match find_char_from(s, c, 0) {
        None => {
            let mut out: Vec<String> = Vec::new();
            out.push(copy_str(s));
            proof {
                assert(char_index(s@, c) < 0);
                let m = out@.map_values(|x: String| x@);
                assert(m.len() == 1);
                assert(m[0] == s@);
                assert(m =~= spec_split(s@, c));
            }
            out
        },
        Some(k) => {
            proof {
                let fw = char_index(s@, c);
                assert(s@[k as int] == c);
                if fw < k {
                    assert(s@[fw] == c);
                }
                assert(fw == k);
            }
            let s_len = s.unicode_len();
            let head = substring(s, 0, k);
            let tail = s.substring_char(k + 1, s_len);
            let mut out: Vec<String> = Vec::new();
            out.push(head);
            let mut rest = split_char(tail, c);
            let ghost rest_pre = rest@;
            let ghost rest_v = rest@.map_values(|x: String| x@);
            out.append(&mut rest);
            proof {
                let m = out@.map_values(|x: String| x@);
                let sp = spec_split(s@, c);
                assert(sp == seq![s@.subrange(0, k as int)] + spec_split(
                    s@.subrange(k + 1, s@.len() as int),
                    c,
                ));
                assert(rest_v == spec_split(s@.subrange(k + 1, s@.len() as int), c));
                assert(m.len() == 1 + rest_v.len());
                assert forall|i: int| 0 <= i < m.len() implies m[i] == sp[i] by {
                    if i == 0 {
                        assert(m[0] == s@.subrange(0, k as int));
                    } else {
                        assert(out@[i] == rest_pre[i - 1]);
                        assert(m[i] == rest_pre[i - 1]@);
                        assert(rest_v[i - 1] == rest_pre[i - 1]@);
                        assert(sp[i] == rest_v[i - 1]);
                    }
                }
                assert(m =~= sp);
            }
            out
        },
    }
}

/// Index of the first occurrence of `pat` in `s`, or `-1`.
pub open spec fn sub_index(s: Seq<char>, pat: Seq<char>) -> int
    decreases s.len(),
{
    if is_match_at(s, pat, 0) {
        0
    } else if s.len() == 0 {
        -1
    } else {
        let r = sub_index(s.drop_first(), pat);
        if r < 0 {
            -1
        } else {
            r + 1
        }
    }
}

/// A match one position into the tail is a match one position later in the
/// whole.
proof fn lemma_match_shift(s: Seq<char>, pat: Seq<char>, j: int)
    requires
        s.len() > 0,
        0 <= j,
    ensures
        is_match_at(s.drop_first(), pat, j) == is_match_at(s, pat, j + 1),
{
    if j + pat.len() <= s.drop_first().len() {
        assert(s.drop_first().subrange(j, j + pat.len() as int) =~= s.subrange(
            j + 1,
            j + 1 + pat.len() as int,
        ));
    }
}

/// `sub_index` finds the first occurrence, or reports that there is none.
pub proof fn lemma_sub_index(s: Seq<char>, pat: Seq<char>)
    ensures
        -1 <= sub_index(s, pat),
        sub_index(s, pat) >= 0 ==> is_match_at(s, pat, sub_index(s, pat)) && forall|j: int|
            0 <= j < sub_index(s, pat) ==> !is_match_at(s, pat, j),
        sub_index(s, pat) < 0 ==> !contains_sub(s, pat),
    decreases s.len(),
{
    if !is_match_at(s, pat, 0) && s.len() == 0 {
        assert forall|j: int| true implies !is_match_at(s, pat, j) by {}
    }
    if !is_match_at(s, pat, 0) && s.len() > 0 {
        let rest = s.drop_first();
        lemma_sub_index(rest, pat);
        let r = sub_index(rest, pat);
        if r >= 0 {
            lemma_match_shift(s, pat, r);
            assert(is_match_at(s, pat, r + 1));
            assert forall|j: int| 0 <= j < r + 1 implies !is_match_at(s, pat, j) by {
                if j > 0 {
                    lemma_match_shift(s, pat, j - 1);
                }
            }
        } else {
            assert forall|j: int| true implies !is_match_at(s, pat, j) by {
                if j > 0 {
                    lemma_match_shift(s, pat, j - 1);
                }
            }
        }
    }
}

/// Index of the first occurrence of `pat` in `s`, tied to `sub_index`.
pub fn find_sub_index(s: &str, pat: &str) -> (r: Option<usize>)
    ensures
        ({
            let k = sub_index(s@, pat@);
            match r {
                Some(i) => i == k,
                None => k < 0,
            }
        }),
{
    proof {
        lemma_sub_index(s@, pat@);
    }
    match find_sub(s, pat) {
        Some(i) => {
            proof {
                let k = sub_index(s@, pat@);
                if k < 0 {
                    assert(!contains_sub(s@, pat@));
                    assert(is_match_at(s@, pat@, i as int));
                }
                if k < i {
                    assert(!is_match_at(s@, pat@, k));
                }
            }
            Some(i)
        },
        None => {
            proof {
                let k = sub_index(s@, pat@);
                if k >= 0 {
                    assert(is_match_at(s@, pat@, k));
                    assert(contains_sub(s@, pat@));
                }
            }
            None
        },
    }
}

/// Index of the last occurrence of `c` in `s`, or `-1`.
pub open spec fn last_char_index(s: Seq<char>, c: char) -> int
    decreases s.len(),
{
    if s.len() == 0 {
        -1
    } else if s.last() == c {
        s.len() - 1
    } else {
        last_char_index(s.drop_last(), c)
    }
}

/// `last_char_index` finds the last occurrence, or reports that there is
/// none.
pub proof fn lemma_last_char_index(s: Seq<char>, c: char)
    ensures
        -1 <= last_char_index(s, c) < s.len(),
        last_char_index(s, c) >= 0 ==> s[last_char_index(s, c)] == c && forall|j: int|
            last_char_index(s, c) < j < s.len() ==> s[j] != c,
        last_char_index(s, c) < 0 ==> forall|j: int| 0 <= j < s.len() ==> s[j] != c,
    decreases s.len(),
{
    if s.len() > 0 && s.last() != c {
        lemma_last_char_index(s.drop_last(), c);
        let r = last_char_index(s.drop_last(), c);
        if r >= 0 {
            assert(s.drop_last()[r] == s[r]);
            assert forall|j: int| r < j < s.len() implies s[j] != c by {
                if j < s.len() - 1 {
                    assert(s.drop_last()[j] == s[j]);
                }
            }
        } else {
            assert forall|j: int| 0 <= j < s.len() implies s[j] != c by {
                if j < s.len() - 1 {
                    assert(s.drop_last()[j] == s[j]);
                }
            }
        }
    }
}

/// Whether `c` is an ASCII whitespace character.
pub open spec fn spec_is_space(c: char) -> bool {
    c == ' ' || c == '\t' || c == '\n' || c == '\r'
}

/// `s` without its leading ASCII whitespace.
pub open spec fn spec_trim_start(s: Seq<char>) -> Seq<char>
    decreases s.len(),
{
    if s.len() > 0 && spec_is_space(s[0]) {
        spec_trim_start(s.drop_first())
    } else {
        s
    }
}

/// `s` without its trailing ASCII whitespace.
pub open spec fn spec_trim_end(s: Seq<char>) -> Seq<char>
    decreases s.len(),
{
    if s.len() > 0 && spec_is_space(s.last()) {
        spec_trim_end(s.drop_last())
    } else {
        s
    }
}

/// `s` without leading and trailing ASCII whitespace.
pub open spec fn spec_trim(s: Seq<char>) -> Seq<char> {
    spec_trim_end(spec_trim_start(s))
}

proof fn lemma_trim_start_shift(s: Seq<char>, a: int)
    requires
        0 <= a <= s.len(),
        forall|j: int| 0 <= j < a ==> spec_is_space(s[j]),
    ensures
        spec_trim_start(s) == spec_trim_start(s.subrange(a, s.len() as int)),
    decreases a,
{
    if a == 0 {
        assert(s.subrange(0, s.len() as int) =~= s);
    } else {
        assert(spec_is_space(s[0]));
        assert(spec_trim_start(s) == spec_trim_start(s.drop_first()));
        assert forall|j: int| 0 <= j < a - 1 implies spec_is_space(s.drop_first()[j]) by {
            assert(s.drop_first()[j] == s[j + 1]);
        }
        lemma_trim_start_shift(s.drop_first(), a - 1);
        assert(s.drop_first().subrange(a - 1, s.drop_first().len() as int) =~= s.subrange(
            a,
            s.len() as int,
        ));
    }
}

proof fn lemma_trim_end_shift(s: Seq<char>, b: int)
    requires
        0 <= b <= s.len(),
        forall|j: int| b <= j < s.len() ==> spec_is_space(s[j]),
    ensures
        spec_trim_end(s) == spec_trim_end(s.subrange(0, b)),
    decreases s.len() - b,
{
    if b == s.len() {
        assert(s.subrange(0, b) =~= s);
    }
    if b < s.len() {
        assert(spec_is_space(s.last()));
        assert(spec_trim_end(s) == spec_trim_end(s.drop_last()));
        assert forall|j: int| b <= j < s.drop_last().len() implies spec_is_space(
            s.drop_last()[j],
        ) by {
            assert(s.drop_last()[j] == s[j]);
        }
        lemma_trim_end_shift(s.drop_last(), b);
        assert(s.drop_last().subrange(0, b) =~= s.subrange(0, b));
    }
}

/// Whether an exec character is ASCII whitespace.
fn is_space(c: char) -> (r: bool)
    ensures
        r == spec_is_space(c),
{
    c == ' ' || c == '\t' || c == '\n' || c == '\r'
}

/// A copy of `s` without leading and trailing ASCII whitespace.
pub fn trim_spaces(s: &str) -> (r: String)
    ensures
        r@ == spec_trim(s@),
{
    let s_len = s.unicode_len();
    let mut a: usize = 0;
    while a < s_len && is_space(s.get_char(a))
        invariant
            0 <= a <= s_len,
            s_len == s@.len(),
            forall|j: int| 0 <= j < a ==> spec_is_space(s@[j]),
        decreases s_len - a,
    {
        a = a + 1;
    }
    let mut b: usize = s_len;
    while b > a && is_space(s.get_char(b - 1))
        invariant
            a <= b <= s_len,
            s_len == s@.len(),
            forall|j: int| b <= j < s@.len() ==> spec_is_space(s@[j]),
        decreases b,
    {
        b = b - 1;
    }
    let out = substring(s, a, b);
    proof {
        lemma_trim_start_shift(s@, a as int);
        let t = s@.subrange(a as int, s@.len() as int);
        assert(spec_trim_start(t) == t) by {
            if t.len() > 0 {
                assert(t[0] == s@[a as int]);
            }
        }
        assert forall|j: int| b - a <= j < t.len() implies spec_is_space(t[j]) by {
            assert(t[j] == s@[a + j]);
        }
        lemma_trim_end_shift(t, b - a);
        let u = t.subrange(0, b - a);
        assert(spec_trim_end(u) == u) by {
            if u.len() > 0 {
                assert(u.last() == s@[b - 1]);
            }
        }
        assert(out@ =~= u);
    }
    out
}

} // verus!
