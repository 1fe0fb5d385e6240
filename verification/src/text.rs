//! Character-level utilities over strings: searching, splitting,
//! trimming and numeric parsing, each specified against a spec-level
//! function on the string's character sequence.

use vstd::prelude::*;

verus! {

/// First index at which `c` occurs in `s`, if any.
pub open spec fn spec_find(s: Seq<char>, c: char) -> Option<int>
    decreases s.len(),
{
    if s.len() == 0 {
        None
    } else if s[0] == c {
        Some(0)
    } else {
        match spec_find(s.drop_first(), c) {
            None => None,
            Some(i) => Some(i + 1),
        }
    }
}

/// `spec_find` returns the first occurrence of `c`, or `None` when
/// `c` does not occur at all.
pub proof fn lemma_spec_find(s: Seq<char>, c: char)
    ensures
        match spec_find(s, c) {
            Some(i) => 0 <= i < s.len() && s[i] == c && (forall|j: int| 0 <= j < i ==> s[j] != c),
            None => forall|j: int| 0 <= j < s.len() ==> s[j] != c,
        },
    decreases s.len(),
{
    if s.len() > 0 && s[0] != c {
        let t = s.drop_first();
        lemma_spec_find(t, c);
        match spec_find(t, c) {
            Some(i) => {
                assert forall|j: int| 0 < j < i + 1 implies s[j] != c by {
                    assert(t[j - 1] == s[j]);
                }
            },
            None => {
                assert forall|j: int| 0 < j < s.len() implies s[j] != c by {
                    assert(t[j - 1] == s[j]);
                }
            },
        }
    }
}

/// Index of the first occurrence of `c` in `s`, scanning left to right.
pub fn find_char(s: &str, c: char) -> (r: Option<usize>)
    ensures
        match r {
            Some(i) => spec_find(s@, c) == Some(i as int),
            None => spec_find(s@, c) is None,
        },
{
    proof {
        lemma_spec_find(s@, c);
    }
    let n: usize = s.unicode_len();
    let mut i: usize = 0;
    while i < n
        invariant
            n == s@.len(),
            0 <= i <= n,
            forall|j: int| 0 <= j < i ==> s@[j] != c,
        decreases n - i,
    {
        if s.get_char(i) == c {
            proof {
                lemma_spec_find(s@, c);
            }
            return Some(i);
        }
        i = i + 1;
    }
    None
}

/// Last index at which `c` occurs in `s`, if any.
pub open spec fn spec_rfind(s: Seq<char>, c: char) -> Option<int>
    decreases s.len(),
{
    if s.len() == 0 {
        None
    } else if s[s.len() - 1] == c {
        Some(s.len() - 1)
    } else {
        spec_rfind(s.drop_last(), c)
    }
}

/// `spec_rfind` returns the last occurrence of `c`, or `None` when
/// `c` does not occur at all.
pub proof fn lemma_spec_rfind(s: Seq<char>, c: char)
    ensures
        match spec_rfind(s, c) {
            Some(i) => 0 <= i < s.len() && s[i] == c && (forall|j: int|
                i < j < s.len() ==> s[j] != c),
            None => forall|j: int| 0 <= j < s.len() ==> s[j] != c,
        },
    decreases s.len(),
{
    if s.len() > 0 && s[s.len() - 1] != c {
        let t = s.drop_last();
        lemma_spec_rfind(t, c);
        assert forall|j: int| 0 <= j < t.len() implies t[j] == s[j] by {}
    }
}

/// Index of the last occurrence of `c` in `s`, scanning right to left.
pub fn rfind_char(s: &str, c: char) -> (r: Option<usize>)
    ensures
        match r {
            Some(i) => spec_rfind(s@, c) == Some(i as int),
            None => spec_rfind(s@, c) is None,
        },
{
    let n: usize = s.unicode_len();
    let mut i: usize = n;
    while i > 0
        invariant
            n == s@.len(),
            0 <= i <= n,
            forall|j: int| i <= j < n ==> s@[j] != c,
        decreases i,
    {
        i = i - 1;
        if s.get_char(i) == c {
            proof {
                lemma_spec_rfind(s@, c);
            }
            return Some(i);
        }
    }
    proof {
        lemma_spec_rfind(s@, c);
    }
    None
}

/// Whether two string slices hold the same characters.
pub fn str_eq(a: &str, b: &str) -> (r: bool)
    ensures
        r == (a@ == b@),
{
    let na: usize = a.unicode_len();
    let nb: usize = b.unicode_len();
    if na != nb {
        return false;
    }
    let mut i: usize = 0;
    while i < na
        invariant
            na == a@.len(),
            na == b@.len(),
            0 <= i <= na,
            forall|j: int| 0 <= j < i ==> a@[j] == b@[j],
        decreases na - i,
    {
        if a.get_char(i) != b.get_char(i) {
            return false;
        }
        i = i + 1;
    }
    proof {
        assert(a@ =~= b@);
    }
    true
}

/// Relies on `String::push`: appends the given character at the end
/// of the string.
#[verifier::external_body]
pub fn push_char(s: &mut String, c: char)
    ensures
        final(s)@ == old(s)@.push(c),
{
    s.push(c);
}

/// The segments of `s` delimited by `sep`: always at least one
/// segment, one more segment than there are separator occurrences,
/// and no segment contains `sep`.
pub open spec fn spec_split(s: Seq<char>, sep: char) -> Seq<Seq<char>>
    decreases s.len(),
{
    if s.len() == 0 {
        seq![Seq::<char>::empty()]
    } else {
        let r = spec_split(s.drop_last(), sep);
        if s.last() == sep {
            r.push(Seq::<char>::empty())
        } else {
            r.update(r.len() - 1, r.last().push(s.last()))
        }
    }
}

pub proof fn lemma_spec_split_len(s: Seq<char>, sep: char)
    ensures
        spec_split(s, sep).len() >= 1,
    decreases s.len(),
{
    if s.len() > 0 {
        lemma_spec_split_len(s.drop_last(), sep);
    }
}

/// Splits `s` at every occurrence of `sep`.
pub fn split_char(s: &str, sep: char) -> (r: Vec<String>)
    ensures
        r.deep_view() == spec_split(s@, sep),
{
    let n: usize = s.unicode_len();
    let mut segs: Vec<String> = Vec::new();
    let mut cur: String = String::new();
    let mut i: usize = 0;
    proof {
        assert(s@.take(0) =~= Seq::<char>::empty());
        assert(segs.deep_view().push(cur@) =~= spec_split(s@.take(0), sep));
    }
    while i < n
        invariant
            n == s@.len(),
            0 <= i <= n,
            segs.deep_view().push(cur@) =~= spec_split(s@.take(i as int), sep),
        decreases n - i,
    {
        let c = s.get_char(i);
        proof {
            assert(s@.take(i + 1).drop_last() =~= s@.take(i as int));
            assert(s@.take(i + 1).last() == s@[i as int]);
            lemma_spec_split_len(s@.take(i as int), sep);
        }
        if c == sep {
            segs.push(cur);
            cur = String::new();
        } else {
            push_char(&mut cur, c);
        }
        proof {
            assert(segs.deep_view().push(cur@) =~= spec_split(s@.take(i + 1), sep));
        }
        i = i + 1;
    }
    proof {
        assert(s@.take(n as int) =~= s@);
    }
    segs.push(cur);
    proof {
        assert(segs.deep_view() =~= spec_split(s@, sep));
    }
    segs
}

/// The whitespace characters recognized by the trimming and
/// whitespace-stripping helpers: the ASCII whitespace set.
pub open spec fn is_space(c: char) -> bool {
    c == ' ' || c == '\t' || c == '\n' || c == '\r' || c == '\u{000B}' || c == '\u{000C}'
}

/// Whether `c` counts as whitespace.
pub fn is_space_char(c: char) -> (r: bool)
    ensures
        r == is_space(c),
{
    c == ' ' || c == '\t' || c == '\n' || c == '\r' || c == '\u{000B}' || c == '\u{000C}'
}

/// `s` with every whitespace character removed.
pub open spec fn spec_strip_spaces(s: Seq<char>) -> Seq<char>
    decreases s.len(),
{
    if s.len() == 0 {
        Seq::<char>::empty()
    } else if is_space(s.last()) {
        spec_strip_spaces(s.drop_last())
    } else {
        spec_strip_spaces(s.drop_last()).push(s.last())
    }
}

/// Removes every whitespace character from `s`.
pub fn strip_spaces(s: &str) -> (r: String)
    ensures
        r@ == spec_strip_spaces(s@),
{
    let n: usize = s.unicode_len();
    let mut out: String = String::new();
    let mut i: usize = 0;
    while i < n
        invariant
            n == s@.len(),
            0 <= i <= n,
            out@ =~= spec_strip_spaces(s@.take(i as int)),
        decreases n - i,
    {
        let c = s.get_char(i);
        proof {
            assert(s@.take(i + 1).drop_last() =~= s@.take(i as int));
            assert(s@.take(i + 1).last() == s@[i as int]);
        }
        if !is_space_char(c) {
            push_char(&mut out, c);
        }
        i = i + 1;
    }
    proof {
        assert(s@.take(n as int) =~= s@);
    }
    out
}

/// `s` with every occurrence of `m` removed.
pub open spec fn spec_strip_char(s: Seq<char>, m: char) -> Seq<char>
    decreases s.len(),
{
    if s.len() == 0 {
        Seq::<char>::empty()
    } else if s.last() == m {
        spec_strip_char(s.drop_last(), m)
    } else {
        spec_strip_char(s.drop_last(), m).push(s.last())
    }
}

/// Removes every occurrence of `m` from `s`.
pub fn strip_char(s: &str, m: char) -> (r: String)
    ensures
        r@ == spec_strip_char(s@, m),
{
    let n: usize = s.unicode_len();
    let mut out: String = String::new();
    let mut i: usize = 0;
    while i < n
        invariant
            n == s@.len(),
            0 <= i <= n,
            out@ =~= spec_strip_char(s@.take(i as int), m),
        decreases n - i,
    {
        let c = s.get_char(i);
        proof {
            assert(s@.take(i + 1).drop_last() =~= s@.take(i as int));
            assert(s@.take(i + 1).last() == s@[i as int]);
        }
        if c != m {
            push_char(&mut out, c);
        }
        i = i + 1;
    }
    proof {
        assert(s@.take(n as int) =~= s@);
    }
    out
}

/// `s` without its leading whitespace.
pub open spec fn spec_trim_start(s: Seq<char>) -> Seq<char>
    decreases s.len(),
{
    if s.len() > 0 && is_space(s[0]) {
        spec_trim_start(s.drop_first())
    } else {
        s
    }
}

/// `s` without its trailing whitespace.
pub open spec fn spec_trim_end(s: Seq<char>) -> Seq<char>
    decreases s.len(),
{
    if s.len() > 0 && is_space(s.last()) {
        spec_trim_end(s.drop_last())
    } else {
        s
    }
}

/// `s` without leading or trailing whitespace.
pub open spec fn spec_trim(s: Seq<char>) -> Seq<char> {
    spec_trim_end(spec_trim_start(s))
}

proof fn lemma_trim_start_at(s: Seq<char>, k: int)
    requires
        0 <= k <= s.len(),
        forall|j: int| 0 <= j < k ==> is_space(s[j]),
        k < s.len() ==> !is_space(s[k]),
    ensures
        spec_trim_start(s) =~= s.subrange(k, s.len() as int),
    decreases k,
{
    if k > 0 {
        let t = s.drop_first();
        assert forall|j: int| 0 <= j < t.len() implies t[j] == s[j + 1] by {}
        lemma_trim_start_at(t, k - 1);
    }
}

proof fn lemma_trim_end_at(s: Seq<char>, k: int)
    requires
        0 <= k <= s.len(),
        forall|j: int| k <= j < s.len() ==> is_space(s[j]),
        k > 0 ==> !is_space(s[k - 1]),
    ensures
        spec_trim_end(s) =~= s.subrange(0, k),
    decreases s.len() - k,
{
    if k < s.len() {
        let t = s.drop_last();
        assert forall|j: int| 0 <= j < t.len() implies t[j] == s[j] by {}
        lemma_trim_end_at(t, k);
    }
}

/// The slice of `s` with surrounding whitespace removed.
pub fn trim_str<'a>(s: &'a str) -> (r: &'a str)
    ensures
        r@ == spec_trim(s@),
{
    let n: usize = s.unicode_len();
    let mut a: usize = 0;
    while a < n && is_space_char(s.get_char(a))
        invariant
            n == s@.len(),
            0 <= a <= n,
            forall|j: int| 0 <= j < a ==> is_space(s@[j]),
        decreases n - a,
    {
        a = a + 1;
    }
    if a == n {
        proof {
            lemma_trim_start_at(s@, n as int);
            lemma_trim_end_at(s@.subrange(n as int, n as int), 0);
        }
        return s.substring_char(n, n);
    }
    let mut b: usize = n - 1;
    while is_space_char(s.get_char(b))
        invariant
            n == s@.len(),
            0 <= a <= b < n,
            !is_space(s@[a as int]),
            forall|j: int| b < j < n ==> is_space(s@[j]),
        decreases b,
    {
        b = b - 1;
    }
    let r = s.substring_char(a, b + 1);
    proof {
        lemma_trim_start_at(s@, a as int);
        let t = s@.subrange(a as int, n as int);
        assert forall|j: int| 0 <= j < t.len() implies t[j] == s@[j + a] by {}
        lemma_trim_end_at(t, b + 1 - a);
        assert(t.subrange(0, b + 1 - a) =~= s@.subrange(a as int, b + 1));
    }
    r
}

/// `s` without leading occurrences of `m`.
pub open spec fn spec_trim_char_start(s: Seq<char>, m: char) -> Seq<char>
    decreases s.len(),
{
    if s.len() > 0 && s[0] == m {
        spec_trim_char_start(s.drop_first(), m)
    } else {
        s
    }
}

/// `s` without trailing occurrences of `m`.
pub open spec fn spec_trim_char_end(s: Seq<char>, m: char) -> Seq<char>
    decreases s.len(),
{
    if s.len() > 0 && s.last() == m {
        spec_trim_char_end(s.drop_last(), m)
    } else {
        s
    }
}

/// `s` without leading or trailing occurrences of `m`.
pub open spec fn spec_trim_char(s: Seq<char>, m: char) -> Seq<char> {
    spec_trim_char_end(spec_trim_char_start(s, m), m)
}

proof fn lemma_trim_char_start_at(s: Seq<char>, m: char, k: int)
    requires
        0 <= k <= s.len(),
        forall|j: int| 0 <= j < k ==> s[j] == m,
        k < s.len() ==> s[k] != m,
    ensures
        spec_trim_char_start(s, m) =~= s.subrange(k, s.len() as int),
    decreases k,
{
    if k > 0 {
        let t = s.drop_first();
        assert forall|j: int| 0 <= j < t.len() implies t[j] == s[j + 1] by {}
        lemma_trim_char_start_at(t, m, k - 1);
    }
}

proof fn lemma_trim_char_end_at(s: Seq<char>, m: char, k: int)
    requires
        0 <= k <= s.len(),
        forall|j: int| k <= j < s.len() ==> s[j] == m,
        k > 0 ==> s[k - 1] != m,
    ensures
        spec_trim_char_end(s, m) =~= s.subrange(0, k),
    decreases s.len() - k,
{
    if k < s.len() {
        let t = s.drop_last();
        assert forall|j: int| 0 <= j < t.len() implies t[j] == s[j] by {}
        lemma_trim_char_end_at(t, m, k);
    }
}

/// The slice of `s` with surrounding occurrences of `m` removed.
pub fn trim_char_str<'a>(s: &'a str, m: char) -> (r: &'a str)
    ensures
        r@ == spec_trim_char(s@, m),
{
    let n: usize = s.unicode_len();
    let mut a: usize = 0;
    while a < n && s.get_char(a) == m
        invariant
            n == s@.len(),
            0 <= a <= n,
            forall|j: int| 0 <= j < a ==> s@[j] == m,
        decreases n - a,
    {
        a = a + 1;
    }
    if a == n {
        proof {
            lemma_trim_char_start_at(s@, m, n as int);
            lemma_trim_char_end_at(s@.subrange(n as int, n as int), m, 0);
        }
        return s.substring_char(n, n);
    }
    let mut b: usize = n - 1;
    while s.get_char(b) == m
        invariant
            n == s@.len(),
            0 <= a <= b < n,
            s@[a as int] != m,
            forall|j: int| b < j < n ==> s@[j] == m,
        decreases b,
    {
        b = b - 1;
    }
    let r = s.substring_char(a, b + 1);
    proof {
        lemma_trim_char_start_at(s@, m, a as int);
        let t = s@.subrange(a as int, n as int);
        assert forall|j: int| 0 <= j < t.len() implies t[j] == s@[j + a] by {}
        lemma_trim_char_end_at(t, m, b + 1 - a);
        assert(t.subrange(0, b + 1 - a) =~= s@.subrange(a as int, b + 1));
    }
    r
}

} // verus!
