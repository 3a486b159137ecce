//! Character-level text utilities with exact specifications.
//!
//! Every function here works on the `Seq<char>` view of a string and states
//! its result as a spec function over that view.

use vstd::prelude::*;

verus! {

// ---------------------------------------------------------------------------
// Conversions between `str`/`String` and character vectors
// ---------------------------------------------------------------------------

/// The characters of a string slice, in order.
pub fn chars_of(s: &str) -> (res: Vec<char>)
    ensures
        res@ == s@,
{
    let mut res: Vec<char> = Vec::new();
    for c in it: s.chars()
        invariant
            res@ == it.seq().take(it.index() as int),
    {
        res.push(c);
    }
    assert(res@ == s@);
    res
}

/// Collects characters into a `String` (`String::from_iter`).
#[verifier::external_body]
pub(crate) fn string_of(chars: &[char]) -> (res: String)
    ensures
        res@ == chars@,
{
    chars.iter().collect()
}

/// The lowercase form of a character sequence, as `str::to_lowercase`
/// computes it from the Unicode case tables.
pub uninterp spec fn unicode_lowercase(s: Seq<char>) -> Seq<char>;

/// The ASCII lowercase form of a character: `A`..`Z` become `a`..`z`.
pub open spec fn ascii_lower_char(c: char) -> char {
    if 'A' <= c && c <= 'Z' {
        ((c as u32) + 32) as char
    } else {
        c
    }
}

/// `str::to_lowercase`.  The result is named: it is a function of the
/// characters alone.  On ASCII text it is the ASCII lowercase form; the
/// Unicode case mapping it applies elsewhere is not restated here.
#[verifier::external_body]
fn str_to_lowercase(s: &str) -> (res: String)
    ensures
        res@ == unicode_lowercase(s@),
        (forall|i: int| 0 <= i < s@.len() ==> (s@[i] as u32) < 128) ==> res@ == s@.map_values(
            |c: char| ascii_lower_char(c),
        ),
{
    s.to_lowercase()
}

/// The lowercase form of a character sequence (`str::to_lowercase`).
pub(crate) fn to_lowercase(chars: &[char]) -> (res: Vec<char>)
    ensures
        res@ == unicode_lowercase(chars@),
        (forall|i: int| 0 <= i < chars@.len() ==> (chars@[i] as u32) < 128) ==> res@ == chars@.map_values(
            |c: char| ascii_lower_char(c),
        ),
{
    let s = string_of(chars);
    let lower = str_to_lowercase(s.as_str());
    chars_of(lower.as_str())
}

/// Copies a slice of characters into a new vector.
pub fn copy_chars(s: &[char]) -> (res: Vec<char>)
    ensures
        res@ == s@,
{
    let mut res: Vec<char> = Vec::new();
    let mut i: usize = 0;
    while i < s.len()
        invariant
            i <= s@.len(),
            res@ == s@.take(i as int),
        decreases s@.len() - i,
    {
        res.push(s[i]);
        i = i + 1;
        assert(res@ =~= s@.take(i as int));
    }
    assert(s@.take(s@.len() as int) =~= s@);
    res
}

/// The characters `s[start..end]`.
pub fn sub_chars(s: &[char], start: usize, end: usize) -> (res: Vec<char>)
    requires
        start <= end <= s@.len(),
    ensures
        res@ == s@.subrange(start as int, end as int),
{
    copy_chars(&s[start..end])
}

/// Appends all of `src` to `dst`.
pub fn push_chars(dst: &mut Vec<char>, src: &[char])
    ensures
        final(dst)@ == old(dst)@ + src@,
{
    let mut i: usize = 0;
    while i < src.len()
        invariant
            i <= src@.len(),
            dst@ == old(dst)@ + src@.take(i as int),
        decreases src@.len() - i,
    {
        dst.push(src[i]);
        i = i + 1;
        assert(dst@ =~= old(dst)@ + src@.take(i as int));
    }
    assert(src@.take(src@.len() as int) =~= src@);
}

/// Appends the characters of a string slice to `dst`.
pub fn push_str(dst: &mut Vec<char>, s: &str)
    ensures
        final(dst)@ == old(dst)@ + s@,
{
    let cs = chars_of(s);
    push_chars(dst, cs.as_slice());
}

/// Whether two character sequences are equal.
pub fn chars_eq(a: &[char], b: &[char]) -> (res: bool)
    ensures
        res == (a@ == b@),
{
    if a.len() != b.len() {
        return false;
    }
    let mut i: usize = 0;
    while i < a.len()
        invariant
            a@.len() == b@.len(),
            i <= a@.len(),
            forall|j: int| 0 <= j < i ==> a@[j] == b@[j],
        decreases a@.len() - i,
    {
        if a[i] != b[i] {
            return false;
        }
        i = i + 1;
    }
    assert(a@ =~= b@);
    true
}

/// Whether `s` equals the string literal or slice `t`.
pub fn chars_eq_str(s: &[char], t: &str) -> (res: bool)
    ensures
        res == (s@ == t@),
{
    let tc = chars_of(t);
    chars_eq(s, tc.as_slice())
}

// ---------------------------------------------------------------------------
// Prefixes, suffixes and substring search
// ---------------------------------------------------------------------------

/// `p` is a prefix of `s`.
pub open spec fn starts_with(s: Seq<char>, p: Seq<char>) -> bool {
    p.len() <= s.len() && s.take(p.len() as int) == p
}

/// `p` is a suffix of `s`.
pub open spec fn ends_with(s: Seq<char>, p: Seq<char>) -> bool {
    p.len() <= s.len() && s.skip(s.len() - p.len()) == p
}

/// `pat` occurs in `s` at position `i`.
pub open spec fn matches_at(s: Seq<char>, pat: Seq<char>, i: int) -> bool {
    0 <= i && i + pat.len() <= s.len() && s.subrange(i, i + pat.len()) == pat
}

/// The first position `>= i` at which `pat` occurs in `s` (`str::find`).
pub open spec fn find_from(s: Seq<char>, pat: Seq<char>, i: int) -> Option<int>
    decreases s.len() + 1 - i,
{
    if i < 0 || i + pat.len() > s.len() {
        None
    } else if matches_at(s, pat, i) {
        Some(i)
    } else {
        find_from(s, pat, i + 1)
    }
}

/// The first position at which `pat` occurs in `s`.
pub open spec fn find(s: Seq<char>, pat: Seq<char>) -> Option<int> {
    find_from(s, pat, 0)
}

/// `pat` occurs somewhere in `s` (`str::contains`).
pub open spec fn contains(s: Seq<char>, pat: Seq<char>) -> bool {
    find(s, pat) is Some
}

/// What `find_from` returns: the first match at or after `i`.
pub proof fn lemma_find_from(s: Seq<char>, pat: Seq<char>, i: int)
    requires
        0 <= i,
    ensures
        find_from(s, pat, i) matches Some(k) ==> i <= k && matches_at(s, pat, k) && forall|
            j: int,
        | i <= j < k ==> !matches_at(s, pat, j),
        find_from(s, pat, i) is None ==> forall|j: int| i <= j ==> !matches_at(s, pat, j),
    decreases s.len() + 1 - i,
{
    if i + pat.len() > s.len() {
    } else if matches_at(s, pat, i) {
    } else {
        lemma_find_from(s, pat, i + 1);
    }
}

/// A match at position `k` with none between `i` and `k` is what `find_from` returns.
pub proof fn lemma_find_from_is(s: Seq<char>, pat: Seq<char>, i: int, k: int)
    requires
        0 <= i <= k,
        matches_at(s, pat, k),
        forall|j: int| i <= j < k ==> !matches_at(s, pat, j),
    ensures
        find_from(s, pat, i) == Some(k),
    decreases k - i,
{
    if i < k {
        lemma_find_from_is(s, pat, i + 1, k);
    }
}

/// No match at or after `i` means `find_from` finds nothing.
pub proof fn lemma_find_from_none(s: Seq<char>, pat: Seq<char>, i: int)
    requires
        0 <= i,
        forall|j: int| i <= j ==> !matches_at(s, pat, j),
    ensures
        find_from(s, pat, i) is None,
    decreases s.len() + 1 - i,
{
    if i + pat.len() <= s.len() {
        lemma_find_from_none(s, pat, i + 1);
    }
}

/// Whether `pat` occurs in `s` at position `i`.
pub fn matches_at_exec(s: &[char], pat: &[char], i: usize) -> (res: bool)
    ensures
        res == matches_at(s@, pat@, i as int),
{
    if i > s.len() || pat.len() > s.len() - i {
        return false;
    }
    let n = s.len();
    let mut j: usize = 0;
    while j < pat.len()
        invariant
            n == s@.len(),
            i + pat@.len() <= s@.len(),
            j <= pat@.len(),
            forall|k: int| 0 <= k < j ==> s@[i + k] == pat@[k],
        decreases pat@.len() - j,
    {
        assert(i + j < s@.len());
        if s[i + j] != pat[j] {
            assert(s@.subrange(i as int, i + pat@.len())[j as int] != pat@[j as int]);
            return false;
        }
        j = j + 1;
    }
    assert(s@.subrange(i as int, i + pat@.len()) =~= pat@);
    true
}

/// The first position at or after `from` where `pat` occurs in `s`.
pub fn find_from_exec(s: &[char], pat: &[char], from: usize) -> (res: Option<usize>)
    ensures
        match res {
            Some(k) => find_from(s@, pat@, from as int) == Some(k as int),
            None => find_from(s@, pat@, from as int) is None,
        },
{
    if from > s.len() {
        proof {
            lemma_find_from_none(s@, pat@, from as int);
        }
        return None;
    }
    let mut i: usize = from;
    while i < s.len()
        invariant
            from <= i <= s@.len(),
            forall|j: int| from <= j < i ==> !matches_at(s@, pat@, j),
        decreases s@.len() - i,
    {
        if matches_at_exec(s, pat, i) {
            proof {
                lemma_find_from_is(s@, pat@, from as int, i as int);
            }
            return Some(i);
        }
        i = i + 1;
    }
    if matches_at_exec(s, pat, i) {
        proof {
            lemma_find_from_is(s@, pat@, from as int, i as int);
        }
        return Some(i);
    }
    proof {
        assert forall|j: int| from <= j implies !matches_at(s@, pat@, j) by {
            if j > i {
                assert(j + pat@.len() > s@.len());
            }
        }
        lemma_find_from_none(s@, pat@, from as int);
    }
    None
}

/// The first position where `pat` occurs in `s` (`str::find`).
pub fn find_exec(s: &[char], pat: &[char]) -> (res: Option<usize>)
    ensures
        match res {
            Some(k) => find(s@, pat@) == Some(k as int),
            None => find(s@, pat@) is None,
        },
{
    find_from_exec(s, pat, 0)
}

/// Whether `pat` occurs in `s` (`str::contains`).
pub fn contains_exec(s: &[char], pat: &[char]) -> (res: bool)
    ensures
        res == contains(s@, pat@),
{
    find_exec(s, pat).is_some()
}

/// Whether `s` starts with `p`.
pub fn starts_with_exec(s: &[char], p: &[char]) -> (res: bool)
    ensures
        res == starts_with(s@, p@),
{
    let r = matches_at_exec(s, p, 0);
    assert(s@.subrange(0, p@.len() as int) =~= s@.take(p@.len() as int));
    r
}

/// Whether `s` ends with `p`.
pub fn ends_with_exec(s: &[char], p: &[char]) -> (res: bool)
    ensures
        res == ends_with(s@, p@),
{
    if p.len() > s.len() {
        return false;
    }
    let r = matches_at_exec(s, p, s.len() - p.len());
    assert(s@.subrange(s@.len() - p@.len(), s@.len() as int) =~= s@.skip(
        s@.len() - p@.len(),
    ));
    r
}

// ---------------------------------------------------------------------------
// Replacing all occurrences of a pattern (`str::replace`)
// ---------------------------------------------------------------------------

/// `s[i..]` with every non-overlapping occurrence of `pat`, scanning from
/// the left, replaced by `rep`.
pub open spec fn replace_from(s: Seq<char>, pat: Seq<char>, rep: Seq<char>, i: int) -> Seq<char>
    recommends
        pat.len() > 0,
    decreases s.len() - i,
{
    if i < 0 || i >= s.len() || pat.len() == 0 {
        s.skip(i)
    } else if matches_at(s, pat, i) {
        rep + replace_from(s, pat, rep, i + pat.len())
    } else {
        seq![s[i]] + replace_from(s, pat, rep, i + 1)
    }
}

/// `s` with every occurrence of the non-empty `pat` replaced by `rep`.
pub open spec fn replace_all(s: Seq<char>, pat: Seq<char>, rep: Seq<char>) -> Seq<char> {
    replace_from(s, pat, rep, 0)
}

/// Replaces every occurrence of the non-empty `pat` in `s` by `rep`.
pub fn replace_all_exec(s: &[char], pat: &[char], rep: &[char]) -> (res: Vec<char>)
    requires
        pat@.len() > 0,
    ensures
        res@ == replace_all(s@, pat@, rep@),
{
    let mut out: Vec<char> = Vec::new();
    let mut i: usize = 0;
    while i < s.len()
        invariant
            pat@.len() > 0,
            i <= s@.len(),
            replace_all(s@, pat@, rep@) == out@ + replace_from(s@, pat@, rep@, i as int),
        decreases s@.len() - i,
    {
        if matches_at_exec(s, pat, i) {
            let ghost before = out@;
            push_chars(&mut out, rep);
            assert(before + replace_from(s@, pat@, rep@, i as int) =~= out@ + replace_from(
                s@,
                pat@,
                rep@,
                i + pat@.len(),
            ));
            i = i + pat.len();
        } else {
            let ghost before = out@;
            out.push(s[i]);
            assert(before + replace_from(s@, pat@, rep@, i as int) =~= out@ + replace_from(
                s@,
                pat@,
                rep@,
                i + 1,
            ));
            i = i + 1;
        }
    }
    assert(replace_from(s@, pat@, rep@, i as int) =~= Seq::<char>::empty());
    assert(out@ + Seq::<char>::empty() =~= out@);
    out
}

/// The deep view of a character vector is its view.
pub proof fn lemma_chars_deep_view(v: Vec<char>)
    ensures
        v.deep_view() == v@,
{
    assert(v.deep_view() =~= v@);
}

/// Pushing onto a vector of character vectors pushes onto its deep view.
pub proof fn lemma_deep_view_push(before: Vec<Vec<char>>, after: Vec<Vec<char>>, w: Vec<char>)
    requires
        after@ == before@.push(w),
    ensures
        after.deep_view() == before.deep_view().push(w@),
{
    lemma_chars_deep_view(w);
    assert(after.deep_view() =~= before.deep_view().push(w@));
}

// ---------------------------------------------------------------------------
// Skipping runs of characters, trimming, words and splitting
// ---------------------------------------------------------------------------

/// Unicode `White_Space` (what `char::is_whitespace` tests): U+0009..U+000D,
/// U+0020, U+0085, U+00A0, U+1680, U+2000..U+200A, U+2028, U+2029, U+202F,
/// U+205F and U+3000.
pub open spec fn is_ws(c: char) -> bool {
    let u = c as u32;
    (9 <= u && u <= 13) || u == 32 || u == 0x85 || u == 0xA0 || u == 0x1680 || (0x2000 <= u
        && u <= 0x200A) || u == 0x2028 || u == 0x2029 || u == 0x202F || u == 0x205F || u
        == 0x3000
}

/// The predicate "is whitespace".
pub open spec fn ws_pred() -> spec_fn(char) -> bool {
    |c: char| is_ws(c)
}

/// The predicate "is not whitespace".
pub open spec fn non_ws_pred() -> spec_fn(char) -> bool {
    |c: char| !is_ws(c)
}

/// The predicate "equals `d`".
pub open spec fn eq_pred(d: char) -> spec_fn(char) -> bool {
    |c: char| c == d
}

/// The predicate "differs from `d`".
pub open spec fn ne_pred(d: char) -> spec_fn(char) -> bool {
    |c: char| c != d
}

/// `char::is_whitespace`.
pub fn is_whitespace(c: char) -> (res: bool)
    ensures
        res == is_ws(c),
{
    let u = c as u32;
    (9 <= u && u <= 13) || u == 32 || u == 0x85 || u == 0xA0 || u == 0x1680 || (0x2000 <= u
        && u <= 0x200A) || u == 0x2028 || u == 0x2029 || u == 0x202F || u == 0x205F || u
        == 0x3000
}

/// The first index `>= i` whose character does not satisfy `p` (or `s.len()`).
pub open spec fn skip_while(s: Seq<char>, i: int, p: spec_fn(char) -> bool) -> int
    decreases s.len() - i,
{
    if i < 0 || i >= s.len() || !p(s[i]) {
        i
    } else {
        skip_while(s, i + 1, p)
    }
}

/// Going down from `j`, the smallest index `m` such that every character in
/// `s[m..j]` satisfies `p`.
pub open spec fn skip_back_while(s: Seq<char>, j: int, p: spec_fn(char) -> bool) -> int
    decreases j,
{
    if j <= 0 || j > s.len() || !p(s[j - 1]) {
        j
    } else {
        skip_back_while(s, j - 1, p)
    }
}

/// What `skip_while` returns.
pub proof fn lemma_skip_while(s: Seq<char>, i: int, p: spec_fn(char) -> bool)
    requires
        0 <= i <= s.len(),
    ensures
        i <= skip_while(s, i, p) <= s.len(),
        forall|k: int| i <= k < skip_while(s, i, p) ==> p(s[k]),
        skip_while(s, i, p) < s.len() ==> !p(s[skip_while(s, i, p)]),
    decreases s.len() - i,
{
    if i < s.len() && p(s[i]) {
        lemma_skip_while(s, i + 1, p);
    }
}

/// What `skip_back_while` returns.
pub proof fn lemma_skip_back_while(s: Seq<char>, j: int, p: spec_fn(char) -> bool)
    requires
        0 <= j <= s.len(),
    ensures
        0 <= skip_back_while(s, j, p) <= j,
        forall|k: int| skip_back_while(s, j, p) <= k < j ==> p(s[k]),
        skip_back_while(s, j, p) > 0 ==> !p(s[skip_back_while(s, j, p) - 1]),
    decreases j,
{
    if j > 0 && p(s[j - 1]) {
        lemma_skip_back_while(s, j - 1, p);
    }
}

/// The first index `>= i` that is not whitespace.
pub fn skip_ws_exec(s: &[char], i: usize) -> (res: usize)
    requires
        i <= s@.len(),
    ensures
        res == skip_while(s@, i as int, ws_pred()),
{
    let mut k = i;
    while k < s.len() && is_whitespace(s[k])
        invariant
            i <= k <= s@.len(),
            skip_while(s@, i as int, ws_pred()) == skip_while(s@, k as int, ws_pred()),
        decreases s@.len() - k,
    {
        k = k + 1;
    }
    k
}

/// The first index `>= i` that is whitespace.
pub fn skip_non_ws_exec(s: &[char], i: usize) -> (res: usize)
    requires
        i <= s@.len(),
    ensures
        res == skip_while(s@, i as int, non_ws_pred()),
{
    let mut k = i;
    while k < s.len() && !is_whitespace(s[k])
        invariant
            i <= k <= s@.len(),
            skip_while(s@, i as int, non_ws_pred()) == skip_while(s@, k as int, non_ws_pred()),
        decreases s@.len() - k,
    {
        k = k + 1;
    }
    k
}

/// The first index `>= i` whose character is not `d`.
pub fn skip_char_exec(s: &[char], i: usize, d: char) -> (res: usize)
    requires
        i <= s@.len(),
    ensures
        res == skip_while(s@, i as int, eq_pred(d)),
{
    let mut k = i;
    while k < s.len() && s[k] == d
        invariant
            i <= k <= s@.len(),
            skip_while(s@, i as int, eq_pred(d)) == skip_while(s@, k as int, eq_pred(d)),
        decreases s@.len() - k,
    {
        k = k + 1;
    }
    k
}

/// The first index `>= i` whose character is `d` (or `s.len()`).
pub fn find_char_exec(s: &[char], i: usize, d: char) -> (res: usize)
    requires
        i <= s@.len(),
    ensures
        res == skip_while(s@, i as int, ne_pred(d)),
{
    let mut k = i;
    while k < s.len() && s[k] != d
        invariant
            i <= k <= s@.len(),
            skip_while(s@, i as int, ne_pred(d)) == skip_while(s@, k as int, ne_pred(d)),
        decreases s@.len() - k,
    {
        k = k + 1;
    }
    k
}

/// Going down from `j`, the start of the run of whitespace that ends at `j`.
pub fn skip_back_ws_exec(s: &[char], j: usize) -> (res: usize)
    requires
        j <= s@.len(),
    ensures
        res == skip_back_while(s@, j as int, ws_pred()),
{
    let mut k = j;
    while k > 0 && is_whitespace(s[k - 1])
        invariant
            k <= j <= s@.len(),
            skip_back_while(s@, j as int, ws_pred()) == skip_back_while(s@, k as int, ws_pred()),
        decreases k,
    {
        k = k - 1;
    }
    k
}

/// Going down from `j`, the start of the run of `d` that ends at `j`.
pub fn skip_back_char_exec(s: &[char], j: usize, d: char) -> (res: usize)
    requires
        j <= s@.len(),
    ensures
        res == skip_back_while(s@, j as int, eq_pred(d)),
{
    let mut k = j;
    while k > 0 && s[k - 1] == d
        invariant
            k <= j <= s@.len(),
            skip_back_while(s@, j as int, eq_pred(d)) == skip_back_while(
                s@,
                k as int,
                eq_pred(d),
            ),
        decreases k,
    {
        k = k - 1;
    }
    k
}

/// `s` without leading whitespace (`str::trim_start`).
pub open spec fn trim_start_ws(s: Seq<char>) -> Seq<char> {
    s.skip(skip_while(s, 0, ws_pred()))
}

/// `s` without trailing whitespace (`str::trim_end`).
pub open spec fn trim_end_ws(s: Seq<char>) -> Seq<char> {
    s.take(skip_back_while(s, s.len() as int, ws_pred()))
}

/// `s` without leading and trailing whitespace (`str::trim`).
pub open spec fn trim_ws(s: Seq<char>) -> Seq<char> {
    trim_end_ws(trim_start_ws(s))
}

/// `s` without leading copies of `c` (`str::trim_start_matches(c)`).
pub open spec fn trim_start_char(s: Seq<char>, c: char) -> Seq<char> {
    s.skip(skip_while(s, 0, eq_pred(c)))
}

/// `s` without trailing copies of `c` (`str::trim_end_matches(c)`).
pub open spec fn trim_end_char(s: Seq<char>, c: char) -> Seq<char> {
    s.take(skip_back_while(s, s.len() as int, eq_pred(c)))
}

/// Trims leading and trailing whitespace (`str::trim`).
pub fn trim_exec(s: &[char]) -> (res: Vec<char>)
    ensures
        res@ == trim_ws(s@),
{
    let a = skip_ws_exec(s, 0);
    proof {
        lemma_skip_while(s@, 0, ws_pred());
    }
    let t = &s[a..s.len()];
    assert(t@ == trim_start_ws(s@));
    let b = skip_back_ws_exec(t, t.len());
    proof {
        lemma_skip_back_while(t@, t@.len() as int, ws_pred());
    }
    sub_chars(t, 0, b)
}

/// Removes leading copies of `c` (`str::trim_start_matches`).
pub fn trim_start_char_exec(s: &[char], c: char) -> (res: Vec<char>)
    ensures
        res@ == trim_start_char(s@, c),
{
    let a = skip_char_exec(s, 0, c);
    proof {
        lemma_skip_while(s@, 0, eq_pred(c));
    }
    sub_chars(s, a, s.len())
}

/// Removes trailing copies of `c` (`str::trim_end_matches`).
pub fn trim_end_char_exec(s: &[char], c: char) -> (res: Vec<char>)
    ensures
        res@ == trim_end_char(s@, c),
{
    let b = skip_back_char_exec(s, s.len(), c);
    proof {
        lemma_skip_back_while(s@, s@.len() as int, eq_pred(c));
    }
    sub_chars(s, 0, b)
}

/// The whitespace-separated words of `s[i..]` (`str::split_whitespace`).
pub open spec fn words_from(s: Seq<char>, i: int) -> Seq<Seq<char>>
    decreases s.len() - i,
{
    if i < 0 || i > s.len() {
        seq![]
    } else {
        let a = skip_while(s, i, ws_pred());
        if a >= s.len() {
            seq![]
        } else {
            let b = skip_while(s, a, non_ws_pred());
            proof {
                lemma_skip_while(s, i, ws_pred());
                lemma_skip_while(s, a, non_ws_pred());
            }
            seq![s.subrange(a, b)] + words_from(s, b)
        }
    }
}

/// The whitespace-separated words of `s`.
pub open spec fn words(s: Seq<char>) -> Seq<Seq<char>> {
    words_from(s, 0)
}

/// Splits `s` into its whitespace-separated words.
pub fn words_exec(s: &[char]) -> (res: Vec<Vec<char>>)
    ensures
        res.deep_view() == words(s@),
{
    let mut res: Vec<Vec<char>> = Vec::new();
    let mut i: usize = 0;
    loop
        invariant
            i <= s@.len(),
            words(s@) == res.deep_view() + words_from(s@, i as int),
        decreases s@.len() - i,
    {
        let a = skip_ws_exec(s, i);
        proof {
            lemma_skip_while(s@, i as int, ws_pred());
        }
        if a >= s.len() {
            assert(res.deep_view() + words_from(s@, i as int) =~= res.deep_view());
            return res;
        }
        let b = skip_non_ws_exec(s, a);
        proof {
            lemma_skip_while(s@, a as int, non_ws_pred());
        }
        let w = sub_chars(s, a, b);
        let ghost before = res.deep_view();
        let ghost before_vec = res;
        res.push(w);
        proof {
            lemma_deep_view_push(before_vec, res, w);
        }
        assert(before + words_from(s@, i as int) =~= res.deep_view() + words_from(
            s@,
            b as int,
        ));
        i = b;
    }
}

/// The pieces of `s[i..]` between occurrences of `d` (`str::split(d)`).
pub open spec fn split_from(s: Seq<char>, i: int, d: char) -> Seq<Seq<char>>
    decreases s.len() - i,
{
    if i < 0 || i > s.len() {
        seq![]
    } else {
        let j = skip_while(s, i, ne_pred(d));
        proof {
            lemma_skip_while(s, i, ne_pred(d));
        }
        if j >= s.len() {
            seq![s.skip(i)]
        } else {
            seq![s.subrange(i, j)] + split_from(s, j + 1, d)
        }
    }
}

/// The pieces of `s` between occurrences of `d`.
pub open spec fn split_char(s: Seq<char>, d: char) -> Seq<Seq<char>> {
    split_from(s, 0, d)
}

/// Splits `s` at every occurrence of `d`.
pub fn split_char_exec(s: &[char], d: char) -> (res: Vec<Vec<char>>)
    ensures
        res.deep_view() == split_char(s@, d),
{
    let mut res: Vec<Vec<char>> = Vec::new();
    let mut i: usize = 0;
    loop
        invariant
            i <= s@.len(),
            split_char(s@, d) == res.deep_view() + split_from(s@, i as int, d),
        decreases s@.len() - i,
    {
        let j = find_char_exec(s, i, d);
        proof {
            lemma_skip_while(s@, i as int, ne_pred(d));
        }
        let ghost before = res.deep_view();
        let ghost before_vec = res;
        if j >= s.len() {
            let w = sub_chars(s, i, s.len());
            res.push(w);
            proof {
                lemma_deep_view_push(before_vec, res, w);
            }
            assert(res.deep_view() =~= before + split_from(s@, i as int, d));
            return res;
        }
        let w = sub_chars(s, i, j);
        res.push(w);
        proof {
            lemma_deep_view_push(before_vec, res, w);
        }
        assert(before + split_from(s@, i as int, d) =~= res.deep_view() + split_from(
            s@,
            j + 1,
            d,
        ));
        i = j + 1;
    }
}

/// `split_from` always yields at least one piece.
pub proof fn lemma_split_from_nonempty(s: Seq<char>, i: int, d: char)
    requires
        0 <= i <= s.len(),
    ensures
        split_from(s, i, d).len() >= 1,
{
}

/// `s` without one trailing carriage return.
pub open spec fn strip_cr(s: Seq<char>) -> Seq<char> {
    if s.len() > 0 && s.last() == '\r' {
        s.drop_last()
    } else {
        s
    }
}

/// The lines of `s` (`str::lines`): split at `\n`, a `\r` right before a
/// `\n` is dropped, and a final empty line is not reported.
pub open spec fn lines(s: Seq<char>) -> Seq<Seq<char>> {
    let ps = split_char(s, '\n');
    if ps.len() == 0 {
        seq![]
    } else {
        ps.take(ps.len() - 1).map_values(|p: Seq<char>| strip_cr(p)) + if ps.last().len() == 0 {
            Seq::<Seq<char>>::empty()
        } else {
            seq![ps.last()]
        }
    }
}

/// Removes one trailing carriage return.
pub fn strip_cr_exec(s: &[char]) -> (res: Vec<char>)
    ensures
        res@ == strip_cr(s@),
{
    if s.len() > 0 && s[s.len() - 1] == '\r' {
        sub_chars(s, 0, s.len() - 1)
    } else {
        copy_chars(s)
    }
}

/// Splits `s` into lines (`str::lines`).
pub fn lines_exec(s: &[char]) -> (res: Vec<Vec<char>>)
    ensures
        res.deep_view() == lines(s@),
{
    let ps = split_char_exec(s, '\n');
    proof {
        lemma_split_from_nonempty(s@, 0, '\n');
    }
    let n = ps.len();
    let mut res: Vec<Vec<char>> = Vec::new();
    let mut k: usize = 0;
    while k + 1 < n
        invariant
            n == ps@.len(),
            n >= 1,
            k < n,
            ps.deep_view() == split_char(s@, '\n'),
            res.deep_view() =~= ps.deep_view().take(k as int).map_values(
                |p: Seq<char>| strip_cr(p),
            ),
        decreases n - k,
    {
        let line = strip_cr_exec(ps[k].as_slice());
        let ghost before_vec = res;
        res.push(line);
        proof {
            lemma_deep_view_push(before_vec, res, line);
            lemma_chars_deep_view(ps@[k as int]);
            assert(ps.deep_view().take(k + 1).map_values(|p: Seq<char>| strip_cr(p))
                =~= ps.deep_view().take(k as int).map_values(|p: Seq<char>| strip_cr(p)).push(
                strip_cr(ps@[k as int]@),
            ));
        }
        k = k + 1;
    }
    proof {
        lemma_chars_deep_view(ps@[n - 1]);
    }
    if ps[n - 1].len() > 0 {
        let last = copy_chars(ps[n - 1].as_slice());
        let ghost before_vec = res;
        res.push(last);
        proof {
            lemma_deep_view_push(before_vec, res, last);
        }
    }
    res
}

/// The piece of `s` between the first and the second occurrence of `pat`
/// (or the end of `s`): what `s.split(pat).nth(1)` yields.
pub open spec fn second_piece(s: Seq<char>, pat: Seq<char>) -> Option<Seq<char>> {
    match find(s, pat) {
        None => None,
        Some(i) => {
            let rest = s.skip(i + pat.len());
            Some(
                match find(rest, pat) {
                    Some(j) => rest.take(j),
                    None => rest,
                },
            )
        },
    }
}

/// `s.split(pat).nth(1)` for a non-empty `pat`.
pub fn second_piece_exec(s: &[char], pat: &[char]) -> (res: Option<Vec<char>>)
    requires
        pat@.len() > 0,
    ensures
        match res {
            Some(r) => second_piece(s@, pat@) == Some(r@),
            None => second_piece(s@, pat@) is None,
        },
{
    match find_exec(s, pat) {
        None => None,
        Some(i) => {
            proof {
                lemma_find_from(s@, pat@, 0);
            }
            let n = s.len();
            assert(i + pat@.len() <= n);
            let rest = sub_chars(s, i + pat.len(), n);
            assert(rest@ == s@.skip(i + pat@.len()));
            match find_exec(rest.as_slice(), pat) {
                Some(j) => {
                    proof {
                        lemma_find_from(rest@, pat@, 0);
                    }
                    Some(sub_chars(rest.as_slice(), 0, j))
                },
                None => Some(rest),
            }
        },
    }
}

// ---------------------------------------------------------------------------
// Decimal numerals
// ---------------------------------------------------------------------------

/// The decimal digit character for `d < 10`.
pub open spec fn digit_char(d: nat) -> char {
    seq!['0', '1', '2', '3', '4', '5', '6', '7', '8', '9'][d as int]
}

/// The decimal numeral of `n` (what `n.to_string()` gives).
pub open spec fn decimal(n: nat) -> Seq<char>
    decreases n,
{
    if n < 10 {
        seq![digit_char(n)]
    } else {
        decimal(n / 10) + seq![digit_char(n % 10)]
    }
}

/// A decimal digit character is one of `0`..`9`, and distinct digits give
/// distinct characters.
pub proof fn lemma_digit_char(d: nat, e: nat)
    requires
        d < 10,
        e < 10,
    ensures
        '0' <= digit_char(d) <= '9',
        digit_char(d) == digit_char(e) ==> d == e,
{
    let ds = seq!['0', '1', '2', '3', '4', '5', '6', '7', '8', '9'];
    assert(ds[0] == '0' && ds[1] == '1' && ds[2] == '2' && ds[3] == '3' && ds[4] == '4');
    assert(ds[5] == '5' && ds[6] == '6' && ds[7] == '7' && ds[8] == '8' && ds[9] == '9');
}

/// A decimal numeral is non-empty and made of digits only; it has more than
/// one digit exactly when the number is at least 10.
pub proof fn lemma_decimal_digits(n: nat)
    ensures
        decimal(n).len() >= 1,
        n >= 10 <==> decimal(n).len() >= 2,
        forall|i: int| 0 <= i < decimal(n).len() ==> '0' <= #[trigger] decimal(n)[i] <= '9',
    decreases n,
{
    lemma_digit_char(n % 10, n % 10);
    if n >= 10 {
        lemma_decimal_digits(n / 10);
        assert forall|i: int| 0 <= i < decimal(n).len() implies '0' <= #[trigger] decimal(n)[i]
            <= '9' by {
            if i < decimal(n / 10).len() {
                assert(decimal(n)[i] == decimal(n / 10)[i]);
            }
        }
    }
}

/// Distinct numbers have distinct decimal numerals.
pub proof fn lemma_decimal_injective(n: nat, m: nat)
    requires
        decimal(n) == decimal(m),
    ensures
        n == m,
    decreases n,
{
    lemma_decimal_digits(n);
    lemma_decimal_digits(m);
    lemma_digit_char(n % 10, m % 10);
    if n < 10 {
        assert(m < 10);
        assert(n % 10 == n && m % 10 == m);
        assert(decimal(n)[0] == digit_char(n) && decimal(m)[0] == digit_char(m));
    } else {
        assert(m >= 10);
        let a = decimal(n);
        assert(a.last() == digit_char(n % 10));
        assert(decimal(m).last() == digit_char(m % 10));
        assert(a.drop_last() =~= decimal(n / 10));
        assert(decimal(m).drop_last() =~= decimal(m / 10));
        lemma_decimal_injective(n / 10, m / 10);
        assert(n == 10 * (n / 10) + n % 10);
        assert(m == 10 * (m / 10) + m % 10);
    }
}

/// The decimal digit character for `d < 10`.
fn digit_char_exec(d: u64) -> (res: char)
    requires
        d < 10,
    ensures
        res == digit_char(d as nat),
{
    let digits = ['0', '1', '2', '3', '4', '5', '6', '7', '8', '9'];
    assert(digits@ == seq!['0', '1', '2', '3', '4', '5', '6', '7', '8', '9']);
    digits[d as usize]
}

/// The decimal numeral of `n`.
pub fn decimal_exec(n: u64) -> (res: Vec<char>)
    ensures
        res@ == decimal(n as nat),
    decreases n,
{
    if n < 10 {
        let mut v: Vec<char> = Vec::new();
        v.push(digit_char_exec(n));
        assert(v@ =~= seq![digit_char(n as nat)]);
        v
    } else {
        let mut v = decimal_exec(n / 10);
        v.push(digit_char_exec(n % 10));
        v
    }
}

} // verus!
