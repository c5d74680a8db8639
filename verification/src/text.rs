//! Character-sequence utilities shared by the ignore-rule matcher and the
//! metadata extractor: conversion between `&str` and `Vec<char>`, searching,
//! splitting, trimming, and slash-normalization.

use vstd::prelude::*;
use vstd::string::StrSliceExecFns;

verus! {

/// Replaces every backslash with a forward slash.
pub open spec fn spec_normalize(s: Seq<char>) -> Seq<char> {
    s.map_values(|c: char| if c == '\\' { '/' } else { c })
}

/// Normalization is idempotent: a slash-normalized text is unchanged by a
/// second normalization.
pub proof fn lemma_normalize_idempotent(s: Seq<char>)
    ensures
        spec_normalize(spec_normalize(s)) == spec_normalize(s),
{
    assert(spec_normalize(spec_normalize(s)) =~= spec_normalize(s));
}

/// `pat` occurs in `text` starting at position `i`.
pub open spec fn occurs_at(text: Seq<char>, pat: Seq<char>, i: int) -> bool {
    0 <= i && i + pat.len() <= text.len() && text.subrange(i, i + pat.len()) == pat
}

/// `pat` occurs somewhere in `text` at or after position `from`.
pub open spec fn has_sub_from(text: Seq<char>, pat: Seq<char>, from: int) -> bool {
    exists|i: int| from <= i && occurs_at(text, pat, i)
}

/// `pat` occurs somewhere in `text`.
pub open spec fn has_sub(text: Seq<char>, pat: Seq<char>) -> bool {
    has_sub_from(text, pat, 0)
}

/// The characters of `s` as a vector, in order.
pub fn chars_of(s: &str) -> (r: Vec<char>)
    ensures
        r@ == s@,
{
    let n = s.unicode_len();
    let mut r: Vec<char> = Vec::new();
    let mut i: usize = 0;
    while i < n
        invariant
            i <= n,
            n == s@.len(),
            r@ == s@.take(i as int),
        decreases n - i,
    {
        r.push(s.get_char(i));
        assert(s@.take(i + 1 as int) =~= s@.take(i as int).push(s@[i as int]));
        i = i + 1;
    }
    assert(s@.take(n as int) =~= s@);
    r
}

/// Relies on std's `String::push`, which appends the given character to the
/// end of the string.
#[verifier::external_body]
fn push_char(s: &mut String, c: char)
    ensures
        final(s)@ == old(s)@.push(c),
{
    s.push(c)
}

/// A `String` holding exactly the characters of `v`, in order.
pub fn string_of(v: &Vec<char>) -> (r: String)
    ensures
        r@ == v@,
{
    let mut r = String::new();
    let mut i: usize = 0;
    while i < v.len()
        invariant
            i <= v@.len(),
            r@ == v@.take(i as int),
        decreases v@.len() - i,
    {
        push_char(&mut r, v[i]);
        assert(v@.take(i + 1 as int) =~= v@.take(i as int).push(v@[i as int]));
        i = i + 1;
    }
    assert(v@.take(v@.len() as int) =~= v@);
    r
}

/// Slash-normalizes a path given as characters.
pub fn normalize_chars(path: &Vec<char>) -> (r: Vec<char>)
    ensures
        r@ == spec_normalize(path@),
{
    let mut r: Vec<char> = Vec::new();
    let mut i: usize = 0;
    while i < path.len()
        invariant
            i <= path@.len(),
            r@ == spec_normalize(path@.take(i as int)),
        decreases path@.len() - i,
    {
        let c = path[i];
        if c == '\\' {
            r.push('/');
        } else {
            r.push(c);
        }
        assert(spec_normalize(path@.take(i + 1 as int)) =~= spec_normalize(
            path@.take(i as int),
        ).push(if path@[i as int] == '\\' { '/' } else { path@[i as int] }));
        i = i + 1;
    }
    assert(path@.take(path@.len() as int) =~= path@);
    r
}

/// Whether `p` is a prefix of `t`.
pub fn is_prefix_chars(p: &Vec<char>, t: &Vec<char>) -> (r: bool)
    ensures
        r == p@.is_prefix_of(t@),
{
    if p.len() > t.len() {
        return false;
    }
    let mut i: usize = 0;
    while i < p.len()
        invariant
            i <= p@.len() <= t@.len(),
            forall|j: int| 0 <= j < i ==> p@[j] == t@[j],
        decreases p@.len() - i,
    {
        if p[i] != t[i] {
            assert(!p@.is_prefix_of(t@)) by {
                assert(p@[i as int] != t@.subrange(0, p@.len() as int)[i as int]);
            }
            return false;
        }
        i = i + 1;
    }
    assert(p@ =~= t@.subrange(0, p@.len() as int));
    true
}

/// Whether `p` is a suffix of `t`.
pub fn is_suffix_chars(p: &Vec<char>, t: &Vec<char>) -> (r: bool)
    ensures
        r == p@.is_suffix_of(t@),
{
    if p.len() > t.len() {
        return false;
    }
    let off: usize = t.len() - p.len();
    let mut i: usize = 0;
    while i < p.len()
        invariant
            i <= p@.len() <= t@.len(),
            off == t@.len() - p@.len(),
            forall|j: int| 0 <= j < i ==> p@[j] == t@[off + j],
        decreases p@.len() - i,
    {
        assert(off + i < t.len());
        if p[i] != t[off + i] {
            assert(!p@.is_suffix_of(t@)) by {
                assert(p@[i as int] != t@.subrange(
                    t@.len() - p@.len(),
                    t@.len() as int,
                )[i as int]);
            }
            return false;
        }
        i = i + 1;
    }
    assert(p@ =~= t@.subrange(t@.len() - p@.len(), t@.len() as int));
    true
}

/// Copies `s[a..b]` into a fresh vector.
pub fn copy_range(s: &Vec<char>, a: usize, b: usize) -> (r: Vec<char>)
    requires
        a <= b <= s@.len(),
    ensures
        r@ == s@.subrange(a as int, b as int),
{
    let mut r: Vec<char> = Vec::new();
    let mut i: usize = a;
    while i < b
        invariant
            a <= i <= b <= s@.len(),
            r@ == s@.subrange(a as int, i as int),
        decreases b - i,
    {
        r.push(s[i]);
        assert(s@.subrange(a as int, i + 1 as int) =~= s@.subrange(a as int, i as int).push(
            s@[i as int],
        ));
        i = i + 1;
    }
    r
}

/// The position of the first `c` in `s` at or after `from`, if any.
pub fn find_char_from(s: &Vec<char>, c: char, from: usize) -> (r: Option<usize>)
    ensures
        match r {
            Some(i) => from <= i < s@.len() && s@[i as int] == c && (forall|j: int|
                from <= j < i ==> s@[j] != c),
            None => forall|j: int| from <= j < s@.len() ==> s@[j] != c,
        },
{
    let mut i: usize = from;
    while i < s.len()
        invariant
            from <= i,
            forall|j: int| from <= j < i ==> s@[j] != c,
        decreases s@.len() - i,
    {
        if s[i] == c {
            return Some(i);
        }
        i = i + 1;
    }
    None
}

/// Whether `pat` occurs in `t` starting exactly at `i`.
pub fn matches_at(t: &Vec<char>, pat: &Vec<char>, i: usize) -> (r: bool)
    requires
        i + pat@.len() <= t@.len(),
    ensures
        r == occurs_at(t@, pat@, i as int),
{
    let mut j: usize = 0;
    while j < pat.len()
        invariant
            j <= pat@.len(),
            i + pat@.len() <= t@.len(),
            forall|k: int| 0 <= k < j ==> t@[i + k] == pat@[k],
        decreases pat@.len() - j,
    {
        assert(i + j < t.len());
        if t[i + j] != pat[j] {
            assert(!occurs_at(t@, pat@, i as int)) by {
                assert(t@.subrange(i as int, i + pat@.len())[j as int] == t@[i + j]);
            }
            return false;
        }
        j = j + 1;
    }
    assert(t@.subrange(i as int, i + pat@.len()) =~= pat@);
    true
}

/// The position of the leftmost occurrence of `pat` in `t` at or after
/// `from`, if any.
pub fn find_sub_from(t: &Vec<char>, pat: &Vec<char>, from: usize) -> (r: Option<usize>)
    ensures
        match r {
            Some(i) => from <= i && occurs_at(t@, pat@, i as int) && (forall|j: int|
                from <= j < i ==> !occurs_at(t@, pat@, j)),
            None => forall|j: int| from <= j ==> !occurs_at(t@, pat@, j),
        },
{
    if pat.len() > t.len() {
        return None;
    }
    let last: usize = t.len() - pat.len();
    let mut i: usize = from;
    if i > last {
        return None;
    }
    loop
        invariant
            from <= i <= last,
            last == t@.len() - pat@.len(),
            forall|j: int| from <= j < i ==> !occurs_at(t@, pat@, j),
        decreases last - i,
    {
        if matches_at(t, pat, i) {
            return Some(i);
        }
        if i == last {
            return None;
        }
        i = i + 1;
    }
}

/// Splits `s` into the runs of characters between occurrences of `c`.
/// The result always has at least one element; a separator at the start,
/// the end, or next to another separator contributes an empty run.
pub open spec fn spec_split(s: Seq<char>, c: char) -> Seq<Seq<char>>
    decreases s.len(),
{
    if s.len() == 0 {
        seq![s]
    } else if s[0] == c {
        seq![Seq::<char>::empty()] + spec_split(s.drop_first(), c)
    } else {
        let rest = spec_split(s.drop_first(), c);
        seq![seq![s[0]] + rest[0]] + rest.drop_first()
    }
}

pub proof fn lemma_split_len(s: Seq<char>, c: char)
    ensures
        spec_split(s, c).len() >= 1,
    decreases s.len(),
{
    if s.len() > 0 {
        lemma_split_len(s.drop_first(), c);
    }
}

/// The recursive first-character index of `c` in `s`.
pub open spec fn spec_find_char(s: Seq<char>, c: char) -> Option<int>
    decreases s.len(),
{
    if s.len() == 0 {
        None
    } else if s[0] == c {
        Some(0int)
    } else {
        match spec_find_char(s.drop_first(), c) {
            None => None,
            Some(i) => Some(i + 1),
        }
    }
}

pub proof fn lemma_find_char(s: Seq<char>, c: char)
    ensures
        match spec_find_char(s, c) {
            Some(i) => 0 <= i < s.len() && s[i] == c && (forall|j: int| 0 <= j < i ==> s[j] != c),
            None => forall|j: int| 0 <= j < s.len() ==> s[j] != c,
        },
    decreases s.len(),
{
    if s.len() > 0 && s[0] != c {
        let d = s.drop_first();
        lemma_find_char(d, c);
        assert(forall|j: int| 1 <= j < s.len() ==> s[j] == d[j - 1]);
        match spec_find_char(d, c) {
            Some(i) => {
                assert(s[i + 1] == d[i]);
                assert(forall|j: int| 0 <= j < i + 1 ==> s[j] != c) by {
                    assert(forall|j: int| 1 <= j < i + 1 ==> s[j] == d[j - 1] && d[j - 1] != c);
                }
            },
            None => {},
        }
    }
}

/// `spec_split` separates at the first occurrence of the separator.
pub proof fn lemma_split_unfold(s: Seq<char>, c: char)
    ensures
        match spec_find_char(s, c) {
            None => spec_split(s, c) == seq![s],
            Some(i) => spec_split(s, c) == seq![s.take(i)] + spec_split(s.skip(i + 1), c),
        },
    decreases s.len(),
{
    lemma_find_char(s, c);
    if s.len() == 0 {
        assert(spec_split(s, c) =~= seq![s]);
    } else if s[0] == c {
        assert(s.take(0) =~= Seq::<char>::empty());
        assert(s.skip(1) =~= s.drop_first());
        assert(spec_split(s, c) =~= seq![s.take(0)] + spec_split(s.skip(1), c));
    } else {
        let d = s.drop_first();
        lemma_split_unfold(d, c);
        lemma_find_char(d, c);
        lemma_split_len(d, c);
        match spec_find_char(d, c) {
            None => {
                assert(spec_split(d, c) == seq![d]);
                assert(seq![s[0]] + d =~= s);
                assert(spec_split(s, c) =~= seq![s]);
            },
            Some(m) => {
                let rest = spec_split(d, c);
                assert(rest == seq![d.take(m)] + spec_split(d.skip(m + 1), c));
                lemma_split_len(d.skip(m + 1), c);
                assert(rest[0] == d.take(m));
                assert(rest.drop_first() =~= spec_split(d.skip(m + 1), c));
                assert(seq![s[0]] + d.take(m) =~= s.take(m + 1));
                assert(d.skip(m + 1) =~= s.skip(m + 2));
                assert(spec_find_char(s, c) == Some(m + 1));
                assert(spec_split(s, c) =~= seq![s.take(m + 1)] + spec_split(s.skip(m + 2), c));
            },
        }
    }
}

/// The recursive first-occurrence index of `p` in `t`.
pub open spec fn spec_find_sub(t: Seq<char>, p: Seq<char>) -> Option<int>
    decreases t.len(),
{
    if p.is_prefix_of(t) {
        Some(0int)
    } else if t.len() == 0 {
        None
    } else {
        match spec_find_sub(t.drop_first(), p) {
            None => None,
            Some(i) => Some(i + 1),
        }
    }
}

pub proof fn lemma_find_sub(t: Seq<char>, p: Seq<char>)
    ensures
        match spec_find_sub(t, p) {
            Some(i) => occurs_at(t, p, i) && (forall|j: int| 0 <= j < i ==> !occurs_at(t, p, j)),
            None => forall|j: int| !occurs_at(t, p, j),
        },
    decreases t.len(),
{
    if p.is_prefix_of(t) {
        assert(occurs_at(t, p, 0)) by {
            assert(t.subrange(0, p.len() as int) =~= p);
        }
    } else if t.len() == 0 {
        assert forall|j: int| !occurs_at(t, p, j) by {
            if occurs_at(t, p, j) {
                assert(p =~= t.subrange(j, j + p.len()));
                assert(p.is_prefix_of(t));
            }
        }
    } else {
        let d = t.drop_first();
        lemma_find_sub(d, p);
        assert(!occurs_at(t, p, 0)) by {
            if occurs_at(t, p, 0) {
                assert(p == t.subrange(0, p.len() as int));
                assert(p.is_prefix_of(t));
            }
        }
        assert forall|j: int| 1 <= j && occurs_at(t, p, j) implies occurs_at(d, p, j - 1) by {
            assert(d.subrange(j - 1, j - 1 + p.len()) =~= t.subrange(j, j + p.len()));
        }
        assert forall|j: int| 1 <= j && occurs_at(d, p, j - 1) implies occurs_at(t, p, j) by {
            assert(d.subrange(j - 1, j - 1 + p.len()) =~= t.subrange(j, j + p.len()));
        }
    }
}

/// The views of a sequence of character vectors.
pub open spec fn seq_views(s: Seq<Vec<char>>) -> Seq<Seq<char>> {
    s.map_values(|v: Vec<char>| v@)
}

/// Splits `s` on `c`, as `spec_split` describes.
pub fn split_chars(s: &Vec<char>, c: char) -> (parts: Vec<Vec<char>>)
    ensures
        seq_views(parts@) == spec_split(s@, c),
        parts@.len() >= 1,
{
    let mut parts: Vec<Vec<char>> = Vec::new();
    let mut start: usize = 0;
    proof {
        assert(s@.skip(0) =~= s@);
        assert(seq_views(parts@) + spec_split(s@, c) =~= spec_split(s@, c));
    }
    loop
        invariant
            start <= s@.len(),
            spec_split(s@, c) == seq_views(parts@) + spec_split(s@.skip(start as int), c),
        decreases s@.len() - start,
    {
        let ghost tail = s@.skip(start as int);
        match find_char_from(s, c, start) {
            Some(i) => {
                let part = copy_range(s, start, i);
                proof {
                    lemma_find_char(tail, c);
                    assert(tail[i - start] == c);
                    assert(forall|j: int| 0 <= j < i - start ==> tail[j] != c);
                    assert(spec_find_char(tail, c) == Some(i - start as int));
                    lemma_split_unfold(tail, c);
                    assert(tail.take(i - start) =~= s@.subrange(start as int, i as int));
                    assert(tail.skip(i - start + 1) =~= s@.skip(i + 1 as int));
                    assert(seq_views(parts@.push(part)) =~= seq_views(parts@) + seq![part@]);
                    assert((seq_views(parts@) + seq![part@]) + spec_split(s@.skip(i + 1 as int), c)
                        =~= seq_views(parts@) + spec_split(tail, c));
                }
                parts.push(part);
                assert(i < s.len());
                start = i + 1;
            },
            None => {
                let part = copy_range(s, start, s.len());
                proof {
                    lemma_find_char(tail, c);
                    assert(forall|j: int| 0 <= j < tail.len() ==> tail[j] != c);
                    assert(spec_find_char(tail, c) is None);
                    lemma_split_unfold(tail, c);
                    assert(part@ == tail);
                    assert(seq_views(parts@.push(part)) =~= seq_views(parts@) + seq![part@]);
                    assert(seq_views(parts@) + seq![tail] =~= seq_views(parts@) + spec_split(
                        tail,
                        c,
                    ));
                    lemma_split_len(s@, c);
                }
                parts.push(part);
                return parts;
            },
        }
    }
}

/// The whitespace characters that are trimmed from the ends of an
/// ignore-file line.
pub open spec fn is_space(c: char) -> bool {
    c == ' ' || c == '\t' || c == '\r' || c == '\n'
}

pub open spec fn spec_trim_start(s: Seq<char>) -> Seq<char>
    decreases s.len(),
{
    if s.len() > 0 && is_space(s[0]) {
        spec_trim_start(s.drop_first())
    } else {
        s
    }
}

pub open spec fn spec_trim_end(s: Seq<char>) -> Seq<char>
    decreases s.len(),
{
    if s.len() > 0 && is_space(s.last()) {
        spec_trim_end(s.drop_last())
    } else {
        s
    }
}

/// `s` with leading and trailing whitespace removed.
pub open spec fn spec_trim(s: Seq<char>) -> Seq<char> {
    spec_trim_end(spec_trim_start(s))
}

proof fn lemma_trim_start_skip(s: Seq<char>, k: int)
    requires
        0 <= k <= s.len(),
        forall|j: int| 0 <= j < k ==> is_space(s[j]),
        k < s.len() ==> !is_space(s[k]),
    ensures
        spec_trim_start(s) == s.skip(k),
    decreases k,
{
    if k > 0 {
        lemma_trim_start_skip(s.drop_first(), k - 1);
        assert(s.drop_first().skip(k - 1) =~= s.skip(k));
    } else {
        assert(s.skip(0) =~= s);
    }
}

proof fn lemma_trim_end_take(s: Seq<char>, k: int)
    requires
        0 <= k <= s.len(),
        forall|j: int| k <= j < s.len() ==> is_space(s[j]),
        k > 0 ==> !is_space(s[k - 1]),
    ensures
        spec_trim_end(s) == s.take(k),
    decreases s.len(),
{
    if s.len() > k {
        lemma_trim_end_take(s.drop_last(), k);
        assert(s.drop_last().take(k) =~= s.take(k));
    } else {
        assert(s.take(k) =~= s);
    }
}

/// Whether `c` counts as trimmable whitespace.
pub fn is_space_char(c: char) -> (r: bool)
    ensures
        r == is_space(c),
{
    c == ' ' || c == '\t' || c == '\r' || c == '\n'
}

/// `s` with leading and trailing whitespace removed.
pub fn trim_chars(s: &Vec<char>) -> (r: Vec<char>)
    ensures
        r@ == spec_trim(s@),
{
    let mut a: usize = 0;
    while a < s.len() && is_space_char(s[a])
        invariant
            a <= s@.len(),
            forall|j: int| 0 <= j < a ==> is_space(s@[j]),
        decreases s@.len() - a,
    {
        a = a + 1;
    }
    proof {
        lemma_trim_start_skip(s@, a as int);
    }
    let mut b: usize = s.len();
    while b > a && is_space_char(s[b - 1])
        invariant
            a <= b <= s@.len(),
            forall|j: int| b <= j < s.len() ==> is_space(s@[j]),
        decreases b,
    {
        b = b - 1;
    }
    proof {
        let tail = s@.skip(a as int);
        assert(forall|j: int| b - a <= j < tail.len() ==> is_space(#[trigger] tail[j])) by {
            assert(forall|j: int|
                b - a <= j < tail.len() ==> #[trigger] tail[j] == s@[j + a]
                    && is_space(s@[j + a]));
        }
        lemma_trim_end_take(tail, b - a);
        assert(tail.take(b - a) =~= s@.subrange(a as int, b as int));
    }
    copy_range(s, a, b)
}

/// `s` with every leading `c` removed.
pub open spec fn spec_drop_leading(s: Seq<char>, c: char) -> Seq<char>
    decreases s.len(),
{
    if s.len() > 0 && s[0] == c {
        spec_drop_leading(s.drop_first(), c)
    } else {
        s
    }
}

proof fn lemma_drop_leading_skip(s: Seq<char>, c: char, k: int)
    requires
        0 <= k <= s.len(),
        forall|j: int| 0 <= j < k ==> s[j] == c,
        k < s.len() ==> s[k] != c,
    ensures
        spec_drop_leading(s, c) == s.skip(k),
    decreases k,
{
    if k > 0 {
        lemma_drop_leading_skip(s.drop_first(), c, k - 1);
        assert(s.drop_first().skip(k - 1) =~= s.skip(k));
    } else {
        assert(s.skip(0) =~= s);
    }
}

/// `s` with every leading `c` removed.
pub fn drop_leading_chars(s: &Vec<char>, c: char) -> (r: Vec<char>)
    ensures
        r@ == spec_drop_leading(s@, c),
{
    let mut k: usize = 0;
    while k < s.len() && s[k] == c
        invariant
            k <= s@.len(),
            forall|j: int| 0 <= j < k ==> s@[j] == c,
        decreases s@.len() - k,
    {
        k = k + 1;
    }
    proof {
        lemma_drop_leading_skip(s@, c, k as int);
        assert(s@.skip(k as int) =~= s@.subrange(k as int, s@.len() as int));
    }
    copy_range(s, k, s.len())
}

/// Appends all of `src` onto the end of `dst`.
pub fn append_chars(dst: &mut Vec<char>, src: &Vec<char>)
    ensures
        final(dst)@ == old(dst)@ + src@,
{
    let mut i: usize = 0;
    while i < src.len()
        invariant
            i <= src@.len(),
            dst@ == old(dst)@ + src@.take(i as int),
        decreases src@.len() - i,
    {
        dst.push(src[i]);
        assert(old(dst)@ + src@.take(i + 1 as int) =~= (old(dst)@ + src@.take(i as int)).push(
            src@[i as int],
        ));
        i = i + 1;
    }
    assert(old(dst)@ + src@.take(src@.len() as int) =~= old(dst)@ + src@);
}

/// Whether two character vectors hold the same characters.
pub fn chars_eq(a: &Vec<char>, b: &Vec<char>) -> (r: bool)
    ensures
        r == (a@ == b@),
{
    if a.len() != b.len() {
        return false;
    }
    let mut i: usize = 0;
    while i < a.len()
        invariant
            i <= a@.len(),
            a@.len() == b@.len(),
            forall|j: int| 0 <= j < i ==> a@[j] == b@[j],
        decreases a@.len() - i,
    {
        if a[i] != b[i] {
            return false;
        }
        i = i + 1;
    }
    assert(a@ =~= b@);
    true
}

/// The recursive last-character index of `c` in `s`.
pub open spec fn spec_rfind_char(s: Seq<char>, c: char) -> Option<int>
    decreases s.len(),
{
    if s.len() == 0 {
        None
    } else if s.last() == c {
        Some(s.len() - 1)
    } else {
        spec_rfind_char(s.drop_last(), c)
    }
}

pub proof fn lemma_rfind_char(s: Seq<char>, c: char)
    ensures
        match spec_rfind_char(s, c) {
            Some(i) => 0 <= i < s.len() && s[i] == c && (forall|j: int|
                i < j < s.len() ==> s[j] != c),
            None => forall|j: int| 0 <= j < s.len() ==> s[j] != c,
        },
    decreases s.len(),
{
    if s.len() > 0 && s.last() != c {
        let d = s.drop_last();
        lemma_rfind_char(d, c);
        assert(forall|j: int| 0 <= j < s.len() - 1 ==> s[j] == d[j]);
    }
}

/// The position of the last `c` in `s`, if any.
pub fn rfind_char(s: &Vec<char>, c: char) -> (r: Option<usize>)
    ensures
        spec_rfind_char(s@, c) == match r {
            Some(i) => Some(i as int),
            None => None::<int>,
        },
        match r {
            Some(i) => i < s@.len() && s@[i as int] == c && (forall|j: int|
                i < j < s@.len() ==> s@[j] != c),
            None => forall|j: int| 0 <= j < s@.len() ==> s@[j] != c,
        },
{
    let mut i: usize = s.len();
    while i > 0
        invariant
            i <= s@.len(),
            forall|j: int| i <= j < s@.len() ==> s@[j] != c,
        decreases i,
    {
        if s[i - 1] == c {
            proof {
                lemma_rfind_char(s@, c);
                match spec_rfind_char(s@, c) {
                    Some(m) => {
                        assert(m == i - 1);
                    },
                    None => {
                        assert(false);
                    },
                }
            }
            return Some(i - 1);
        }
        i = i - 1;
    }
    proof {
        lemma_rfind_char(s@, c);
    }
    None
}

/// Whether `pat` occurs anywhere in `t`.
pub fn contains_sub(t: &Vec<char>, pat: &Vec<char>) -> (r: bool)
    ensures
        r == has_sub(t@, pat@),
{
    match find_sub_from(t, pat, 0) {
        Some(_) => true,
        None => false,
    }
}

} // verus!
