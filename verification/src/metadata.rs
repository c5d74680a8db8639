//! Stateless, deterministic tag derivation from a node's relative path and
//! base name: extension, crate layer, artifact type, artifact identity, and
//! role.

use vstd::prelude::*;
use vstd::string::StringExecFns;
use crate::text::{
    chars_of, chars_eq, contains_sub, copy_range, find_char_from, has_sub, lemma_find_char,
    rfind_char, spec_find_char, spec_normalize, spec_rfind_char, spec_split, split_chars,
    string_of, normalize_chars,
};

verus! {

/// An ASCII letter.
pub open spec fn is_letter(c: char) -> bool {
    ('a' <= c && c <= 'z') || ('A' <= c && c <= 'Z')
}

/// An ASCII digit.
pub open spec fn is_digit(c: char) -> bool {
    '0' <= c && c <= '9'
}

fn letter_char(c: char) -> (r: bool)
    ensures
        r == is_letter(c),
{
    (c >= 'a' && c <= 'z') || (c >= 'A' && c <= 'Z')
}

fn digit_char(c: char) -> (r: bool)
    ensures
        r == is_digit(c),
{
    c >= '0' && c <= '9'
}

/// The extension of a base name: the characters after the last `.`, absent
/// when there is no dot or nothing follows it.
pub open spec fn spec_extension(name: Seq<char>) -> Option<Seq<char>> {
    match spec_rfind_char(name, '.') {
        None => None,
        Some(i) => if i + 1 < name.len() {
            Some(name.skip(i + 1))
        } else {
            None
        },
    }
}

/// Extracts the file extension from a base name, as `spec_extension`
/// describes.
pub fn extract_file_extension(name: &str) -> (r: Option<String>)
    ensures
        match r {
            None => spec_extension(name@) is None,
            Some(e) => spec_extension(name@) == Some(e@),
        },
{
    let v = chars_of(name);
    match rfind_char(&v, '.') {
        None => None,
        Some(i) => {
            assert(i < v.len());
            if i + 1 < v.len() {
                let e = copy_range(&v, i + 1, v.len());
                assert(e@ =~= name@.skip(i + 1 as int));
                Some(string_of(&e))
            } else {
                None
            }
        },
    }
}

/// What case folding returns for the given characters: the result depends
/// on the characters alone.
pub uninterp spec fn lower_of(s: Seq<char>) -> Seq<char>;

/// Relies on std's `str::to_lowercase`: the lowercase mapping of the
/// string's characters, a function of the characters alone.
#[verifier::external_body]
fn lowercase(s: &str) -> (r: String)
    ensures
        r@ == lower_of(s@),
{
    s.to_lowercase()
}

/// The crate layer tag: a case-insensitive match of a known marker segment
/// in the slash-normalized path; the first marker in the fixed order wins.
pub open spec fn spec_crate_layer(path: Seq<char>) -> Option<Seq<char>> {
    let t = spec_normalize(lower_of(path));
    if has_sub(t, "crates/backend"@) {
        Some("backend"@)
    } else if has_sub(t, "crates/frontend"@) {
        Some("frontend"@)
    } else if has_sub(t, "crates/contracts"@) {
        Some("contracts"@)
    } else {
        None
    }
}

/// Extracts the crate layer tag from a path, as `spec_crate_layer`
/// describes.
pub fn extract_crate_layer(path: &str) -> (r: Option<String>)
    ensures
        match r {
            None => spec_crate_layer(path@) is None,
            Some(l) => spec_crate_layer(path@) == Some(l@),
        },
{
    let folded = lowercase(path);
    let lv = chars_of(folded.as_str());
    let t = normalize_chars(&lv);
    if contains_sub(&t, &chars_of("crates/backend")) {
        Some(String::from_str("backend"))
    } else if contains_sub(&t, &chars_of("crates/frontend")) {
        Some(String::from_str("frontend"))
    } else if contains_sub(&t, &chars_of("crates/contracts")) {
        Some(String::from_str("contracts"))
    } else {
        None
    }
}

/// The artifact type tag: a case-sensitive match of a known directory
/// marker in the slash-normalized path; the first marker in the fixed order
/// wins.
pub open spec fn spec_artifact_type(path: Seq<char>) -> Option<Seq<char>> {
    let t = spec_normalize(path);
    if has_sub(t, "/domain/"@) {
        Some("domain"@)
    } else if has_sub(t, "/usecases/"@) {
        Some("usecase"@)
    } else if has_sub(t, "/shared/"@) {
        Some("shared"@)
    } else {
        None
    }
}

/// Extracts the artifact type tag from a path, as `spec_artifact_type`
/// describes.
pub fn extract_artifact_type(path: &str) -> (r: Option<String>)
    ensures
        match r {
            None => spec_artifact_type(path@) is None,
            Some(t) => spec_artifact_type(path@) == Some(t@),
        },
{
    let v = chars_of(path);
    let t = normalize_chars(&v);
    if contains_sub(&t, &chars_of("/domain/")) {
        Some(String::from_str("domain"))
    } else if contains_sub(&t, &chars_of("/usecases/")) {
        Some(String::from_str("usecase"))
    } else if contains_sub(&t, &chars_of("/shared/")) {
        Some(String::from_str("shared"))
    } else {
        None
    }
}

/// The characters before position `u` form a non-empty ASCII letter run
/// followed by a non-empty ASCII digit run.
pub open spec fn letters_then_digits(seg: Seq<char>, u: int) -> bool {
    exists|m: int|
        1 <= m < u && is_digit(#[trigger] seg[m]) && (forall|j: int|
            0 <= j < m ==> is_letter(#[trigger] seg[j])) && (forall|j: int|
            m <= j < u ==> is_digit(#[trigger] seg[j]))
}

/// A path segment carries an artifact identity when the prefix closed by
/// its first underscore is a letter run followed by a digit run, both
/// non-empty — a code such as a letter-digits marker directly before `_`.
pub open spec fn segment_qualifies(seg: Seq<char>) -> bool {
    match spec_find_char(seg, '_') {
        None => false,
        Some(u) => letters_then_digits(seg, u),
    }
}

/// Decides `letters_then_digits` by measuring the leading letter run and
/// then demanding digits up to `u`.
fn letter_digit_run(seg: &Vec<char>, u: usize) -> (r: bool)
    requires
        u <= seg@.len(),
    ensures
        r == letters_then_digits(seg@, u as int),
{
    let mut m: usize = 0;
    while m < u && letter_char(seg[m])
        invariant
            m <= u <= seg@.len(),
            forall|j: int| 0 <= j < m ==> is_letter(#[trigger] seg@[j]),
        decreases u - m,
    {
        m = m + 1;
    }
    assert(m == u || !is_letter(seg@[m as int]));
    if m == 0 || m == u {
        proof {
            assert forall|w: int|
                #![trigger seg@[w]]
                1 <= w < u as int implies !((forall|j: int|
                0 <= j < w ==> is_letter(#[trigger] seg@[j])) && (forall|j: int|
                w <= j < u as int ==> is_digit(#[trigger] seg@[j]))) by {
                if m == 0 {
                    assert(!is_letter(seg@[0]));
                } else {
                    assert(is_letter(seg@[w]));
                }
            }
            assert(!letters_then_digits(seg@, u as int));
        }
        return false;
    }
    assert(!is_letter(seg@[m as int]));
    let mut j: usize = m;
    while j < u && digit_char(seg[j])
        invariant
            m <= j <= u <= seg@.len(),
            forall|i: int| m <= i < j ==> is_digit(#[trigger] seg@[i]),
        decreases u - j,
    {
        j = j + 1;
    }
    if j == u {
        proof {
            assert(1 <= (m as int) && (m as int) < (u as int) && is_digit(seg@[m as int]) && (
            forall|jj: int|
                0 <= jj < m as int ==> is_letter(#[trigger] seg@[jj])) && (forall|jj: int|
                m as int <= jj < u as int ==> is_digit(#[trigger] seg@[jj])));
        }
        true
    } else {
        assert(!is_digit(seg@[j as int]));
        proof {
            assert forall|w: int|
                #![trigger seg@[w]]
                1 <= w < u as int implies !((forall|jj: int|
                0 <= jj < w ==> is_letter(#[trigger] seg@[jj])) && (forall|jj: int|
                w <= jj < u as int ==> is_digit(#[trigger] seg@[jj]))) by {
                if w <= m as int {
                    assert(m <= j < u);
                } else {
                    assert(!is_letter(seg@[m as int]));
                }
            }
            assert(!letters_then_digits(seg@, u as int));
        }
        false
    }
}

/// The first qualifying segment, scanning left to right.
pub open spec fn spec_first_qualifying(segs: Seq<Seq<char>>) -> Option<Seq<char>>
    decreases segs.len(),
{
    if segs.len() == 0 {
        None
    } else if segment_qualifies(segs[0]) {
        Some(segs[0])
    } else {
        spec_first_qualifying(segs.drop_first())
    }
}

proof fn lemma_first_qualifying_skip(segs: Seq<Seq<char>>, k: int)
    requires
        0 <= k <= segs.len(),
        forall|j: int| 0 <= j < k ==> !segment_qualifies(#[trigger] segs[j]),
    ensures
        spec_first_qualifying(segs) == spec_first_qualifying(segs.skip(k)),
    decreases k,
{
    if k > 0 {
        lemma_first_qualifying_skip(segs.drop_first(), k - 1);
        assert(segs.drop_first().skip(k - 1) =~= segs.skip(k));
    } else {
        assert(segs.skip(0) =~= segs);
    }
}

/// The artifact identity of a path: the code prefix (letters, digits, and
/// the underscore) and the remainder of the first qualifying segment.
pub open spec fn spec_artifact_id_name(path: Seq<char>) -> Option<(Seq<char>, Seq<char>)> {
    match spec_first_qualifying(spec_split(spec_normalize(path), '/')) {
        None => None,
        Some(seg) => match spec_find_char(seg, '_') {
            None => None,
            Some(u) => Some((seg.take(u + 1), seg.skip(u + 1))),
        },
    }
}

/// Extracts the artifact identity from a path, as `spec_artifact_id_name`
/// describes: both components are present for the first qualifying
/// segment, and both absent when no segment qualifies.
pub fn extract_artifact_id_name(path: &str) -> (r: (Option<String>, Option<String>))
    ensures
        match (r.0, r.1) {
            (Some(id), Some(name)) => spec_artifact_id_name(path@) == Some((id@, name@)),
            (None, None) => spec_artifact_id_name(path@) is None,
            _ => false,
        },
{
    let v = chars_of(path);
    let norm = normalize_chars(&v);
    let segments = split_chars(&norm, '/');
    let ghost segs = spec_split(spec_normalize(path@), '/');
    assert(forall|m: int| 0 <= m < segments@.len() ==> segs[m] == #[trigger] segments@[m]@);
    let mut k: usize = 0;
    while k < segments.len()
        invariant
            k <= segments@.len(),
            segs == spec_split(spec_normalize(path@), '/'),
            segs.len() == segments@.len(),
            forall|m: int| 0 <= m < segments@.len() ==> segs[m] == #[trigger] segments@[m]@,
            forall|j: int| 0 <= j < k ==> !segment_qualifies(#[trigger] segs[j]),
        decreases segments@.len() - k,
    {
        let seg = &segments[k];
        let ghost sv = segs[k as int];
        proof {
            lemma_find_char(sv, '_');
        }
        match find_char_from(seg, '_', 0) {
            Some(u) => {
                proof {
                    assert(spec_find_char(sv, '_') == Some(u as int));
                }
                if letter_digit_run(seg, u) {
                    assert(segment_qualifies(sv));
                    proof {
                        lemma_first_qualifying_skip(segs, k as int);
                        assert(spec_first_qualifying(segs.skip(k as int)) == Some(sv));
                    }
                    assert(u < seg.len());
                    let id = copy_range(seg, 0, u + 1);
                    let name = copy_range(seg, u + 1, seg.len());
                    assert(id@ =~= sv.take(u + 1 as int));
                    assert(name@ =~= sv.skip(u + 1 as int));
                    return (Some(string_of(&id)), Some(string_of(&name)));
                }
                assert(!segment_qualifies(sv));
            },
            None => {
                proof {
                    assert(spec_find_char(sv, '_') is None);
                }
                assert(!segment_qualifies(sv));
            },
        }
        k = k + 1;
    }
    proof {
        lemma_first_qualifying_skip(segs, segs.len() as int);
        assert(segs.skip(segs.len() as int) =~= Seq::<Seq<char>>::empty());
    }
    (None, None)
}

/// The role tag: directories carry none; a path with a segment named `ui`
/// is a user-interface file; otherwise a few well-known base names map to
/// fixed tags.
pub open spec fn spec_role(path: Seq<char>, filename: Seq<char>, is_directory: bool) -> Option<
    Seq<char>,
> {
    if is_directory {
        None
    } else {
        let segs = spec_split(spec_normalize(path), '/');
        if exists|k: int| 0 <= k < segs.len() && #[trigger] segs[k] == "ui"@ {
            Some("ui"@)
        } else if filename == "model.rs"@ {
            Some("model"@)
        } else if filename == "repository.rs"@ {
            Some("repository"@)
        } else if filename == "service.rs"@ {
            Some("service"@)
        } else {
            None
        }
    }
}

/// Extracts the role tag from a path and base name, as `spec_role`
/// describes.
pub fn extract_role(path: &str, filename: &str, is_directory: bool) -> (r: Option<String>)
    ensures
        match r {
            None => spec_role(path@, filename@, is_directory) is None,
            Some(t) => spec_role(path@, filename@, is_directory) == Some(t@),
        },
{
    if is_directory {
        return None;
    }
    let v = chars_of(path);
    let norm = normalize_chars(&v);
    let segments = split_chars(&norm, '/');
    let ghost segs = spec_split(spec_normalize(path@), '/');
    assert(forall|m: int| 0 <= m < segments@.len() ==> segs[m] == #[trigger] segments@[m]@);
    let ui = chars_of("ui");
    let mut k: usize = 0;
    while k < segments.len()
        invariant
            k <= segments@.len(),
            !is_directory,
            ui@ == "ui"@,
            segs == spec_split(spec_normalize(path@), '/'),
            segs.len() == segments@.len(),
            forall|m: int| 0 <= m < segments@.len() ==> segs[m] == #[trigger] segments@[m]@,
            forall|j: int| 0 <= j < k ==> #[trigger] segs[j] != "ui"@,
        decreases segments@.len() - k,
    {
        if chars_eq(&segments[k], &ui) {
            return Some(String::from_str("ui"));
        }
        k = k + 1;
    }
    let f = chars_of(filename);
    if chars_eq(&f, &chars_of("model.rs")) {
        Some(String::from_str("model"))
    } else if chars_eq(&f, &chars_of("repository.rs")) {
        Some(String::from_str("repository"))
    } else if chars_eq(&f, &chars_of("service.rs")) {
        Some(String::from_str("service"))
    } else {
        None
    }
}

} // verus!
