//! Ignore-rule compilation and evaluation: the text of an ignore file is
//! compiled into an ordered list of patterns, and a path is excluded exactly
//! when the last applicable pattern that matches it is not a negation.

use vstd::prelude::*;
use crate::text::{
    chars_of, copy_range, drop_leading_chars, find_sub_from, is_prefix_chars, is_suffix_chars,
    lemma_find_sub, occurs_at, spec_drop_leading, spec_find_sub, spec_normalize, spec_split,
    spec_trim, seq_views, split_chars, string_of, normalize_chars, trim_chars,
};

verus! {

/// One compiled ignore rule.
pub struct GitignorePattern {
    /// The pattern text after the marker characters are stripped.
    pub pattern: String,
    /// A leading `!` was present: a match re-includes instead of excluding.
    pub is_negation: bool,
    /// A trailing `/` was present: the rule applies only to directories.
    pub is_directory_only: bool,
    /// A leading `/` was present: the rule is anchored to the scan root.
    pub is_rooted: bool,
}

/// The mathematical model of one compiled ignore rule.
pub struct PatternModel {
    pub pattern: Seq<char>,
    pub is_negation: bool,
    pub is_directory_only: bool,
    pub is_rooted: bool,
}

impl View for GitignorePattern {
    type V = PatternModel;

    open spec fn view(&self) -> PatternModel {
        PatternModel {
            pattern: self.pattern@,
            is_negation: self.is_negation,
            is_directory_only: self.is_directory_only,
            is_rooted: self.is_rooted,
        }
    }
}

/// Matching for the tail parts of a single-`*` pattern: each part must occur
/// in order at or after `from`, and the final part must end the text.
pub open spec fn spec_parts_match_from(parts: Seq<Seq<char>>, text: Seq<char>, from: int) -> bool
    decreases parts.len(),
{
    if parts.len() <= 1 {
        let last = if parts.len() == 0 {
            Seq::<char>::empty()
        } else {
            parts[0]
        };
        from + last.len() <= text.len() && last.is_suffix_of(text)
    } else {
        exists|i: int|
            from <= i && #[trigger] occurs_at(text, parts[0], i) && spec_parts_match_from(
                parts.drop_first(),
                text,
                i + parts[0].len(),
            )
    }
}

/// Matching for a pattern without `**`: split on `*`, the first part must be
/// a prefix, the last part a suffix, and the parts in between must occur in
/// left-to-right order without overlapping.
pub open spec fn spec_star_match(pattern: Seq<char>, text: Seq<char>) -> bool {
    let parts = spec_split(pattern, '*');
    if parts.len() == 1 {
        parts[0].is_prefix_of(text) && parts[0].is_suffix_of(text)
    } else {
        parts[0].is_prefix_of(text) && spec_parts_match_from(
            parts.drop_first(),
            text,
            parts[0].len() as int,
        )
    }
}

/// Glob matching: a pattern containing `**` is split at its first occurrence
/// into a literal prefix and a suffix (leading slashes dropped), and matches
/// any text with that prefix and suffix; otherwise `*`-part matching applies.
pub open spec fn spec_glob_match(pattern: Seq<char>, text: Seq<char>) -> bool {
    match spec_find_sub(pattern, seq!['*', '*']) {
        Some(i) => {
            let prefix = pattern.take(i);
            let suffix = spec_drop_leading(pattern.skip(i + 2), '/');
            prefix.is_prefix_of(text) && suffix.is_suffix_of(text)
        },
        None => spec_star_match(pattern, text),
    }
}

/// A later lower bound is harder to satisfy: tail-part matching from `b`
/// implies tail-part matching from any earlier `a`.
pub proof fn lemma_parts_match_monotone(parts: Seq<Seq<char>>, text: Seq<char>, a: int, b: int)
    requires
        a <= b,
        spec_parts_match_from(parts, text, b),
    ensures
        spec_parts_match_from(parts, text, a),
    decreases parts.len(),
{
    if parts.len() > 1 {
        let i = choose|i: int|
            b <= i && #[trigger] occurs_at(text, parts[0], i) && spec_parts_match_from(
                parts.drop_first(),
                text,
                i + parts[0].len(),
            );
        assert(a <= i);
    }
}

fn star_match_chars(pattern: &Vec<char>, text: &Vec<char>) -> (r: bool)
    ensures
        r == spec_star_match(pattern@, text@),
{
    let parts = split_chars(pattern, '*');
    let ghost sv = seq_views(parts@);
    assert(parts@.len() == sv.len());
    assert(forall|k: int| 0 <= k < parts@.len() ==> sv[k] == #[trigger] parts@[k]@);
    if !is_prefix_chars(&parts[0], text) {
        return false;
    }
    if parts.len() == 1 {
        return is_suffix_chars(&parts[0], text);
    }
    let ghost target = spec_star_match(pattern@, text@);
    let mut pos: usize = parts[0].len();
    let mut k: usize = 1;
    proof {
        assert(sv.skip(1) =~= sv.drop_first());
    }
    while k < parts.len() - 1
        invariant
            1 <= k < parts@.len(),
            pos <= text@.len(),
            sv == seq_views(parts@),
            sv.len() == parts@.len(),
            forall|m: int| 0 <= m < parts@.len() ==> sv[m] == #[trigger] parts@[m]@,
            target == spec_star_match(pattern@, text@),
            target == spec_parts_match_from(sv.skip(k as int), text@, pos as int),
        decreases parts@.len() - k,
    {
        let part = &parts[k];
        let ghost tailparts = sv.skip(k as int);
        assert(tailparts.len() > 1);
        assert(tailparts[0] == part@);
        match find_sub_from(text, part, pos) {
            Some(j) => {
                proof {
                    // the leftmost occurrence preserves matchability
                    assert(tailparts.drop_first() =~= sv.skip(k + 1 as int));
                    if spec_parts_match_from(tailparts, text@, pos as int) {
                        let i = choose|i: int|
                            pos <= i && #[trigger] occurs_at(text@, tailparts[0], i)
                                && spec_parts_match_from(
                                tailparts.drop_first(),
                                text@,
                                i + tailparts[0].len(),
                            );
                        assert(j <= i);
                        lemma_parts_match_monotone(
                            tailparts.drop_first(),
                            text@,
                            j + part@.len(),
                            i + part@.len(),
                        );
                    }
                    if spec_parts_match_from(sv.skip(k + 1 as int), text@, j + part@.len()) {
                        assert(spec_parts_match_from(tailparts, text@, pos as int));
                    }
                }
                assert(j + part.len() <= text.len());
                pos = j + part.len();
            },
            None => {
                proof {
                    if spec_parts_match_from(tailparts, text@, pos as int) {
                        let i = choose|i: int|
                            pos <= i && #[trigger] occurs_at(text@, tailparts[0], i)
                                && spec_parts_match_from(
                                tailparts.drop_first(),
                                text@,
                                i + tailparts[0].len(),
                            );
                    }
                }
                return false;
            },
        }
        k = k + 1;
    }
    let last = &parts[k];
    let ghost tailparts = sv.skip(k as int);
    assert(tailparts.len() == 1);
    assert(tailparts[0] == last@);
    if last.len() <= text.len() - pos {
        assert(pos + last@.len() <= text@.len());
        is_suffix_chars(last, text)
    } else {
        false
    }
}

/// Whether glob pattern `pattern` matches `text`, as `spec_glob_match`
/// describes.
pub fn glob_match_chars(pattern: &Vec<char>, text: &Vec<char>) -> (r: bool)
    ensures
        r == spec_glob_match(pattern@, text@),
{
    let mut dstar: Vec<char> = Vec::new();
    dstar.push('*');
    dstar.push('*');
    proof {
        assert(dstar@ =~= seq!['*', '*']);
        lemma_find_sub(pattern@, dstar@);
    }
    match find_sub_from(pattern, &dstar, 0) {
        Some(i) => {
            proof {
                assert(spec_find_sub(pattern@, dstar@) == Some(i as int));
            }
            let prefix = copy_range(pattern, 0, i);
            assert(i + 2 <= pattern.len());
            let raw_suffix = copy_range(pattern, i + 2, pattern.len());
            let suffix = drop_leading_chars(&raw_suffix, '/');
            proof {
                assert(prefix@ =~= pattern@.take(i as int));
                assert(raw_suffix@ =~= pattern@.skip(i + 2 as int));
            }
            let p = is_prefix_chars(&prefix, text);
            let s = is_suffix_chars(&suffix, text);
            p && s
        },
        None => {
            proof {
                assert(spec_find_sub(pattern@, dstar@) is None);
            }
            star_match_chars(pattern, text)
        },
    }
}

/// Whether pattern text `pattern` matches some glob target derived from
/// `path`: the slash-normalized path itself, and — for unrooted patterns —
/// each of its slash-delimited segments.
pub open spec fn spec_matches_pattern(pattern: Seq<char>, is_rooted: bool, path: Seq<char>) -> bool {
    let norm = spec_normalize(path);
    if is_rooted {
        spec_glob_match(pattern, norm)
    } else {
        spec_glob_match(pattern, norm) || exists|k: int|
            0 <= k < spec_split(norm, '/').len() && spec_glob_match(
                pattern,
                #[trigger] spec_split(norm, '/')[k],
            )
    }
}

pub fn matches_pattern_chars(pattern: &Vec<char>, is_rooted: bool, path: &Vec<char>) -> (r: bool)
    ensures
        r == spec_matches_pattern(pattern@, is_rooted, path@),
{
    let norm = normalize_chars(path);
    if glob_match_chars(pattern, &norm) {
        return true;
    }
    if is_rooted {
        return false;
    }
    let segments = split_chars(&norm, '/');
    let ghost segs = spec_split(norm@, '/');
    assert(forall|m: int| 0 <= m < segments@.len() ==> segs[m] == #[trigger] segments@[m]@);
    let mut k: usize = 0;
    while k < segments.len()
        invariant
            !is_rooted,
            k <= segments@.len(),
            segs == spec_split(norm@, '/'),
            segs.len() == segments@.len(),
            norm@ == spec_normalize(path@),
            forall|m: int| 0 <= m < segments@.len() ==> segs[m] == #[trigger] segments@[m]@,
            forall|m: int| 0 <= m < k ==> !spec_glob_match(pattern@, #[trigger] segs[m]),
        decreases segments@.len() - k,
    {
        if glob_match_chars(pattern, &segments[k]) {
            assert(spec_glob_match(pattern@, spec_split(spec_normalize(path@), '/')[k as int]));
            return true;
        }
        k = k + 1;
    }
    false
}

/// Parses one already-trimmed ignore-file line: a leading `!` marks
/// negation, then a trailing `/` marks directory-only, then a leading `/`
/// marks rooted; each marker is stripped in that order. A line whose
/// remaining text is empty yields no pattern.
pub open spec fn spec_parse_pattern(line: Seq<char>) -> Option<PatternModel> {
    let neg = line.len() > 0 && line[0] == '!';
    let l1 = if neg {
        line.drop_first()
    } else {
        line
    };
    let dir = l1.len() > 0 && l1.last() == '/';
    let l2 = if dir {
        l1.drop_last()
    } else {
        l1
    };
    let rooted = l2.len() > 0 && l2[0] == '/';
    let pat = if rooted {
        l2.drop_first()
    } else {
        l2
    };
    if pat.len() == 0 {
        None
    } else {
        Some(
            PatternModel {
                pattern: pat,
                is_negation: neg,
                is_directory_only: dir,
                is_rooted: rooted,
            },
        )
    }
}

/// The patterns a single raw ignore-file line contributes: none for blank
/// and comment lines, at most one otherwise.
pub open spec fn spec_line_patterns(line: Seq<char>) -> Seq<PatternModel> {
    let t = spec_trim(line);
    if t.len() == 0 || t[0] == '#' {
        Seq::<PatternModel>::empty()
    } else {
        match spec_parse_pattern(t) {
            None => Seq::<PatternModel>::empty(),
            Some(p) => seq![p],
        }
    }
}

pub open spec fn spec_lines_to_patterns(lines: Seq<Seq<char>>) -> Seq<PatternModel>
    decreases lines.len(),
{
    if lines.len() == 0 {
        Seq::<PatternModel>::empty()
    } else {
        spec_line_patterns(lines[0]) + spec_lines_to_patterns(lines.drop_first())
    }
}

/// The ordered patterns compiled from the full text of an ignore file.
pub open spec fn spec_parse_content(text: Seq<char>) -> Seq<PatternModel> {
    spec_lines_to_patterns(spec_split(text, '\n'))
}

proof fn lemma_lines_to_patterns_concat(a: Seq<Seq<char>>, b: Seq<Seq<char>>)
    ensures
        spec_lines_to_patterns(a + b) == spec_lines_to_patterns(a) + spec_lines_to_patterns(b),
    decreases a.len(),
{
    if a.len() == 0 {
        assert(a + b =~= b);
        assert(spec_lines_to_patterns(a) + spec_lines_to_patterns(b) =~= spec_lines_to_patterns(
            b,
        ));
    } else {
        lemma_lines_to_patterns_concat(a.drop_first(), b);
        assert((a + b).drop_first() =~= a.drop_first() + b);
        assert((a + b)[0] == a[0]);
        assert(spec_line_patterns(a[0]) + (spec_lines_to_patterns(a.drop_first())
            + spec_lines_to_patterns(b)) =~= (spec_line_patterns(a[0]) + spec_lines_to_patterns(
            a.drop_first(),
        )) + spec_lines_to_patterns(b));
    }
}

/// The views of a sequence of compiled patterns.
pub open spec fn pattern_views(s: Seq<GitignorePattern>) -> Seq<PatternModel> {
    s.map_values(|p: GitignorePattern| p@)
}

/// The compiled, ordered rules of one ignore file.
pub struct GitignoreParser {
    pub patterns: Vec<GitignorePattern>,
}

impl View for GitignoreParser {
    type V = Seq<PatternModel>;

    open spec fn view(&self) -> Seq<PatternModel> {
        pattern_views(self.patterns@)
    }
}

/// Whether a pattern participates in the decision for a candidate of the
/// given kind: directory-only patterns are skipped for files.
pub open spec fn pattern_applies(p: PatternModel, is_directory: bool) -> bool {
    !p.is_directory_only || is_directory
}

/// The exclusion decision: the last applicable pattern that matches decides;
/// with no applicable match the path stays included.
pub open spec fn spec_is_excluded(
    ps: Seq<PatternModel>,
    path: Seq<char>,
    is_directory: bool,
) -> bool
    decreases ps.len(),
{
    if ps.len() == 0 {
        false
    } else {
        let last = ps.last();
        if pattern_applies(last, is_directory) && spec_matches_pattern(
            last.pattern,
            last.is_rooted,
            path,
        ) {
            !last.is_negation
        } else {
            spec_is_excluded(ps.drop_last(), path, is_directory)
        }
    }
}

impl GitignoreParser {
    /// Compiles the full text of an ignore file. Blank lines, comment lines,
    /// and lines whose pattern text is empty after the markers are stripped
    /// are dropped; nothing else can fail.
    pub fn from_content(text: &str) -> (parser: GitignoreParser)
        ensures
            parser@ == spec_parse_content(text@),
    {
        let tv = chars_of(text);
        let lines = split_chars(&tv, '\n');
        let ghost lviews = seq_views(lines@);
        assert(forall|m: int| 0 <= m < lines@.len() ==> lviews[m] == #[trigger] lines@[m]@);
        let mut patterns: Vec<GitignorePattern> = Vec::new();
        let mut k: usize = 0;
        proof {
            assert(lviews.take(0) =~= Seq::<Seq<char>>::empty());
            assert(pattern_views(patterns@) =~= spec_lines_to_patterns(lviews.take(0)));
        }
        while k < lines.len()
            invariant
                k <= lines@.len(),
                lviews == seq_views(lines@),
                lviews.len() == lines@.len(),
                forall|m: int| 0 <= m < lines@.len() ==> lviews[m] == #[trigger] lines@[m]@,
                pattern_views(patterns@) == spec_lines_to_patterns(lviews.take(k as int)),
            decreases lines@.len() - k,
        {
            let t = trim_chars(&lines[k]);
            let ghost line_pats = spec_line_patterns(lviews[k as int]);
            if t.len() > 0 && t[0] != '#' {
                match Self::parse_pattern_chars(&t) {
                    Some(p) => {
                        proof {
                            assert(line_pats =~= seq![p@]);
                            assert(pattern_views(patterns@.push(p)) =~= pattern_views(patterns@)
                                + seq![p@]);
                        }
                        patterns.push(p);
                    },
                    None => {
                        assert(line_pats =~= Seq::<PatternModel>::empty());
                        assert(pattern_views(patterns@) + line_pats =~= pattern_views(patterns@));
                    },
                }
            } else {
                assert(line_pats =~= Seq::<PatternModel>::empty());
                assert(pattern_views(patterns@) + line_pats =~= pattern_views(patterns@));
            }
            proof {
                let single = seq![lviews[k as int]];
                assert(single.len() == 1);
                assert(single[0] == lviews[k as int]);
                assert(single.drop_first() =~= Seq::<Seq<char>>::empty());
                assert(spec_lines_to_patterns(Seq::<Seq<char>>::empty())
                    == Seq::<PatternModel>::empty());
                assert(spec_lines_to_patterns(single) == spec_line_patterns(lviews[k as int])
                    + spec_lines_to_patterns(single.drop_first()));
                assert(line_pats + Seq::<PatternModel>::empty() =~= line_pats);
                lemma_lines_to_patterns_concat(lviews.take(k as int), single);
                assert(lviews.take(k + 1 as int) =~= lviews.take(k as int) + single);
            }
            k = k + 1;
        }
        assert(lviews.take(lviews.len() as int) =~= lviews);
        GitignoreParser { patterns }
    }

    /// Parses one trimmed line into at most one pattern, as
    /// `spec_parse_pattern` describes.
    pub fn parse_pattern_chars(line: &Vec<char>) -> (r: Option<GitignorePattern>)
        ensures
            match r {
                None => spec_parse_pattern(line@) is None,
                Some(p) => spec_parse_pattern(line@) == Some(p@),
            },
    {
        let mut a: usize = 0;
        let mut b: usize = line.len();
        let neg = line.len() > 0 && line[0] == '!';
        if neg {
            a = 1;
        }
        let ghost l1 = if neg {
            line@.drop_first()
        } else {
            line@
        };
        assert(l1 =~= line@.subrange(a as int, b as int));
        let dir = b > a && line[b - 1] == '/';
        assert(dir == (l1.len() > 0 && l1.last() == '/'));
        if dir {
            b = b - 1;
        }
        let ghost l2 = if dir {
            l1.drop_last()
        } else {
            l1
        };
        assert(l2 =~= line@.subrange(a as int, b as int));
        let rooted = b > a && line[a] == '/';
        assert(rooted == (l2.len() > 0 && l2[0] == '/'));
        if rooted {
            a = a + 1;
        }
        let ghost pat = if rooted {
            l2.drop_first()
        } else {
            l2
        };
        assert(pat =~= line@.subrange(a as int, b as int));
        if a == b {
            return None;
        }
        let chars = copy_range(line, a, b);
        Some(
            GitignorePattern {
                pattern: string_of(&chars),
                is_negation: neg,
                is_directory_only: dir,
                is_rooted: rooted,
            },
        )
    }

    /// Parses one trimmed line given as a string slice.
    pub fn parse_pattern(line: &str) -> (r: Option<GitignorePattern>)
        ensures
            match r {
                None => spec_parse_pattern(line@) is None,
                Some(p) => spec_parse_pattern(line@) == Some(p@),
            },
    {
        let v = chars_of(line);
        Self::parse_pattern_chars(&v)
    }

    /// Evaluates the exclusion decision for a path of the given kind, as
    /// `spec_is_excluded` describes: patterns are visited in file order,
    /// directory-only patterns are skipped for files, and each match
    /// overwrites the running state with the opposite of its negation flag.
    pub fn is_ignored(&self, path: &str, is_directory: bool) -> (r: bool)
        ensures
            r == spec_is_excluded(self@, path@, is_directory),
    {
        let pathv = chars_of(path);
        let mut ignored = false;
        let mut k: usize = 0;
        proof {
            assert(self@.take(0) =~= Seq::<PatternModel>::empty());
        }
        while k < self.patterns.len()
            invariant
                k <= self.patterns@.len(),
                pathv@ == path@,
                self@ == pattern_views(self.patterns@),
                self@.len() == self.patterns@.len(),
                ignored == spec_is_excluded(self@.take(k as int), path@, is_directory),
            decreases self.patterns@.len() - k,
        {
            let p = &self.patterns[k];
            assert(self@[k as int] == p@);
            if !(p.is_directory_only && !is_directory) {
                let pv = chars_of(p.pattern.as_str());
                if matches_pattern_chars(&pv, p.is_rooted, &pathv) {
                    ignored = !p.is_negation;
                }
            }
            proof {
                assert(self@.take(k + 1 as int).drop_last() =~= self@.take(k as int));
                assert(self@.take(k + 1 as int).last() == self@[k as int]);
            }
            k = k + 1;
        }
        assert(self@.take(self@.len() as int) =~= self@);
        ignored
    }

    /// Whether the pattern text matches the path, testing the full
    /// normalized path and — for unrooted patterns — each path segment.
    pub fn matches_pattern(&self, pattern: &str, path: &str, is_rooted: bool) -> (r: bool)
        ensures
            r == spec_matches_pattern(pattern@, is_rooted, path@),
    {
        let pv = chars_of(pattern);
        let pathv = chars_of(path);
        matches_pattern_chars(&pv, is_rooted, &pathv)
    }

    /// Whether the glob pattern matches the text, as `spec_glob_match`
    /// describes.
    pub fn glob_match(&self, pattern: &str, text: &str) -> (r: bool)
        ensures
            r == spec_glob_match(pattern@, text@),
    {
        let pv = chars_of(pattern);
        let tv = chars_of(text);
        glob_match_chars(&pv, &tv)
    }
}

/// The exclusion decision is a function of the rule set, the path, and the
/// file-or-directory kind alone: two results for identical inputs are equal.
pub proof fn lemma_is_excluded_deterministic(
    ps: Seq<PatternModel>,
    path: Seq<char>,
    is_directory: bool,
    r1: bool,
    r2: bool,
)
    requires
        r1 == spec_is_excluded(ps, path, is_directory),
        r2 == spec_is_excluded(ps, path, is_directory),
    ensures
        r1 == r2,
{
}

/// Last match wins: a pattern appended to the rule set decides the outcome
/// whenever it applies and matches, and leaves the earlier patterns'
/// decision untouched otherwise.
pub proof fn lemma_last_match_wins(
    ps: Seq<PatternModel>,
    p: PatternModel,
    path: Seq<char>,
    is_directory: bool,
)
    ensures
        spec_is_excluded(ps.push(p), path, is_directory) == if pattern_applies(p, is_directory)
            && spec_matches_pattern(p.pattern, p.is_rooted, path) {
            !p.is_negation
        } else {
            spec_is_excluded(ps, path, is_directory)
        },
{
    assert(ps.push(p).drop_last() =~= ps);
    assert(ps.push(p).last() == p);
}

/// A directory-only pattern never changes the decision for a file.
pub proof fn lemma_directory_only_ignores_files(
    ps: Seq<PatternModel>,
    p: PatternModel,
    path: Seq<char>,
)
    requires
        p.is_directory_only,
    ensures
        spec_is_excluded(ps.push(p), path, false) == spec_is_excluded(ps, path, false),
{
    lemma_last_match_wins(ps, p, path, false);
}

/// A rooted pattern is tested only against the full normalized relative
/// path, never against individual segments.
pub proof fn lemma_rooted_full_path(pattern: Seq<char>, path: Seq<char>)
    ensures
        spec_matches_pattern(pattern, true, path) == spec_glob_match(
            pattern,
            spec_normalize(path),
        ),
{
}

/// An unrooted pattern matches whenever any slash-delimited segment of the
/// normalized path matches, so a bare name pattern matches at any depth.
pub proof fn lemma_unrooted_matches_segment(pattern: Seq<char>, path: Seq<char>, k: int)
    requires
        0 <= k < spec_split(spec_normalize(path), '/').len(),
        spec_glob_match(pattern, spec_split(spec_normalize(path), '/')[k]),
    ensures
        spec_matches_pattern(pattern, false, path),
{
}

/// A pattern that begins with `**` matches exactly the texts that end with
/// what follows the `**` once its leading slashes are dropped.
pub proof fn lemma_leading_double_star(pattern: Seq<char>, text: Seq<char>)
    requires
        pattern.len() >= 2,
        pattern[0] == '*',
        pattern[1] == '*',
    ensures
        spec_glob_match(pattern, text) == spec_drop_leading(pattern.skip(2), '/').is_suffix_of(
            text,
        ),
{
    let dstar = seq!['*', '*'];
    assert(dstar.is_prefix_of(pattern)) by {
        assert(dstar =~= pattern.subrange(0, 2));
    }
    assert(spec_find_sub(pattern, dstar) == Some(0int));
    assert(pattern.take(0).is_prefix_of(text)) by {
        assert(pattern.take(0) =~= text.subrange(0, 0));
    }
}

} // verus!
