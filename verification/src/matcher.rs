//! The match predicate: decides whether one line of text satisfies a
//! compiled search pattern under a given search mode.

use vstd::prelude::*;
use vstd::string::StrSliceExecFns;

verus! {

/// How a raw pattern is interpreted and how a match verdict is read.
#[derive(Clone, Copy, PartialEq, Eq, Structural, Debug)]
pub enum SearchMode {
    /// Case-sensitive substring containment.
    Literal,
    /// The exact complement of `Literal`.
    LiteralInverted,
    /// The pattern is a regular expression, matched anywhere in the line.
    Regex,
    /// Like `Regex`; anchors `^` and `$` bind to line start and end because
    /// matching is performed one line at a time.
    RegexAnchored,
    /// Like `Regex`, with a case-insensitivity directive applied to the
    /// whole pattern before compilation.
    RegexCaseInsensitive,
}

/// The pattern `pat` occurs in `line` starting at position `i`.
pub open spec fn occurs_at(line: Seq<char>, pat: Seq<char>, i: int) -> bool {
    &&& 0 <= i
    &&& i + pat.len() <= line.len()
    &&& line.subrange(i, i + pat.len() as int) == pat
}

/// `line` contains `pat` as a contiguous substring.
pub open spec fn contains_substr(line: Seq<char>, pat: Seq<char>) -> bool {
    exists|i: int| occurs_at(line, pat, i)
}

/// Does `pat` occur in `line` exactly at position `i`?
fn match_at(line: &str, pat: &str, i: usize) -> (r: bool)
    requires
        i + pat@.len() <= line@.len() <= usize::MAX,
    ensures
        r == occurs_at(line@, pat@, i as int),
{
    let m: usize = pat.unicode_len();
    let mut j: usize = 0;
    while j < m
        invariant
            i + m <= line@.len() <= usize::MAX,
            m == pat@.len(),
            j <= m,
            forall|k: int| 0 <= k < j ==> line@[i + k] == pat@[k],
        decreases m - j,
    {
        if line.get_char(i + j) != pat.get_char(j) {
            assert(!occurs_at(line@, pat@, i as int)) by {
                assert(line@.subrange(i as int, i + m)[j as int] != pat@[j as int]);
            }
            return false;
        }
        j += 1;
    }
    assert(line@.subrange(i as int, i + m) =~= pat@);
    true
}

/// Case-sensitive substring search, the predicate behind the literal modes.
pub fn literal_contains(line: &str, pat: &str) -> (r: bool)
    ensures
        r == contains_substr(line@, pat@),
{
    let n: usize = line.unicode_len();
    let m: usize = pat.unicode_len();
    if m > n {
        assert(forall|i: int| !occurs_at(line@, pat@, i));
        return false;
    }
    if m == 0 {
        assert(occurs_at(line@, pat@, 0)) by {
            assert(line@.subrange(0, 0) =~= pat@);
        }
        return true;
    }
    let mut i: usize = 0;
    while i <= n - m
        invariant
            1 <= m <= n <= usize::MAX,
            i <= n - m + 1,
            n == line@.len(),
            m == pat@.len(),
            forall|k: int| 0 <= k < i ==> !occurs_at(line@, pat@, k),
        decreases n - m - i + 1,
    {
        if match_at(line, pat, i) {
            return true;
        }
        i += 1;
    }
    assert(forall|k: int| !occurs_at(line@, pat@, k));
    false
}

#[verifier::external_type_specification]
#[verifier::external_body]
pub struct ExRegex(regex::Regex);

/// Whether the regular-expression engine accepts `p` as a pattern.
/// Acceptance depends on the pattern text alone (syntax and the engine's
/// default size limit), so it can be given a name.
pub uninterp spec fn regex_compiles(p: Seq<char>) -> bool;

/// Whether the pattern `p` matches anywhere in `line`, as the
/// regular-expression engine decides it. The verdict depends on the two
/// texts alone, so it can be given a name.
pub uninterp spec fn regex_match(p: Seq<char>, line: Seq<char>) -> bool;

/// A compiled regular expression together with the pattern text it was
/// built from, so that contracts can speak of the engine's verdict.
struct RegexHandle {
    re: regex::Regex,
    pat: String,
}

/// Relies on `regex::Regex::new`: compilation succeeds exactly when the
/// engine accepts the pattern, and the error carries a diagnostic message.
#[verifier::external_body]
fn regex_compile(pattern: &str) -> (r: Result<RegexHandle, String>)
    ensures
        r is Ok <==> regex_compiles(pattern@),
        r matches Ok(h) ==> h.pat@ == pattern@,
{
    match regex::Regex::new(pattern) {
        Ok(re) => Ok(RegexHandle { re, pat: pattern.to_owned() }),
        Err(e) => Err(format!("{}", e)),
    }
}

/// Relies on `regex::Regex::is_match`: true exactly when the compiled
/// pattern matches anywhere in the line; deterministic in the pattern and
/// the line.
#[verifier::external_body]
fn regex_is_match(h: &RegexHandle, line: &str) -> (r: bool)
    ensures
        r == regex_match(h.pat@, line@),
{
    h.re.is_match(line)
}

/// Compiling the pattern failed; the search cannot proceed.
#[derive(Debug)]
pub enum PatternError {
    /// The pattern is not a valid regular expression; the message is the
    /// engine's diagnostic.
    Invalid(String),
}

/// The case-insensitivity directive put in front of the whole pattern for
/// `SearchMode::RegexCaseInsensitive`.
pub open spec fn ci_directive() -> Seq<char> {
    seq!['(', '?', 'i', ')']
}

/// The pattern text handed to the regular-expression engine for a raw
/// pattern under a mode.
pub open spec fn effective_pattern(mode: SearchMode, raw: Seq<char>) -> Seq<char> {
    if mode is RegexCaseInsensitive {
        ci_directive() + raw
    } else {
        raw
    }
}

/// The modes whose pattern goes through the regular-expression engine.
pub open spec fn is_regex_mode(mode: SearchMode) -> bool {
    mode is Regex || mode is RegexAnchored || mode is RegexCaseInsensitive
}

/// The match verdict for one line under a mode and a raw pattern: substring
/// containment for `Literal`, its exact complement for `LiteralInverted`,
/// and the engine's verdict on the effective pattern for the regex modes.
pub open spec fn mode_matches(mode: SearchMode, raw: Seq<char>, line: Seq<char>) -> bool {
    match mode {
        SearchMode::Literal => contains_substr(line, raw),
        SearchMode::LiteralInverted => !contains_substr(line, raw),
        _ => regex_match(effective_pattern(mode, raw), line),
    }
}

/// A pattern compiled once per search and reused read-only for every line.
pub struct CompiledPattern {
    mode: SearchMode,
    lit: Option<String>,
    re: Option<RegexHandle>,
    raw: Ghost<Seq<char>>,
}

impl CompiledPattern {
    /// The mode this pattern was compiled for.
    pub closed spec fn mode(self) -> SearchMode {
        self.mode
    }

    /// The raw pattern text this pattern was compiled from.
    pub closed spec fn raw(self) -> Seq<char> {
        self.raw@
    }

    /// Construction is atomic: a compiled pattern always holds the state
    /// its mode calls for, built from its raw pattern.
    pub closed spec fn wf(self) -> bool {
        match self.mode {
            SearchMode::Literal | SearchMode::LiteralInverted => {
                &&& self.lit matches Some(p) && p@ == self.raw@
                &&& self.re is None
            },
            _ => {
                &&& self.re matches Some(h) && h.pat@ == effective_pattern(self.mode, self.raw@)
                &&& self.lit is None
            },
        }
    }

    /// The verdict this compiled pattern gives on `line`.
    pub open spec fn matches_line(self, line: Seq<char>) -> bool {
        mode_matches(self.mode(), self.raw(), line)
    }

    /// Builds the pattern object for one search. Literal modes never fail;
    /// a regex mode fails exactly when the engine rejects the effective
    /// pattern, and then no pattern object exists at all.
    pub fn compile(pattern: &str, mode: SearchMode) -> (r: Result<CompiledPattern, PatternError>)
        ensures
            r matches Ok(c) ==> c.wf() && c.mode() == mode && c.raw() == pattern@,
            r is Ok <==> (!is_regex_mode(mode) || regex_compiles(
                effective_pattern(mode, pattern@),
            )),
    {
        match mode {
            SearchMode::Literal | SearchMode::LiteralInverted => Ok(CompiledPattern {
                mode,
                lit: Some(pattern.to_owned()),
                re: None,
                raw: Ghost(pattern@),
            }),
            SearchMode::Regex | SearchMode::RegexAnchored => match regex_compile(pattern) {
                Ok(h) => Ok(CompiledPattern { mode, lit: None, re: Some(h), raw: Ghost(pattern@) }),
                Err(msg) => Err(PatternError::Invalid(msg)),
            },
            SearchMode::RegexCaseInsensitive => {
                let mut augmented: String = "(?i)".to_owned();
                proof {
                    reveal_strlit("(?i)");
                    assert(augmented@ =~= ci_directive());
                }
                augmented.append(pattern);
                match regex_compile(augmented.as_str()) {
                    Ok(h) => Ok(
                        CompiledPattern { mode, lit: None, re: Some(h), raw: Ghost(pattern@) },
                    ),
                    Err(msg) => Err(PatternError::Invalid(msg)),
                }
            },
        }
    }

    /// The match verdict for one line: substring containment for `Literal`,
    /// its complement for `LiteralInverted`, the engine's verdict on the
    /// effective pattern for the regex modes.
    pub fn is_match(&self, line: &str) -> (r: bool)
        requires
            self.wf(),
        ensures
            r == self.matches_line(line@),
    {
        match self.mode {
            SearchMode::Literal => {
                let p = self.lit.as_ref().unwrap();
                literal_contains(line, p.as_str())
            },
            SearchMode::LiteralInverted => {
                let p = self.lit.as_ref().unwrap();
                !literal_contains(line, p.as_str())
            },
            _ => {
                let h = self.re.as_ref().unwrap();
                regex_is_match(h, line)
            },
        }
    }
}

/// A literal pattern matches exactly the lines that contain it as a
/// contiguous substring.
pub proof fn lemma_literal_iff_contains(raw: Seq<char>, line: Seq<char>)
    ensures
        mode_matches(SearchMode::Literal, raw, line) == contains_substr(line, raw),
{
}

/// The inverted literal mode is the exact complement of the literal mode,
/// for every pattern and every line.
pub proof fn lemma_inverted_is_complement(raw: Seq<char>, line: Seq<char>)
    ensures
        mode_matches(SearchMode::LiteralInverted, raw, line) == !mode_matches(
            SearchMode::Literal,
            raw,
            line,
        ),
{
}

} // verus!
