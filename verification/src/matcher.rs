//! Pattern matchers, compiled once per query: a glob (matched against the
//! final path component), a regular expression (matched against the full
//! path), or a lower-cased substring. The glob and regex engines are outside
//! code; what they decide is named, and the compiled value kept opaque.

use vstd::prelude::*;

use crate::query::PatternMode;
use crate::strutil::{
    contains_seq, file_name_of, last_component, lower_of, lowercase, str_contains,
};

verus! {

/// Whether the glob engine accepts `pattern` as well-formed.
pub uninterp spec fn glob_valid(pattern: Seq<char>) -> bool;

/// What the glob engine decides for `pattern` against `text`: a function of
/// the two alone.
pub uninterp spec fn glob_match(pattern: Seq<char>, text: Seq<char>) -> bool;

/// Whether the regex engine accepts `pattern` as well-formed.
pub uninterp spec fn regex_valid(pattern: Seq<char>) -> bool;

/// What the regex engine decides for `pattern` against `text`: a function of
/// the two alone.
pub uninterp spec fn regex_match(pattern: Seq<char>, text: Seq<char>) -> bool;

/// A compiled glob, opaque to the verifier.
#[verifier::external_body]
pub struct GlobPat {
    m: globset::GlobSet,
}

/// The pattern a compiled glob was built from.
pub uninterp spec fn glob_pat_of(g: GlobPat) -> Seq<char>;

/// A compiled regular expression, opaque to the verifier.
#[verifier::external_body]
pub struct RegexPat {
    re: regex::Regex,
}

/// The pattern a compiled regular expression was built from.
pub uninterp spec fn regex_pat_of(r: RegexPat) -> Seq<char>;

/// Relies on globset::Glob::new and GlobSetBuilder::build: compiling a
/// one-glob set succeeds iff the engine accepts the pattern (syntax and
/// size), depends on the pattern alone, and a failure of either step is an
/// error, never a panic.
#[verifier::external_body]
fn glob_compile(pattern: &str) -> (r: Result<GlobPat, String>)
    ensures
        r is Ok <==> glob_valid(pattern@),
        r matches Ok(g) ==> glob_pat_of(g) == pattern@,
{
    let glob = match globset::Glob::new(pattern) {
        Ok(g) => g,
        Err(e) => { return Err(e.to_string()); },
    };
    let mut builder = globset::GlobSetBuilder::new();
    builder.add(glob);
    match builder.build() {
        Ok(set) => Ok(GlobPat { m: set }),
        Err(e) => Err(e.to_string()),
    }
}

impl GlobPat {
    /// Relies on globset::GlobSet::is_match on a one-glob set: the verdict
    /// is a function of the compiled pattern and the candidate text alone.
    #[verifier::external_body]
    fn is_match(&self, text: &str) -> (r: bool)
        ensures
            r == glob_match(glob_pat_of(*self), text@),
    {
        self.m.is_match(text)
    }
}

/// Relies on regex::Regex::new: compilation succeeds iff the pattern is a
/// well-formed regular expression, and depends on the pattern alone.
#[verifier::external_body]
fn regex_compile(pattern: &str) -> (r: Result<RegexPat, String>)
    ensures
        r is Ok <==> regex_valid(pattern@),
        r matches Ok(g) ==> regex_pat_of(g) == pattern@,
{
    match regex::Regex::new(pattern) {
        Ok(re) => Ok(RegexPat { re }),
        Err(e) => Err(e.to_string()),
    }
}

impl RegexPat {
    /// Relies on regex::Regex::is_match: the verdict is a function of the
    /// compiled pattern and the candidate text alone.
    #[verifier::external_body]
    fn is_match(&self, text: &str) -> (r: bool)
        ensures
            r == regex_match(regex_pat_of(*self), text@),
    {
        self.re.is_match(text)
    }
}

/// The query's pattern cannot be compiled.
#[derive(Debug)]
pub struct PatternError {
    pub message: String,
}

/// Whether a pattern compiles under a mode. A substring pattern always does.
pub open spec fn pattern_ok(mode: PatternMode, pattern: Seq<char>) -> bool {
    match mode {
        PatternMode::Glob => glob_valid(pattern),
        PatternMode::Regex => regex_valid(pattern),
        PatternMode::Substr => true,
    }
}

/// A matcher compiled from a query's mode and pattern.
pub enum Matcher {
    Glob(GlobPat),
    Regex(RegexPat),
    Substr(String),
}

impl Matcher {
    /// This matcher is the compiled form of `pattern` under `mode`.
    pub open spec fn compiled_from(self, mode: PatternMode, pattern: Seq<char>) -> bool {
        match self {
            Matcher::Glob(g) => mode is Glob && glob_pat_of(g) == pattern,
            Matcher::Regex(r) => mode is Regex && regex_pat_of(r) == pattern,
            Matcher::Substr(n) => mode is Substr && n@ == lower_of(pattern),
        }
    }

    /// What this matcher decides for a path. A glob sees only the final
    /// path component, and a path without one (it ends in a slash) never
    /// matches.
    pub open spec fn hits(self, path: Seq<char>) -> bool {
        match self {
            Matcher::Glob(g) => last_component(path).len() > 0 && glob_match(
                glob_pat_of(g),
                last_component(path),
            ),
            Matcher::Regex(r) => regex_match(regex_pat_of(r), path),
            Matcher::Substr(n) => contains_seq(lower_of(path), n@),
        }
    }

    /// Compile the pattern once for a whole query.
    pub fn compile(mode: PatternMode, pattern: &str) -> (r: Result<Matcher, PatternError>)
        ensures
            r is Ok <==> pattern_ok(mode, pattern@),
            r matches Ok(m) ==> m.compiled_from(mode, pattern@),
            mode is Substr && pattern@.len() == 0 ==> (r matches Ok(m) && m matches Matcher::Substr(
                n,
            ) && n@.len() == 0),
    {
        match mode {
            PatternMode::Glob => {
                match glob_compile(pattern) {
                    Ok(g) => Ok(Matcher::Glob(g)),
                    Err(message) => Err(PatternError { message }),
                }
            },
            PatternMode::Regex => {
                match regex_compile(pattern) {
                    Ok(re) => Ok(Matcher::Regex(re)),
                    Err(message) => Err(PatternError { message }),
                }
            },
            PatternMode::Substr => Ok(Matcher::Substr(lowercase(pattern))),
        }
    }

    /// Apply the compiled matcher to one path.
    pub fn matches(&self, path: &str) -> (r: bool)
        ensures
            r == self.hits(path@),
    {
        match self {
            Matcher::Glob(g) => {
                let name = file_name_of(path);
                if name.as_str().is_empty() {
                    false
                } else {
                    g.is_match(name.as_str())
                }
            },
            Matcher::Regex(re) => re.is_match(path),
            Matcher::Substr(needle) => {
                let lowered = lowercase(path);
                str_contains(lowered.as_str(), needle.as_str())
            },
        }
    }

    /// A matcher compiled from a query decides exactly the query's pattern
    /// stage.
    pub proof fn lemma_hits_pattern(self, mode: PatternMode, pattern: Seq<char>, path: Seq<char>)
        requires
            self.compiled_from(mode, pattern),
        ensures
            self.hits(path) == crate::query::pattern_matches(mode, pattern, path),
    {
    }
}

} // verus!
