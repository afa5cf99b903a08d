//! Version filters of a repository: two optional regular expressions.

use vstd::prelude::*;

verus! {

/// `regex::Regex`, a compiled expression; nothing inside it is visible here.
#[verifier::external_type_specification]
#[verifier::external_body]
pub struct ExRegex(regex::Regex);

/// `regex::Error`, the reason a pattern did not compile; carried, never read.
#[verifier::external_type_specification]
#[verifier::external_body]
pub struct ExRegexError(regex::Error);

/// Whether a compiled expression matches anywhere in `text`, as
/// `regex::Regex::is_match` decides it.
pub uninterp spec fn regex_accepts(re: regex::Regex, text: Seq<char>) -> bool;

/// Whether `regex::Regex::new` accepts `pattern`: it is well formed and its
/// compiled form stays within the size limit that `new` sets.
pub uninterp spec fn regex_compiles(pattern: Seq<char>) -> bool;

/// Whether the expression that `regex::Regex::new` compiles from `pattern`
/// matches anywhere in `text`.
pub uninterp spec fn regex_matches(pattern: Seq<char>, text: Seq<char>) -> bool;

/// `regex::Regex::new`. Trusted: whether the pattern compiles, and what the
/// compiled expression matches, is decided by the pattern alone.
#[verifier::external_body]
fn compile(pattern: &str) -> (r: Result<regex::Regex, regex::Error>)
    ensures
        r is Ok <==> regex_compiles(pattern@),
        r is Ok ==> forall|text: Seq<char>| #[trigger]
            regex_accepts(r.unwrap(), text) == regex_matches(pattern@, text),
{
    regex::Regex::new(pattern)
}

/// `regex::Regex::is_match`. Trusted: the answer depends only on the
/// expression and on the text searched.
#[verifier::external_body]
fn is_match(re: &regex::Regex, text: &str) -> (r: bool)
    ensures
        r == regex_accepts(*re, text@),
{
    re.is_match(text)
}

/// The model of an optional text.
pub open spec fn text_of(s: Option<String>) -> Option<Seq<char>> {
    match s {
        Some(t) => Some(t@),
        None => None,
    }
}

/// The verdict of a filter from the answers of its two expressions: an absent
/// match expression accepts everything, an absent skip expression rejects
/// nothing.
pub open spec fn verdict(matched: Option<bool>, skipped: Option<bool>) -> bool {
    let wanted = match matched {
        Some(m) => m,
        None => true,
    };
    let unwanted = match skipped {
        Some(s) => s,
        None => false,
    };
    wanted && !unwanted
}

/// Whether a filter with these two patterns selects `version`.
pub open spec fn selects(
    match_version: Option<Seq<char>>,
    skip_version: Option<Seq<char>>,
    version: Seq<char>,
) -> bool {
    verdict(
        match match_version {
            Some(p) => Some(regex_matches(p, version)),
            None => None,
        },
        match skip_version {
            Some(p) => Some(regex_matches(p, version)),
            None => None,
        },
    )
}

/// Combines the answers of the two expressions of a filter.
pub fn decide(matched: Option<bool>, skipped: Option<bool>) -> (r: bool)
    ensures
        r == verdict(matched, skipped),
        r <==> (matched != Some(false) && skipped != Some(true)),
{
    let wanted = match matched {
        Some(m) => m,
        None => true,
    };
    let unwanted = match skipped {
        Some(s) => s,
        None => false,
    };
    wanted && !unwanted
}

/// Which of the two patterns of a filter did not compile.
#[derive(Debug, Clone, Copy, PartialEq, Eq, Structural)]
pub enum PatternError {
    MatchVersion,
    SkipVersion,
}

/// The pattern that keeps a filter from being compiled, if there is one: the
/// match pattern is tried first, the skip pattern only when the match
/// pattern is absent or compiles.
pub open spec fn rejected_pattern(
    match_version: Option<Seq<char>>,
    skip_version: Option<Seq<char>>,
) -> Option<PatternError> {
    if match_version is Some && !regex_compiles(match_version.unwrap()) {
        Some(PatternError::MatchVersion)
    } else if skip_version is Some && !regex_compiles(skip_version.unwrap()) {
        Some(PatternError::SkipVersion)
    } else {
        None
    }
}

/// The compiled version filter of one repository.
pub struct VersionFilter {
    pub match_version: Option<regex::Regex>,
    pub skip_version: Option<regex::Regex>,
}

impl VersionFilter {
    /// Whether the filter selects `version`.
    pub open spec fn selects(&self, version: Seq<char>) -> bool {
        verdict(
            match self.match_version {
                Some(re) => Some(regex_accepts(re, version)),
                None => None,
            },
            match self.skip_version {
                Some(re) => Some(regex_accepts(re, version)),
                None => None,
            },
        )
    }

    /// The filter is the one that these two patterns describe.
    pub open spec fn made_of(
        &self,
        match_version: Option<Seq<char>>,
        skip_version: Option<Seq<char>>,
    ) -> bool {
        &&& self.match_version is Some <==> match_version is Some
        &&& self.skip_version is Some <==> skip_version is Some
        &&& forall|version: Seq<char>| #[trigger]
            self.selects(version) == selects(match_version, skip_version, version)
    }

    /// Compiles the patterns that are present, the match pattern first.
    ///
    /// Succeeds exactly when every pattern that is present compiles, and the
    /// filter is then the one that the patterns describe. An error names the
    /// first pattern that does not compile.
    pub fn new(match_version: &Option<String>, skip_version: &Option<String>) -> (r: Result<
        VersionFilter,
        PatternError,
    >)
        ensures
            match r {
                Ok(f) => {
                    &&& rejected_pattern(text_of(*match_version), text_of(*skip_version)) is None
                    &&& f.made_of(text_of(*match_version), text_of(*skip_version))
                },
                Err(e) => rejected_pattern(text_of(*match_version), text_of(*skip_version))
                    == Some(e),
            },
    {
        let match_re = match match_version {
            Some(pattern) => match compile(pattern.as_str()) {
                Ok(re) => Some(re),
                Err(_) => {
                    return Err(PatternError::MatchVersion);
                },
            },
            None => None,
        };
        let skip_re = match skip_version {
            Some(pattern) => match compile(pattern.as_str()) {
                Ok(re) => Some(re),
                Err(_) => {
                    return Err(PatternError::SkipVersion);
                },
            },
            None => None,
        };
        Ok(VersionFilter { match_version: match_re, skip_version: skip_re })
    }

    /// Whether the filter selects `version`: it matches the match pattern,
    /// if there is one, and does not match the skip pattern, if there is one.
    pub fn accepts(&self, version: &str) -> (r: bool)
        ensures
            r == self.selects(version@),
    {
        let matched = match &self.match_version {
            Some(re) => Some(is_match(re, version)),
            None => None,
        };
        let skipped = match &self.skip_version {
            Some(re) => Some(is_match(re, version)),
            None => None,
        };
        decide(matched, skipped)
    }
}

} // verus!
