use vstd::prelude::*;
use crate::error::LoaderError;

verus! {

/// Why a string could not be parsed as an absolute URL.
#[derive(Clone, Copy, Debug, PartialEq, Eq, Structural)]
pub enum ParseFailure {
    /// The string is a relative reference and no base was given.
    RelativeWithoutBase,
    /// Any other syntax error.
    Other,
}

/// The outcome of parsing a string as an absolute URL: the serialization of
/// the parsed URL, or the reason why there is none.
pub uninterp spec fn url_parse(raw: Seq<char>) -> Result<Seq<char>, ParseFailure>;

/// The serialization of the URL that parsing `input` relative to the URL
/// written as `base` yields, or `None` where `base` is no absolute URL or
/// `input` cannot be parsed against it.
pub uninterp spec fn url_join(base: Seq<char>, input: Seq<char>) -> Option<Seq<char>>;

/// The canonical form of a raw identifier, where it has one.
pub open spec fn canonical(raw: Seq<char>) -> Option<Seq<char>> {
    match url_parse(raw) {
        Ok(c) => Some(c),
        Err(_) => None,
    }
}

/// An identifier that is its own canonical form.
pub open spec fn is_canonical(s: Seq<char>) -> bool {
    canonical(s) == Some(s)
}

/// An identifier that is the canonical form of some raw string.
pub open spec fn is_canonical_form(s: Seq<char>) -> bool {
    exists|raw: Seq<char>| #[trigger] canonical(raw) == Some(s)
}

/// Trusted: `url::Url::parse` followed by `String::from` on the parsed URL.
/// The contract only names the outcome: the same input always parses to the
/// same serialization or fails in the same way, and the one failure that is
/// told apart is `ParseError::RelativeUrlWithoutBase`.
#[verifier::external_body]
pub(crate) fn parse_absolute(raw: &str) -> (r: Result<String, ParseFailure>)
    ensures
        r is Ok ==> url_parse(raw@) == Ok::<Seq<char>, ParseFailure>(r->Ok_0@),
        r is Err ==> url_parse(raw@) == Err::<Seq<char>, ParseFailure>(r->Err_0),
{
    match url::Url::parse(raw) {
        Ok(u) => Ok(String::from(u)),
        Err(url::ParseError::RelativeUrlWithoutBase) => Err(ParseFailure::RelativeWithoutBase),
        Err(_) => Err(ParseFailure::Other),
    }
}

/// Trusted: `url::Url::join` on the URL that `url::Url::parse` makes of
/// `base`. The contract only names the outcome, with `None` for a failure of
/// either call.
#[verifier::external_body]
pub(crate) fn join_onto(base: &str, input: &str) -> (r: Option<String>)
    ensures
        r is Some ==> url_join(base@, input@) == Some(r->Some_0@),
        r is None ==> url_join(base@, input@) is None,
{
    match url::Url::parse(base) {
        Ok(b) => match b.join(input) {
            Ok(u) => Some(String::from(u)),
            Err(_) => None,
        },
        Err(_) => None,
    }
}

/// Turns a parse outcome into the canonical identifier, or into
/// `InvalidSpecifier` for either kind of failure.
pub fn canonical_or_invalid(parsed: Result<String, ParseFailure>) -> (r: Result<String, LoaderError>)
    ensures
        match parsed {
            Ok(c) => r == Ok::<String, LoaderError>(c),
            Err(_) => r == Err::<String, LoaderError>(LoaderError::InvalidSpecifier),
        },
{
    match parsed {
        Ok(c) => Ok(c),
        Err(_) => Err(LoaderError::InvalidSpecifier),
    }
}

/// Canonicalises a raw identifier; malformed input is `InvalidSpecifier`.
pub fn normalize(raw: &str) -> (r: Result<String, LoaderError>)
    ensures
        match canonical(raw@) {
            Some(c) => r is Ok && r->Ok_0@ == c,
            None => r == Err::<String, LoaderError>(LoaderError::InvalidSpecifier),
        },
        r is Ok ==> is_canonical_form(r->Ok_0@),
{
    let parsed = parse_absolute(raw);
    canonical_or_invalid(parsed)
}

/// Whether `s` is already canonical: normalising it gives `s` back.
pub fn is_canonical_str(s: &str) -> (r: bool)
    ensures
        r == is_canonical(s@),
{
    match normalize(s) {
        Ok(c) => c == s.to_owned(),
        Err(_) => false,
    }
}

/// Whether `prefix` is a prefix of `s`, character by character.
pub fn starts_with(s: &str, prefix: &str) -> (r: bool)
    ensures
        r == prefix@.is_prefix_of(s@),
{
    let n: usize = s.unicode_len();
    let m: usize = prefix.unicode_len();
    if m > n {
        return false;
    }
    let mut i: usize = 0;
    while i < m
        invariant
            n == s@.len(),
            m == prefix@.len(),
            m <= n,
            i <= m,
            forall|j: int| 0 <= j < i ==> s@[j] == prefix@[j],
        decreases m - i,
    {
        if s.get_char(i) != prefix.get_char(i) {
            assert(s@.subrange(0, m as int)[i as int] != prefix@[i as int]);
            return false;
        }
        i += 1;
    }
    assert(s@.subrange(0, m as int) =~= prefix@);
    true
}

} // verus!
