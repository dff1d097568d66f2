use vstd::prelude::*;
use crate::error::LoaderError;
use crate::specifier::{
    canonical, is_canonical, is_canonical_form, join_onto, parse_absolute, starts_with, url_join,
    url_parse, ParseFailure,
};

verus! {

/// Who asks for a resolution.
#[derive(Clone, Copy, Debug, PartialEq, Eq, Structural)]
pub enum ResolutionKind {
    MainModule,
    Import,
    DynamicImport,
}

/// What remains to be done once the request has been parsed on its own.
pub enum Step {
    /// The request is an absolute identifier: this is its canonical form.
    Done(String),
    /// The request is relative and must be joined onto the referrer.
    Join,
    /// The request cannot be resolved.
    Fail,
}

/// A relative request must say where it starts: at the root, in the
/// referrer's directory, or above it.
pub open spec fn has_relative_prefix(s: Seq<char>) -> bool {
    "/"@.is_prefix_of(s) || "./"@.is_prefix_of(s) || "../"@.is_prefix_of(s)
}

/// The identifier that a request resolves to: its own canonical form where
/// it is absolute; where it is relative and properly prefixed, what joining
/// it onto the referrer yields; else a failure. The kind of the request has
/// no part in it: a dynamic import passes the checks of a static one.
pub open spec fn resolution(specifier: Seq<char>, referrer: Seq<char>) -> Result<
    Seq<char>,
    LoaderError,
> {
    match url_parse(specifier) {
        Ok(c) => Ok(c),
        Err(ParseFailure::RelativeWithoutBase) => if has_relative_prefix(specifier) {
            match url_join(referrer, specifier) {
                Some(c) => Ok(c),
                None => Err(LoaderError::ResolutionFailure),
            }
        } else {
            Err(LoaderError::ResolutionFailure)
        },
        Err(ParseFailure::Other) => Err(LoaderError::ResolutionFailure),
    }
}

/// Whether `specifier` begins with `/`, `./` or `../`.
pub fn is_relative(specifier: &str) -> (r: bool)
    ensures
        r == has_relative_prefix(specifier@),
{
    starts_with(specifier, "/") || starts_with(specifier, "./") || starts_with(specifier, "../")
}

/// Decides, from the outcome of parsing the request on its own, whether the
/// resolution is done, needs the referrer, or has failed.
pub fn after_parse(specifier: &str, parsed: Result<String, ParseFailure>) -> (r: Step)
    ensures
        match parsed {
            Ok(c) => r == Step::Done(c),
            Err(ParseFailure::RelativeWithoutBase) => if has_relative_prefix(specifier@) {
                r is Join
            } else {
                r is Fail
            },
            Err(ParseFailure::Other) => r is Fail,
        },
{
    match parsed {
        Ok(c) => Step::Done(c),
        Err(ParseFailure::RelativeWithoutBase) => if is_relative(specifier) {
            Step::Join
        } else {
            Step::Fail
        },
        Err(ParseFailure::Other) => Step::Fail,
    }
}

/// Turns the outcome of joining a request onto its referrer, or of asking
/// a loading policy for its target, into the result of the resolution: an
/// identifier stands, and none is a `ResolutionFailure`.
pub fn after_join(joined: Option<String>) -> (r: Result<String, LoaderError>)
    ensures
        match joined {
            Some(c) => r == Ok::<String, LoaderError>(c),
            None => r == Err::<String, LoaderError>(LoaderError::ResolutionFailure),
        },
{
    match joined {
        Some(c) => Ok(c),
        None => Err(LoaderError::ResolutionFailure),
    }
}

/// The referrer of a request, or the empty string where none is known.
pub fn referrer_or_empty(referrer: Option<String>) -> (r: String)
    ensures
        r@ == (match referrer {
            Some(s) => s@,
            None => Seq::<char>::empty(),
        }),
{
    match referrer {
        Some(s) => s,
        None => String::new(),
    }
}

/// Resolves a request made by the module `referrer` (empty where unknown)
/// to a canonical identifier.
pub fn resolve(specifier: &str, referrer: &str, _kind: ResolutionKind) -> (r: Result<
    String,
    LoaderError,
>)
    ensures
        match resolution(specifier@, referrer@) {
            Ok(c) => r is Ok && r->Ok_0@ == c,
            Err(e) => r == Err::<String, LoaderError>(e),
        },
        url_parse(specifier@) is Ok ==> r is Ok && is_canonical_form(r->Ok_0@),
{
    let parsed = parse_absolute(specifier);
    match after_parse(specifier, parsed) {
        Step::Done(c) => {
            assert(canonical(specifier@) == Some(c@));
            Ok(c)
        },
        Step::Fail => Err(LoaderError::ResolutionFailure),
        Step::Join => after_join(join_onto(referrer, specifier)),
    }
}

/// An identifier that is already canonical resolves to itself, whoever the
/// referrer is, and in particular where there is none.
pub proof fn canonical_resolves_to_itself(s: Seq<char>, referrer: Seq<char>)
    requires
        is_canonical(s),
    ensures
        resolution(s, referrer) == Ok::<Seq<char>, LoaderError>(s),
        resolution(s, Seq::<char>::empty()) == Ok::<Seq<char>, LoaderError>(s),
{
}

} // verus!
