//! Trusted edge to the pcre2 crate, which compiles and evaluates the
//! catalog's fingerprint patterns.
//!
//! The pcre2 builder is used with its default configuration (no JIT,
//! no UTF mode) plus the `caseless` and `dotall` flags, so whether a
//! pattern compiles, and whether it matches a subject, are functions
//! of the pattern bytes, the two flags, and the subject alone.  Those
//! two outcomes are named here and stated nowhere else.

use vstd::prelude::*;

verus! {

/// Whether `pattern` (as UTF-8 text) compiles under the given flags.
pub uninterp spec fn regex_valid(pattern: Seq<u8>, caseless: bool, dotall: bool) -> bool;

/// Whether the compiled `pattern` matches `subject`.
pub uninterp spec fn regex_is_match(
    pattern: Seq<u8>,
    caseless: bool,
    dotall: bool,
    subject: Seq<u8>,
) -> bool;

/// Relies on pcre2::bytes::RegexBuilder::build: with a fixed builder
/// configuration, whether a pattern compiles depends on the pattern and
/// the flags alone.  Pattern bytes that are not UTF-8 cannot be handed
/// to the builder and do not compile.
#[verifier::external_body]
pub(crate) fn regex_compiles(pattern: &[u8], caseless: bool, dotall: bool) -> (r: bool)
    ensures
        r == regex_valid(pattern@, caseless, dotall),
{
    match std::str::from_utf8(pattern) {
        Ok(p) => pcre2::bytes::RegexBuilder::new()
            .caseless(caseless)
            .dotall(dotall)
            .build(p)
            .is_ok(),
        Err(_) => false,
    }
}

/// Relies on pcre2::bytes::RegexBuilder::build and
/// pcre2::bytes::Regex::is_match: matching runs on raw subject bytes
/// and, with the default interpreted engine and fixed resource limits,
/// its outcome depends on the pattern, the flags and the subject alone.
/// An evaluation that reports an error counts as no match.
#[verifier::external_body]
pub(crate) fn regex_find(pattern: &[u8], caseless: bool, dotall: bool, subject: &[u8]) -> (r:
    bool)
    requires
        regex_valid(pattern@, caseless, dotall),
    ensures
        r == regex_is_match(pattern@, caseless, dotall, subject@),
{
    match std::str::from_utf8(pattern) {
        Ok(p) => match pcre2::bytes::RegexBuilder::new().caseless(caseless).dotall(dotall).build(p)
        {
            Ok(re) => matches!(re.is_match(subject), Ok(true)),
            Err(_) => false,
        },
        Err(_) => false,
    }
}

} // verus!
