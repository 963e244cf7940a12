//! The error type shared by every parsing and validation routine.

use crate::text::clone_tokens;
use vstd::prelude::*;
use vstd::string::StringExecFns;

verus! {

/// The distinct ways a parse can fail. Every failure aborts the parse that
/// raised it; none is recoverable from within the parser.
#[derive(Clone, Copy, PartialEq, Eq, Structural, Debug)]
pub enum EdiParseErrorKind {
    /// The document is shorter than the minimum header length needed to
    /// reach the delimiter-bearing bytes of the ISA segment.
    TruncatedInput,
    /// Two or more of the three delimiter characters are identical, which
    /// would make tokenization ambiguous.
    DelimiterCollision,
    /// A segment recognized as ISA, GS or ST by its tag has fewer than its
    /// minimum required element count, or a trailer segment is too short to
    /// carry its count and control number.
    MalformedSegment,
    /// A segment's tag implies a nesting level that is not currently open,
    /// for example a GS before any ISA.
    OutOfOrderSegment,
    /// A closing segment's declared count or control number disagrees with
    /// the opener it closes (strict mode only).
    EnvelopeMismatch,
}

/// An error that occurred at some point while parsing a document: the kind
/// of failure, a human-readable reason, and the raw tokens of the segment in
/// which the failure was detected, when one is known.
#[derive(Clone, Debug)]
pub struct EdiParseError {
    /// Which of the failure classes this error belongs to.
    pub kind: EdiParseErrorKind,
    /// The reason for the error, in words.
    pub reason: String,
    /// The tokens of the segment in which the error occurred.
    pub error_segment: Option<Vec<String>>,
}

impl EdiParseError {
    /// Construct a new [`EdiParseError`] of the given kind.
    pub fn new(kind: EdiParseErrorKind, reason: &str, error_segment: Option<Vec<String>>) -> (r:
        EdiParseError)
        ensures
            r.kind == kind,
            r.reason@ == reason@,
            r.error_segment == error_segment,
    {
        EdiParseError { kind, reason: reason.to_owned(), error_segment }
    }
}

/// The reason text of an envelope mismatch: the base diagnosis followed
/// by the value the trailer declared and the value recomputed from the
/// tree, so a failure report carries both.
pub open spec fn mismatch_reason(base: Seq<char>, expected: Seq<char>, received: Seq<char>) -> Seq<
    char,
> {
    base + "  --  expected: "@ + expected + "  received: "@ + received
}

/// Build the reason text of an envelope mismatch.
pub fn mismatch_message(base: &str, expected: &str, received: &str) -> (r: String)
    ensures
        r@ == mismatch_reason(base@, expected@, received@),
{
    let mut buffer: String = base.to_owned();
    buffer.append("  --  expected: ");
    buffer.append(expected);
    buffer.append("  received: ");
    buffer.append(received);
    buffer
}

/// Coerce an `Option` produced while looking up the innermost open container
/// into a `Result`: a missing container means the input's segments arrived
/// out of the order the X12 nesting rules demand.
pub fn try_option<T>(maybe_segment: Option<T>, error_segment: &Vec<String>) -> (r: Result<
    T,
    EdiParseError,
>)
    ensures
        maybe_segment is Some ==> r is Ok && r->Ok_0 == maybe_segment->0,
        maybe_segment is None ==> r is Err && r->Err_0.kind
            == EdiParseErrorKind::OutOfOrderSegment && r->Err_0.error_segment is Some
            && r->Err_0.error_segment->0@ == error_segment@ && r->Err_0.reason@
            == "EDI file out of order: from out to in, the file must have ISA, GS, ST, and then generic segments"@,
{
    match maybe_segment {
        Some(segment) => Ok(segment),
        None => Err(
            EdiParseError::new(
                EdiParseErrorKind::OutOfOrderSegment,
                "EDI file out of order: from out to in, the file must have ISA, GS, ST, and then generic segments",
                Some(clone_tokens(error_segment)),
            ),
        ),
    }
}

} // verus!
