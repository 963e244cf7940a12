//! A standalone parser for a single GS header line.

use crate::edi_parse_error::EdiParseError;
use crate::edi_parse_error::EdiParseErrorKind;
use crate::text::split_on;
use crate::text::split_string;
use crate::text::str_eq;
use crate::text::strs_view;
use crate::text::trim_of;
use crate::text::trimmed;
use vstd::prelude::*;
use vstd::string::StrSliceExecFns;

verus! {

/// The header fields of a functional group, parsed from one GS line on
/// its own, outside any document.
#[derive(Debug, PartialEq)]
pub struct FunctionalGroupHeader {
    /// Identifies the function of this group.
    pub functional_identifier_code: String,
    /// Identifies the sender of this group.
    pub application_sender_code: String,
    /// Identifies the receiver of this group.
    pub application_receiver_code: String,
    /// The date of the function performed.
    pub date: String,
    /// The time of the function performed.
    pub time: String,
    /// The control number of this group.
    pub group_control_number: String,
    /// Code identifying the issuer of the standard.
    pub responsible_agency_code: String,
    /// Code indicating the version of the EDI standard being used.
    pub version: String,
}

/// The mathematical image of a [`FunctionalGroupHeader`].
#[verifier::ext_equal]
pub ghost struct FunctionalGroupHeaderView {
    pub functional_identifier_code: Seq<char>,
    pub application_sender_code: Seq<char>,
    pub application_receiver_code: Seq<char>,
    pub date: Seq<char>,
    pub time: Seq<char>,
    pub group_control_number: Seq<char>,
    pub responsible_agency_code: Seq<char>,
    pub version: Seq<char>,
}

impl View for FunctionalGroupHeader {
    type V = FunctionalGroupHeaderView;

    open spec fn view(&self) -> FunctionalGroupHeaderView {
        FunctionalGroupHeaderView {
            functional_identifier_code: self.functional_identifier_code@,
            application_sender_code: self.application_sender_code@,
            application_receiver_code: self.application_receiver_code@,
            date: self.date@,
            time: self.time@,
            group_control_number: self.group_control_number@,
            responsible_agency_code: self.responsible_agency_code@,
            version: self.version@,
        }
    }
}

/// What parsing one GS line yields: the line is split on the element
/// delimiter, each element is trimmed, the first must be "GS", and at
/// least nine elements must be present.
pub open spec fn gs_header_from_str(input: Seq<char>, elem_d: char) -> Result<
    FunctionalGroupHeaderView,
    EdiParseErrorKind,
> {
    let tokens = split_on(input, elem_d);
    if trimmed(tokens[0]) != "GS"@ {
        Err(EdiParseErrorKind::MalformedSegment)
    } else if tokens.len() < 9 {
        Err(EdiParseErrorKind::MalformedSegment)
    } else {
        Ok(
            FunctionalGroupHeaderView {
                functional_identifier_code: trimmed(tokens[1]),
                application_sender_code: trimmed(tokens[2]),
                application_receiver_code: trimmed(tokens[3]),
                date: trimmed(tokens[4]),
                time: trimmed(tokens[5]),
                group_control_number: trimmed(tokens[6]),
                responsible_agency_code: trimmed(tokens[7]),
                version: trimmed(tokens[8]),
            },
        )
    }
}

impl FunctionalGroupHeader {
    /// Parse one GS line into a [`FunctionalGroupHeader`].
    pub fn parse_from_str(input: &str, element_delimiter: char) -> (r: Result<
        FunctionalGroupHeader,
        EdiParseError,
    >)
        ensures
            (r is Ok) == (gs_header_from_str(input@, element_delimiter) is Ok),
            r is Ok ==> r->Ok_0@ == gs_header_from_str(input@, element_delimiter)->Ok_0,
            r is Err ==> r->Err_0.kind == gs_header_from_str(input@, element_delimiter)->Err_0,
    {
        let tokens = split_string(input, element_delimiter);
        proof {
            assert(strs_view(tokens@)[0] == tokens@[0]@);
        }
        let tag = trim_of(tokens[0].as_str());
        if !str_eq(tag.as_str(), "GS") {
            return Err(
                EdiParseError::new(
                    EdiParseErrorKind::MalformedSegment,
                    "attempted to parse GS from non-GS segment",
                    Some(tokens),
                ),
            );
        }
        if tokens.len() < 9 {
            return Err(
                EdiParseError::new(
                    EdiParseErrorKind::MalformedSegment,
                    "GS segment does not contain enough elements",
                    Some(tokens),
                ),
            );
        }
        let result = FunctionalGroupHeader {
            functional_identifier_code: trim_of(tokens[1].as_str()),
            application_sender_code: trim_of(tokens[2].as_str()),
            application_receiver_code: trim_of(tokens[3].as_str()),
            date: trim_of(tokens[4].as_str()),
            time: trim_of(tokens[5].as_str()),
            group_control_number: trim_of(tokens[6].as_str()),
            responsible_agency_code: trim_of(tokens[7].as_str()),
            version: trim_of(tokens[8].as_str()),
        };
        proof {
            assert(result@ =~~= gs_header_from_str(input@, element_delimiter)->Ok_0);
        }
        Ok(result)
    }
}

} // verus!
