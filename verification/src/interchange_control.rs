//! An interchange (ISA/IEA pair): the outermost X12 envelope.

use crate::edi_parse_error::mismatch_message;
use crate::edi_parse_error::mismatch_reason;
use crate::edi_parse_error::EdiParseError;
use crate::edi_parse_error::EdiParseErrorKind;
use crate::functional_group::group_add_seg;
use crate::functional_group::group_lines;
use crate::functional_group::group_validate_se;
use crate::functional_group::groups_seq_view;
use crate::functional_group::gs_from_tokens;
use crate::functional_group::validate_ge;
use crate::functional_group::FunctionalGroup;
use crate::functional_group::FunctionalGroupView;
use crate::text::dec_digits;
use crate::text::dec_value;
use crate::text::join_on;
use crate::text::join_strings;
use crate::text::joined_each;
use crate::text::lemma_join_flatten;
use crate::text::pad;
use crate::text::parse_dec;
use crate::text::push_char;
use crate::text::spaces;
use crate::text::str_eq;
use crate::text::strs_view;
use crate::text::to_dec_string;
use crate::text::trim_of;
use crate::text::trimmed;
use crate::transaction::st_from_tokens;
use crate::transaction::TransactionNames;
use vstd::prelude::*;
use vstd::seq_lib::lemma_flatten_concat;
use vstd::string::StrSliceExecFns;
use vstd::string::StringExecFns;

verus! {

/// The ISA/IEA envelope of an X12 document, holding the interchange
/// header fields and the functional groups it encloses.
#[derive(Debug, PartialEq)]
pub struct InterchangeControl {
    /// Code identifying the type of information in the authorization
    /// information field.
    pub authorization_qualifier: String,
    /// Information used for additional identification or authorization of
    /// the interchange sender.
    pub authorization_information: String,
    /// Code identifying the type of information in the security
    /// information field.
    pub security_qualifier: String,
    /// Security information about the interchange sender or the data.
    pub security_information: String,
    /// Qualifier for the system or method of code structure used for the
    /// sender ID.
    pub sender_qualifier: String,
    /// Identification code published by the sender.
    pub sender_id: String,
    /// Qualifier for the system or method of code structure used for the
    /// receiver ID.
    pub receiver_qualifier: String,
    /// Identification code published by the receiver of the data.
    pub receiver_id: String,
    /// Date of the interchange.
    pub date: String,
    /// Time of the interchange.
    pub time: String,
    /// Code identifying the agency responsible for the control standard.
    pub standards_id: String,
    /// Code specifying the version number of the interchange control
    /// segments.
    pub version: String,
    /// A control number assigned by the interchange sender; the IEA
    /// trailer must repeat it.
    pub interchange_control_number: String,
    /// Whether an acknowledgment is requested ("1") or not ("0").
    pub acknowledgement_requested: String,
    /// Whether the enclosed data is test ("T"), production ("P") or
    /// information ("I").
    pub test_indicator: String,
    /// The functional groups contained in this interchange.
    pub functional_groups: Vec<FunctionalGroup>,
}

/// The mathematical image of an [`InterchangeControl`].
#[verifier::ext_equal]
pub ghost struct InterchangeControlView {
    pub authorization_qualifier: Seq<char>,
    pub authorization_information: Seq<char>,
    pub security_qualifier: Seq<char>,
    pub security_information: Seq<char>,
    pub sender_qualifier: Seq<char>,
    pub sender_id: Seq<char>,
    pub receiver_qualifier: Seq<char>,
    pub receiver_id: Seq<char>,
    pub date: Seq<char>,
    pub time: Seq<char>,
    pub standards_id: Seq<char>,
    pub version: Seq<char>,
    pub interchange_control_number: Seq<char>,
    pub acknowledgement_requested: Seq<char>,
    pub test_indicator: Seq<char>,
    pub functional_groups: Seq<FunctionalGroupView>,
}

impl View for InterchangeControl {
    type V = InterchangeControlView;

    open spec fn view(&self) -> InterchangeControlView {
        InterchangeControlView {
            authorization_qualifier: self.authorization_qualifier@,
            authorization_information: self.authorization_information@,
            security_qualifier: self.security_qualifier@,
            security_information: self.security_information@,
            sender_qualifier: self.sender_qualifier@,
            sender_id: self.sender_id@,
            receiver_qualifier: self.receiver_qualifier@,
            receiver_id: self.receiver_id@,
            date: self.date@,
            time: self.time@,
            standards_id: self.standards_id@,
            version: self.version@,
            interchange_control_number: self.interchange_control_number@,
            acknowledgement_requested: self.acknowledgement_requested@,
            test_indicator: self.test_indicator@,
            functional_groups: groups_seq_view(self.functional_groups@),
        }
    }
}

/// The views of a sequence of interchanges.
pub open spec fn ics_view(v: Seq<InterchangeControl>) -> Seq<InterchangeControlView> {
    Seq::new(v.len(), |i: int| v[i]@)
}

/// What parsing an ISA token group yields: the trimmed tokens one through
/// fifteen become the envelope fields. A group whose trimmed first token
/// is not "ISA", or with fewer than sixteen tokens, is rejected.
pub open spec fn isa_from_tokens(tokens: Seq<Seq<char>>) -> Result<
    InterchangeControlView,
    EdiParseErrorKind,
> {
    if tokens.len() < 1 || trimmed(tokens[0]) != "ISA"@ {
        Err(EdiParseErrorKind::MalformedSegment)
    } else if tokens.len() < 16 {
        Err(EdiParseErrorKind::MalformedSegment)
    } else {
        Ok(
            InterchangeControlView {
                authorization_qualifier: trimmed(tokens[1]),
                authorization_information: trimmed(tokens[2]),
                security_qualifier: trimmed(tokens[3]),
                security_information: trimmed(tokens[4]),
                sender_qualifier: trimmed(tokens[5]),
                sender_id: trimmed(tokens[6]),
                receiver_qualifier: trimmed(tokens[7]),
                receiver_id: trimmed(tokens[8]),
                date: trimmed(tokens[9]),
                time: trimmed(tokens[10]),
                standards_id: trimmed(tokens[11]),
                version: trimmed(tokens[12]),
                interchange_control_number: trimmed(tokens[13]),
                acknowledgement_requested: trimmed(tokens[14]),
                test_indicator: trimmed(tokens[15]),
                functional_groups: Seq::<FunctionalGroupView>::empty(),
            },
        )
    }
}

/// What validating an IEA trailer against an interchange yields: accepted
/// exactly when the raw first token is "IEA", the second token reads as
/// the number of functional groups, and the raw third token equals the
/// control number recorded from the ISA.
pub open spec fn validate_iea(ic: InterchangeControlView, tokens: Seq<Seq<char>>) -> Result<
    (),
    EdiParseErrorKind,
> {
    if tokens.len() < 3 {
        Err(EdiParseErrorKind::MalformedSegment)
    } else if tokens[0] != "IEA"@ {
        Err(EdiParseErrorKind::MalformedSegment)
    } else if dec_value(tokens[1]) != Some(ic.functional_groups.len() as nat) {
        Err(EdiParseErrorKind::EnvelopeMismatch)
    } else if tokens[2] != ic.interchange_control_number {
        Err(EdiParseErrorKind::EnvelopeMismatch)
    } else {
        Ok(())
    }
}

/// The interchange after a functional group parsed from a GS token group
/// is appended.
pub open spec fn ic_add_group(ic: InterchangeControlView, tokens: Seq<Seq<char>>) -> Result<
    InterchangeControlView,
    EdiParseErrorKind,
> {
    match gs_from_tokens(tokens) {
        Ok(fg) => Ok(
            InterchangeControlView { functional_groups: ic.functional_groups.push(fg), ..ic },
        ),
        Err(k) => Err(k),
    }
}

/// The interchange after a transaction parsed from an ST token group is
/// appended to its most recently opened functional group; out of order
/// when no group is open.
pub open spec fn ic_add_txn(
    ic: InterchangeControlView,
    tokens: Seq<Seq<char>>,
    names: Seq<crate::transaction::NameEntryView>,
) -> Result<InterchangeControlView, EdiParseErrorKind> {
    if ic.functional_groups.len() == 0 {
        Err(EdiParseErrorKind::OutOfOrderSegment)
    } else {
        match st_from_tokens(tokens, names) {
            Ok(t) => Ok(
                InterchangeControlView {
                    functional_groups: ic.functional_groups.update(
                        ic.functional_groups.len() - 1,
                        FunctionalGroupView {
                            transactions: ic.functional_groups.last().transactions.push(t),
                            ..ic.functional_groups.last()
                        },
                    ),
                    ..ic
                },
            ),
            Err(k) => Err(k),
        }
    }
}

/// The interchange after a generic segment is appended to the most
/// recently opened transaction of its most recently opened group; out of
/// order when no group is open.
pub open spec fn ic_add_seg(ic: InterchangeControlView, tokens: Seq<Seq<char>>) -> Result<
    InterchangeControlView,
    EdiParseErrorKind,
> {
    if ic.functional_groups.len() == 0 {
        Err(EdiParseErrorKind::OutOfOrderSegment)
    } else {
        match group_add_seg(ic.functional_groups.last(), tokens) {
            Ok(fg) => Ok(
                InterchangeControlView {
                    functional_groups: ic.functional_groups.update(
                        ic.functional_groups.len() - 1,
                        fg,
                    ),
                    ..ic
                },
            ),
            Err(k) => Err(k),
        }
    }
}

/// What validating a GE trailer at the interchange level yields: the
/// check is made against the most recently opened functional group, and
/// fails as out of order when none is open.
pub open spec fn ic_validate_ge(ic: InterchangeControlView, tokens: Seq<Seq<char>>) -> Result<
    (),
    EdiParseErrorKind,
> {
    if ic.functional_groups.len() == 0 {
        Err(EdiParseErrorKind::OutOfOrderSegment)
    } else {
        validate_ge(ic.functional_groups.last(), tokens)
    }
}

/// What validating an SE trailer at the interchange level yields.
pub open spec fn ic_validate_se(ic: InterchangeControlView, tokens: Seq<Seq<char>>) -> Result<
    (),
    EdiParseErrorKind,
> {
    if ic.functional_groups.len() == 0 {
        Err(EdiParseErrorKind::OutOfOrderSegment)
    } else {
        group_validate_se(ic.functional_groups.last(), tokens)
    }
}

/// The reason text an IEA check reports for each way it can fail, with
/// the declared and the recomputed value embedded on a mismatch.
pub open spec fn iea_failure_reason(ic: InterchangeControlView, tokens: Seq<Seq<char>>) -> Seq<
    char,
> {
    if tokens.len() < 3 {
        "IEA segment does not contain enough elements. At least 3 required"@
    } else if tokens[0] != "IEA"@ {
        "attempted to verify IEA on non-IEA segment"@
    } else if dec_value(tokens[1]) != Some(ic.functional_groups.len() as nat) {
        mismatch_reason(
            "interchange validation failed: incorrect number of functional groups"@,
            tokens[1],
            dec_digits(ic.functional_groups.len()),
        )
    } else {
        mismatch_reason(
            "interchange validation failed: mismatched ID"@,
            tokens[2],
            ic.interchange_control_number,
        )
    }
}

/// The ISA line of an interchange: the tag, the fifteen fields each
/// right-padded with spaces to its standard width, and the sub-element
/// delimiter as the sixteenth element.
pub open spec fn isa_line(ic: InterchangeControlView, elem_d: char, sub_d: char) -> Seq<char> {
    "ISA"@ + seq![elem_d] + pad(ic.authorization_qualifier, 2) + seq![elem_d] + pad(
        ic.authorization_information,
        10,
    ) + seq![elem_d] + pad(ic.security_qualifier, 2) + seq![elem_d] + pad(
        ic.security_information,
        10,
    ) + seq![elem_d] + pad(ic.sender_qualifier, 2) + seq![elem_d] + pad(ic.sender_id, 15) + seq![
        elem_d,
    ] + pad(ic.receiver_qualifier, 2) + seq![elem_d] + pad(ic.receiver_id, 15) + seq![elem_d]
        + pad(ic.date, 6) + seq![elem_d] + pad(ic.time, 4) + seq![elem_d] + pad(ic.standards_id, 1)
        + seq![elem_d] + pad(ic.version, 5) + seq![elem_d] + pad(ic.interchange_control_number, 9)
        + seq![elem_d] + pad(ic.acknowledgement_requested, 1) + seq![elem_d] + pad(
        ic.test_indicator,
        1,
    ) + seq![elem_d] + seq![sub_d]
}

/// The IEA line of an interchange: tag, recomputed functional group
/// count, and control number.
pub open spec fn iea_line(ic: InterchangeControlView, elem_d: char) -> Seq<char> {
    "IEA"@ + seq![elem_d] + dec_digits(ic.functional_groups.len()) + seq![elem_d]
        + ic.interchange_control_number
}

/// The line lists of a run of functional groups.
pub open spec fn group_lines_of(gs: Seq<FunctionalGroupView>, elem_d: char) -> Seq<
    Seq<Seq<char>>,
> {
    Seq::new(gs.len(), |i: int| group_lines(gs[i], elem_d))
}

/// All the lines of an interchange, in document order.
pub open spec fn ic_lines(ic: InterchangeControlView, elem_d: char, sub_d: char) -> Seq<
    Seq<char>,
> {
    seq![isa_line(ic, elem_d, sub_d)] + group_lines_of(ic.functional_groups, elem_d).flatten()
        + seq![iea_line(ic, elem_d)]
}

/// `input` right-padded with spaces to the desired width; an input
/// already at least that long is returned unchanged.
pub fn pad_right(input: &str, desired_length: u8) -> (r: String)
    ensures
        r@ == pad(input@, desired_length as nat),
{
    let mut buffer = input.to_owned();
    let n: usize = input.unicode_len();
    let mut i: usize = n;
    proof {
        assert(input@ + spaces(0) =~= input@);
    }
    while i < desired_length as usize
        invariant
            n == input@.len(),
            i >= n,
            i <= desired_length as int || i == n,
            buffer@ == input@ + spaces((i - n) as nat),
        decreases desired_length as int - i,
    {
        push_char(&mut buffer, ' ');
        proof {
            assert(input@ + spaces((i + 1 - n) as nat) =~= (input@ + spaces((i - n) as nat)).push(
                ' ',
            ));
        }
        i = i + 1;
    }
    proof {
        if n >= desired_length as int {
            assert(buffer@ =~= pad(input@, desired_length as nat));
        } else {
            assert(buffer@ =~= pad(input@, desired_length as nat));
        }
    }
    buffer
}

impl InterchangeControl {
    /// Construct an [`InterchangeControl`] from an ISA token group.
    pub fn parse_from_tokens(tokens: Vec<String>) -> (r: Result<InterchangeControl, EdiParseError>)
        ensures
            (r is Ok) == (isa_from_tokens(strs_view(tokens@)) is Ok),
            r is Ok ==> r->Ok_0@ == isa_from_tokens(strs_view(tokens@))->Ok_0,
            r is Err ==> r->Err_0.kind == isa_from_tokens(strs_view(tokens@))->Err_0,
            r is Err ==> r->Err_0.error_segment is Some && r->Err_0.error_segment->0@ == tokens@,
    {
        if tokens.len() < 1 {
            return Err(
                EdiParseError::new(
                    EdiParseErrorKind::MalformedSegment,
                    "attempted to parse ISA from non-ISA segment",
                    Some(tokens),
                ),
            );
        }
        let tag = trim_of(tokens[0].as_str());
        if !str_eq(tag.as_str(), "ISA") {
            return Err(
                EdiParseError::new(
                    EdiParseErrorKind::MalformedSegment,
                    "attempted to parse ISA from non-ISA segment",
                    Some(tokens),
                ),
            );
        }
        if tokens.len() < 16 {
            return Err(
                EdiParseError::new(
                    EdiParseErrorKind::MalformedSegment,
                    "ISA segment does not contain enough elements. At least 16 required",
                    Some(tokens),
                ),
            );
        }
        let result = InterchangeControl {
            authorization_qualifier: trim_of(tokens[1].as_str()),
            authorization_information: trim_of(tokens[2].as_str()),
            security_qualifier: trim_of(tokens[3].as_str()),
            security_information: trim_of(tokens[4].as_str()),
            sender_qualifier: trim_of(tokens[5].as_str()),
            sender_id: trim_of(tokens[6].as_str()),
            receiver_qualifier: trim_of(tokens[7].as_str()),
            receiver_id: trim_of(tokens[8].as_str()),
            date: trim_of(tokens[9].as_str()),
            time: trim_of(tokens[10].as_str()),
            standards_id: trim_of(tokens[11].as_str()),
            version: trim_of(tokens[12].as_str()),
            interchange_control_number: trim_of(tokens[13].as_str()),
            acknowledgement_requested: trim_of(tokens[14].as_str()),
            test_indicator: trim_of(tokens[15].as_str()),
            functional_groups: Vec::new(),
        };
        proof {
            assert(groups_seq_view(result.functional_groups@) =~= Seq::<
                FunctionalGroupView,
            >::empty());
            assert(result@ =~~= isa_from_tokens(strs_view(tokens@))->Ok_0);
        }
        Ok(result)
    }

    /// Append a functional group, parsed from its GS token group, at the
    /// end of this interchange.
    pub fn add_functional_group(&mut self, tokens: Vec<String>) -> (r: Result<(), EdiParseError>)
        ensures
            ic_add_group(old(self)@, strs_view(tokens@)) is Ok ==> r is Ok && final(self)@
                == ic_add_group(old(self)@, strs_view(tokens@))->Ok_0,
            ic_add_group(old(self)@, strs_view(tokens@)) is Err ==> r is Err && final(self)@
                == old(self)@ && r->Err_0.kind == ic_add_group(
                old(self)@,
                strs_view(tokens@),
            )->Err_0 && r->Err_0.error_segment is Some && r->Err_0.error_segment->0@ == tokens@,
    {
        match FunctionalGroup::parse_from_tokens(tokens) {
            Ok(group) => {
                self.functional_groups.push(group);
                proof {
                    assert(groups_seq_view(self.functional_groups@) =~~= groups_seq_view(
                        old(self).functional_groups@,
                    ).push(self.functional_groups@.last()@));
                    assert(self@ =~~= ic_add_group(old(self)@, strs_view(tokens@))->Ok_0);
                }
                Ok(())
            },
            Err(e) => Err(e),
        }
    }

    /// Append a transaction to the most recently opened functional group
    /// of this interchange.
    pub fn add_transaction(&mut self, tokens: Vec<String>, names: &TransactionNames) -> (r: Result<
        (),
        EdiParseError,
    >)
        ensures
            ic_add_txn(old(self)@, strs_view(tokens@), names@) is Ok ==> r is Ok && final(self)@
                == ic_add_txn(old(self)@, strs_view(tokens@), names@)->Ok_0,
            ic_add_txn(old(self)@, strs_view(tokens@), names@) is Err ==> r is Err && final(self)@
                == old(self)@ && r->Err_0.kind == ic_add_txn(
                old(self)@,
                strs_view(tokens@),
                names@,
            )->Err_0 && r->Err_0.error_segment is Some && r->Err_0.error_segment->0@ == tokens@,
    {
        if self.functional_groups.len() == 0 {
            return Err(
                EdiParseError::new(
                    EdiParseErrorKind::OutOfOrderSegment,
                    "unable to enqueue transaction when no functional groups have been added",
                    Some(tokens),
                ),
            );
        }
        match self.functional_groups.pop() {
            Some(mut group) => {
                let result = group.add_transaction(tokens, names);
                self.functional_groups.push(group);
                proof {
                    match result {
                        Ok(()) => {
                            assert(self@ =~~= ic_add_txn(
                                old(self)@,
                                strs_view(tokens@),
                                names@,
                            )->Ok_0);
                        },
                        Err(_) => {
                            assert(self@ =~~= old(self)@);
                        },
                    }
                }
                result
            },
            None => {
                proof {
                    assert(false);
                }
                Err(
                    EdiParseError::new(
                        EdiParseErrorKind::OutOfOrderSegment,
                        "unable to enqueue transaction when no functional groups have been added",
                        None,
                    ),
                )
            },
        }
    }

    /// Append a generic segment to the most recently opened transaction
    /// of this interchange's most recently opened functional group.
    pub fn add_generic_segment(&mut self, tokens: Vec<String>) -> (r: Result<(), EdiParseError>)
        ensures
            ic_add_seg(old(self)@, strs_view(tokens@)) is Ok ==> r is Ok && final(self)@
                == ic_add_seg(old(self)@, strs_view(tokens@))->Ok_0,
            ic_add_seg(old(self)@, strs_view(tokens@)) is Err ==> r is Err && final(self)@ == old(
                self,
            )@ && r->Err_0.kind == ic_add_seg(old(self)@, strs_view(tokens@))->Err_0
                && r->Err_0.error_segment is Some && r->Err_0.error_segment->0@ == tokens@,
    {
        if self.functional_groups.len() == 0 {
            return Err(
                EdiParseError::new(
                    EdiParseErrorKind::OutOfOrderSegment,
                    "unable to enqueue generic segment when no functional groups have been added",
                    Some(tokens),
                ),
            );
        }
        match self.functional_groups.pop() {
            Some(mut group) => {
                let result = group.add_generic_segment(tokens);
                self.functional_groups.push(group);
                proof {
                    match result {
                        Ok(()) => {
                            assert(self@ =~~= ic_add_seg(old(self)@, strs_view(tokens@))->Ok_0);
                        },
                        Err(_) => {
                            assert(self@ =~~= old(self)@);
                        },
                    }
                }
                result
            },
            None => {
                proof {
                    assert(false);
                }
                Err(
                    EdiParseError::new(
                        EdiParseErrorKind::OutOfOrderSegment,
                        "unable to enqueue generic segment when no functional groups have been added",
                        None,
                    ),
                )
            },
        }
    }

    /// Check an IEA trailer against this interchange.
    pub fn validate_interchange_control(&self, tokens: Vec<String>) -> (r: Result<
        (),
        EdiParseError,
    >)
        ensures
            (r is Ok) == (validate_iea(self@, strs_view(tokens@)) is Ok),
            r is Err ==> r->Err_0.kind == validate_iea(self@, strs_view(tokens@))->Err_0,
            r is Err ==> r->Err_0.reason@ == iea_failure_reason(self@, strs_view(tokens@)),
            r is Err ==> r->Err_0.error_segment is Some && r->Err_0.error_segment->0@ == tokens@,
    {
        if tokens.len() < 3 {
            return Err(
                EdiParseError::new(
                    EdiParseErrorKind::MalformedSegment,
                    "IEA segment does not contain enough elements. At least 3 required",
                    Some(tokens),
                ),
            );
        }
        if !str_eq(tokens[0].as_str(), "IEA") {
            return Err(
                EdiParseError::new(
                    EdiParseErrorKind::MalformedSegment,
                    "attempted to verify IEA on non-IEA segment",
                    Some(tokens),
                ),
            );
        }
        let expected: u128 = self.functional_groups.len() as u128;
        let count_ok: bool = match parse_dec(tokens[1].as_str()) {
            Some(v) => v == expected,
            None => false,
        };
        proof {
            assert(groups_seq_view(self.functional_groups@).len()
                == self.functional_groups@.len());
            assert(strs_view(tokens@)[1] == tokens@[1]@);
            assert(strs_view(tokens@)[2] == tokens@[2]@);
        }
        if !count_ok {
            let reason = mismatch_message(
                "interchange validation failed: incorrect number of functional groups",
                tokens[1].as_str(),
                to_dec_string(expected).as_str(),
            );
            return Err(
                EdiParseError::new(
                    EdiParseErrorKind::EnvelopeMismatch,
                    reason.as_str(),
                    Some(tokens),
                ),
            );
        }
        if !str_eq(tokens[2].as_str(), self.interchange_control_number.as_str()) {
            let reason = mismatch_message(
                "interchange validation failed: mismatched ID",
                tokens[2].as_str(),
                self.interchange_control_number.as_str(),
            );
            return Err(
                EdiParseError::new(
                    EdiParseErrorKind::EnvelopeMismatch,
                    reason.as_str(),
                    Some(tokens),
                ),
            );
        }
        Ok(())
    }

    /// Check a GE trailer against the most recently opened functional
    /// group of this interchange.
    pub fn validate_functional_group(&self, tokens: Vec<String>) -> (r: Result<(), EdiParseError>)
        ensures
            (r is Ok) == (ic_validate_ge(self@, strs_view(tokens@)) is Ok),
            r is Err ==> r->Err_0.kind == ic_validate_ge(self@, strs_view(tokens@))->Err_0,
            r is Err ==> r->Err_0.error_segment is Some && r->Err_0.error_segment->0@ == tokens@,
    {
        if self.functional_groups.len() == 0 {
            return Err(
                EdiParseError::new(
                    EdiParseErrorKind::OutOfOrderSegment,
                    "unable to verify nonexistent functional group",
                    Some(tokens),
                ),
            );
        }
        let last = self.functional_groups.len() - 1;
        proof {
            assert(groups_seq_view(self.functional_groups@).last()
                == self.functional_groups@[last as int]@);
        }
        self.functional_groups[last].validate_functional_group(tokens)
    }

    /// Check an SE trailer against the most recently opened transaction
    /// within the most recently opened functional group.
    pub fn validate_transaction(&self, tokens: Vec<String>) -> (r: Result<(), EdiParseError>)
        ensures
            (r is Ok) == (ic_validate_se(self@, strs_view(tokens@)) is Ok),
            r is Err ==> r->Err_0.kind == ic_validate_se(self@, strs_view(tokens@))->Err_0,
            r is Err ==> r->Err_0.error_segment is Some && r->Err_0.error_segment->0@ == tokens@,
    {
        if self.functional_groups.len() == 0 {
            return Err(
                EdiParseError::new(
                    EdiParseErrorKind::OutOfOrderSegment,
                    "unable to verify transaction within nonexistent functional group",
                    Some(tokens),
                ),
            );
        }
        let last = self.functional_groups.len() - 1;
        proof {
            assert(groups_seq_view(self.functional_groups@).last()
                == self.functional_groups@[last as int]@);
        }
        self.functional_groups[last].validate_transaction(tokens)
    }

    /// Convert this interchange back into its X12 text: the ISA line with
    /// its fixed-width padded fields, each functional group's text, and a
    /// freshly computed IEA line, joined by the segment delimiter.
    pub fn to_x12_string(
        &self,
        segment_delimiter: char,
        element_delimiter: char,
        sub_element_separator: char,
    ) -> (r: String)
        ensures
            r@ == join_on(
                ic_lines(self@, element_delimiter, sub_element_separator),
                segment_delimiter,
            ),
    {
        let mut header: String = "ISA".to_owned();
        push_char(&mut header, element_delimiter);
        header.append(pad_right(self.authorization_qualifier.as_str(), 2).as_str());
        push_char(&mut header, element_delimiter);
        header.append(pad_right(self.authorization_information.as_str(), 10).as_str());
        push_char(&mut header, element_delimiter);
        header.append(pad_right(self.security_qualifier.as_str(), 2).as_str());
        push_char(&mut header, element_delimiter);
        header.append(pad_right(self.security_information.as_str(), 10).as_str());
        push_char(&mut header, element_delimiter);
        header.append(pad_right(self.sender_qualifier.as_str(), 2).as_str());
        push_char(&mut header, element_delimiter);
        header.append(pad_right(self.sender_id.as_str(), 15).as_str());
        push_char(&mut header, element_delimiter);
        header.append(pad_right(self.receiver_qualifier.as_str(), 2).as_str());
        push_char(&mut header, element_delimiter);
        header.append(pad_right(self.receiver_id.as_str(), 15).as_str());
        push_char(&mut header, element_delimiter);
        header.append(pad_right(self.date.as_str(), 6).as_str());
        push_char(&mut header, element_delimiter);
        header.append(pad_right(self.time.as_str(), 4).as_str());
        push_char(&mut header, element_delimiter);
        header.append(pad_right(self.standards_id.as_str(), 1).as_str());
        push_char(&mut header, element_delimiter);
        header.append(pad_right(self.version.as_str(), 5).as_str());
        push_char(&mut header, element_delimiter);
        header.append(pad_right(self.interchange_control_number.as_str(), 9).as_str());
        push_char(&mut header, element_delimiter);
        header.append(pad_right(self.acknowledgement_requested.as_str(), 1).as_str());
        push_char(&mut header, element_delimiter);
        header.append(pad_right(self.test_indicator.as_str(), 1).as_str());
        push_char(&mut header, element_delimiter);
        push_char(&mut header, sub_element_separator);
        proof {
            assert(header@ =~= isa_line(self@, element_delimiter, sub_element_separator));
        }
        let ghost middles = group_lines_of(self@.functional_groups, element_delimiter);
        let mut parts: Vec<String> = Vec::new();
        parts.push(header);
        let mut i: usize = 0;
        proof {
            assert(strs_view(parts@) =~~= seq![
                isa_line(self@, element_delimiter, sub_element_separator),
            ] + joined_each(middles, segment_delimiter).take(0));
        }
        while i < self.functional_groups.len()
            invariant
                0 <= i <= self.functional_groups@.len(),
                middles == group_lines_of(self@.functional_groups, element_delimiter),
                self@.functional_groups.len() == self.functional_groups@.len(),
                strs_view(parts@) == seq![
                    isa_line(self@, element_delimiter, sub_element_separator),
                ] + joined_each(middles, segment_delimiter).take(i as int),
            decreases self.functional_groups@.len() - i,
        {
            let line = self.functional_groups[i].to_x12_string(
                segment_delimiter,
                element_delimiter,
            );
            proof {
                assert(strs_view(parts@).len() == parts@.len());
                assert(joined_each(middles, segment_delimiter).len() == middles.len());
                assert(self.functional_groups@[i as int]@ == self@.functional_groups[i as int]);
                assert(line@ == joined_each(middles, segment_delimiter)[i as int]);
            }
            parts.push(line);
            proof {
                let rhs = seq![isa_line(self@, element_delimiter, sub_element_separator)]
                    + joined_each(middles, segment_delimiter).take(i as int + 1);
                assert forall|k: int| 0 <= k < strs_view(parts@).len() implies strs_view(
                    parts@,
                )[k] == rhs[k] by {
                    assert(strs_view(parts@)[k] == parts@[k]@);
                    if k <= i as int {
                        assert(rhs[k] == (seq![
                            isa_line(self@, element_delimiter, sub_element_separator),
                        ] + joined_each(middles, segment_delimiter).take(i as int))[k]);
                    }
                }
                assert(strs_view(parts@) =~~= rhs);
            }
            i = i + 1;
        }
        let mut closer: String = "IEA".to_owned();
        push_char(&mut closer, element_delimiter);
        closer.append(to_dec_string(self.functional_groups.len() as u128).as_str());
        push_char(&mut closer, element_delimiter);
        closer.append(self.interchange_control_number.as_str());
        proof {
            assert(groups_seq_view(self.functional_groups@).len()
                == self.functional_groups@.len());
            assert(closer@ =~= iea_line(self@, element_delimiter));
        }
        let ghost pre_parts = parts@;
        parts.push(closer);
        let r = join_strings(&parts, segment_delimiter);
        proof {
            let isa = isa_line(self@, element_delimiter, sub_element_separator);
            let iea = iea_line(self@, element_delimiter);
            let composite = seq![seq![isa]] + middles + seq![seq![iea]];
            assert(joined_each(middles, segment_delimiter).take(middles.len() as int) =~~=
                joined_each(middles, segment_delimiter));
            assert(joined_each(middles, segment_delimiter).len() == middles.len());
            assert(strs_view(pre_parts).len() == pre_parts.len());
            assert(pre_parts.len() == 1 + middles.len());
            assert(parts@.len() == 2 + middles.len());
            assert(strs_view(parts@).len() == parts@.len());
            assert(composite.len() == 2 + middles.len());
            assert(joined_each(composite, segment_delimiter).len() == composite.len());
            assert forall|k: int| 0 <= k < composite.len() implies #[trigger] composite[k].len()
                >= 1 by {
                if 1 <= k < 1 + middles.len() {
                    assert(composite[k] == middles[k - 1]);
                    assert(middles[k - 1] == group_lines(
                        self@.functional_groups[k - 1],
                        element_delimiter,
                    ));
                }
            }
            assert forall|k: int| 0 <= k < strs_view(parts@).len() implies strs_view(parts@)[k]
                == joined_each(composite, segment_delimiter)[k] by {
                assert(strs_view(parts@)[k] == parts@[k]@);
                if k < pre_parts.len() {
                    assert(parts@[k] == pre_parts[k]);
                    assert(strs_view(pre_parts)[k] == pre_parts[k]@);
                }
                if k == 0 {
                    assert(composite[0] == seq![isa]);
                    assert(joined_each(composite, segment_delimiter)[0] == join_on(
                        composite[0],
                        segment_delimiter,
                    ));
                } else if k < 1 + middles.len() {
                    assert(composite[k] == middles[k - 1]);
                    assert(strs_view(pre_parts)[k] == (seq![isa] + joined_each(
                        middles,
                        segment_delimiter,
                    ).take(middles.len() as int))[k]);
                    assert(joined_each(composite, segment_delimiter)[k] == join_on(
                        composite[k],
                        segment_delimiter,
                    ));
                    assert(joined_each(middles, segment_delimiter)[k - 1] == join_on(
                        middles[k - 1],
                        segment_delimiter,
                    ));
                } else {
                    assert(composite[k] == seq![iea]);
                    assert(joined_each(composite, segment_delimiter)[k] == join_on(
                        composite[k],
                        segment_delimiter,
                    ));
                }
            }
            assert(strs_view(parts@) =~~= joined_each(composite, segment_delimiter));
            lemma_join_flatten(composite, segment_delimiter);
            lemma_flatten_concat(seq![seq![isa]] + middles, seq![seq![iea]]);
            lemma_flatten_concat(seq![seq![isa]], middles);
            seq![seq![isa]].lemma_flatten_one_element();
            seq![seq![iea]].lemma_flatten_one_element();
            assert(composite =~~= (seq![seq![isa]] + middles) + seq![seq![iea]]);
            assert(composite.flatten() =~~= ic_lines(
                self@,
                element_delimiter,
                sub_element_separator,
            ));
        }
        r
    }
}

} // verus!
