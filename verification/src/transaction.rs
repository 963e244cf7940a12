//! A transaction set (ST/SE pair) and the injected code-to-name table
//! that resolves its human-readable name.

use crate::edi_parse_error::mismatch_message;
use crate::edi_parse_error::mismatch_reason;
use crate::edi_parse_error::EdiParseError;
use crate::edi_parse_error::EdiParseErrorKind;
use crate::generic_segment::seg_from_tokens;
use crate::generic_segment::seg_line;
use crate::generic_segment::seg_lines;
use crate::generic_segment::segs_view;
use crate::generic_segment::GenericSegment;
use crate::generic_segment::GenericSegmentView;
use crate::text::dec_digits;
use crate::text::dec_value;
use crate::text::parse_dec;
use crate::text::str_eq;
use crate::text::strs_view;
use crate::text::to_dec_string;
use crate::text::trim_of;
use crate::text::trimmed;
use crate::text::join_on;
use crate::text::join_strings;
use crate::text::push_char;
use vstd::prelude::*;
use vstd::string::StringExecFns;
use vstd::string::StrSliceExecFns;

verus! {

/// One row of the transaction-name table: a transaction type code and its
/// human-readable name.
#[derive(Debug, PartialEq)]
pub struct NameEntry {
    /// The transaction type code, e.g. "850".
    pub code: String,
    /// The human-readable name, e.g. "Purchase Order".
    pub name: String,
}

/// The mathematical image of a [`NameEntry`].
#[verifier::ext_equal]
pub ghost struct NameEntryView {
    pub code: Seq<char>,
    pub name: Seq<char>,
}

impl View for NameEntry {
    type V = NameEntryView;

    open spec fn view(&self) -> NameEntryView {
        NameEntryView { code: self.code@, name: self.name@ }
    }
}

/// The read-only mapping from transaction type codes to names. It is
/// constructed explicitly by the caller and passed to the parser; a code
/// with no entry resolves to the sentinel "unidentified".
#[derive(Debug, PartialEq)]
pub struct TransactionNames {
    /// The rows of the table, searched front to back; the first match wins.
    pub entries: Vec<NameEntry>,
}

impl View for TransactionNames {
    type V = Seq<NameEntryView>;

    open spec fn view(&self) -> Seq<NameEntryView> {
        Seq::new(self.entries@.len(), |i: int| self.entries@[i]@)
    }
}

/// The name paired with the first entry matching `code`, or the sentinel
/// "unidentified" when no entry matches.
pub open spec fn lookup_spec(names: Seq<NameEntryView>, code: Seq<char>) -> Seq<char>
    decreases names.len(),
{
    if names.len() == 0 {
        "unidentified"@
    } else if names.first().code == code {
        names.first().name
    } else {
        lookup_spec(names.drop_first(), code)
    }
}

impl TransactionNames {
    /// An empty table: every code resolves to "unidentified".
    pub fn new() -> (r: TransactionNames)
        ensures
            r@ == Seq::<NameEntryView>::empty(),
    {
        let r = TransactionNames { entries: Vec::new() };
        proof {
            assert(r@ =~= Seq::<NameEntryView>::empty());
        }
        r
    }

    /// Append one code-to-name row at the end of the table.
    pub fn add(&mut self, code: &str, name: &str)
        ensures
            final(self)@ == old(self)@.push(
                NameEntryView { code: code@, name: name@ },
            ),
    {
        self.entries.push(NameEntry { code: code.to_owned(), name: name.to_owned() });
        proof {
            assert(self@ =~~= old(self)@.push(NameEntryView { code: code@, name: name@ }));
        }
    }

    /// Resolve a transaction type code to its human-readable name.
    pub fn lookup(&self, code: &str) -> (r: String)
        ensures
            r@ == lookup_spec(self@, code@),
    {
        let mut i: usize = 0;
        proof {
            assert(self@.skip(0) =~= self@);
        }
        while i < self.entries.len()
            invariant
                0 <= i <= self.entries@.len(),
                self@.len() == self.entries@.len(),
                lookup_spec(self@, code@) == lookup_spec(self@.skip(i as int), code@),
            decreases self.entries@.len() - i,
        {
            proof {
                assert(self@.skip(i as int).first() == self@[i as int]);
                assert(self@.skip(i as int).drop_first() =~= self@.skip(i as int + 1));
            }
            if str_eq(self.entries[i].code.as_str(), code) {
                return self.entries[i].name.clone();
            }
            i = i + 1;
        }
        proof {
            assert(self@.skip(self@.len() as int) =~= Seq::<NameEntryView>::empty());
        }
        "unidentified".to_owned()
    }
}

/// A transaction set: opened by an ST segment, closed by an SE segment.
#[derive(Debug, PartialEq)]
pub struct Transaction {
    /// The numeric code which represents the type of transaction.
    pub transaction_code: String,
    /// The name of the transaction type in human-readable form, resolved
    /// through the injected [`TransactionNames`] table.
    pub transaction_name: String,
    /// The control number of this transaction within its functional group.
    pub transaction_set_control_number: String,
    /// Identifier of the implementation convention reference, when the ST
    /// segment carried a fourth element.
    pub implementation_convention_reference: Option<String>,
    /// The generic segments contained within this transaction.
    pub segments: Vec<GenericSegment>,
}

/// The mathematical image of a [`Transaction`].
#[verifier::ext_equal]
pub ghost struct TransactionView {
    pub transaction_code: Seq<char>,
    pub transaction_name: Seq<char>,
    pub transaction_set_control_number: Seq<char>,
    pub implementation_convention_reference: Option<Seq<char>>,
    pub segments: Seq<GenericSegmentView>,
}

impl View for Transaction {
    type V = TransactionView;

    open spec fn view(&self) -> TransactionView {
        TransactionView {
            transaction_code: self.transaction_code@,
            transaction_name: self.transaction_name@,
            transaction_set_control_number: self.transaction_set_control_number@,
            implementation_convention_reference: match self.implementation_convention_reference {
                Some(s) => Some(s@),
                None => None,
            },
            segments: segs_view(self.segments@),
        }
    }
}

/// The views of a sequence of transactions.
pub open spec fn txns_view(v: Seq<Transaction>) -> Seq<TransactionView> {
    Seq::new(v.len(), |i: int| v[i]@)
}

/// What parsing an ST token group yields: the trimmed second and third
/// tokens are the type code and control number, a fourth token (when
/// present) is the implementation convention reference, and the name is
/// resolved through the injected table. A group whose trimmed first token
/// is not "ST", or with fewer than three tokens, is rejected.
pub open spec fn st_from_tokens(tokens: Seq<Seq<char>>, names: Seq<NameEntryView>) -> Result<
    TransactionView,
    EdiParseErrorKind,
> {
    if tokens.len() < 1 || trimmed(tokens[0]) != "ST"@ {
        Err(EdiParseErrorKind::MalformedSegment)
    } else if tokens.len() < 3 {
        Err(EdiParseErrorKind::MalformedSegment)
    } else {
        Ok(
            TransactionView {
                transaction_code: trimmed(tokens[1]),
                transaction_name: lookup_spec(names, trimmed(tokens[1])),
                transaction_set_control_number: trimmed(tokens[2]),
                implementation_convention_reference: if tokens.len() >= 4 {
                    Some(trimmed(tokens[3]))
                } else {
                    None
                },
                segments: Seq::<GenericSegmentView>::empty(),
            },
        )
    }
}

/// What validating an SE trailer against a transaction yields: accepted
/// exactly when the raw first token is "SE", the second token reads as the
/// number of segments plus two (the X12 convention counts the ST and SE
/// segments themselves), and the raw third token equals the control
/// number recorded from the ST. A trailer of fewer than three tokens is
/// malformed; a wrong tag is malformed; a count or control-number
/// disagreement is an envelope mismatch.
pub open spec fn validate_se(t: TransactionView, tokens: Seq<Seq<char>>) -> Result<
    (),
    EdiParseErrorKind,
> {
    if tokens.len() < 3 {
        Err(EdiParseErrorKind::MalformedSegment)
    } else if tokens[0] != "SE"@ {
        Err(EdiParseErrorKind::MalformedSegment)
    } else if dec_value(tokens[1]) != Some(t.segments.len() + 2 as nat) {
        Err(EdiParseErrorKind::EnvelopeMismatch)
    } else if tokens[2] != t.transaction_set_control_number {
        Err(EdiParseErrorKind::EnvelopeMismatch)
    } else {
        Ok(())
    }
}

/// The reason text an SE check reports for each way it can fail: a short
/// trailer, a wrong tag, a count that does not read as the number of
/// segments plus two (reported with the declared and the recomputed
/// value), or a control number differing from the ST's (reported with
/// both values).
pub open spec fn se_failure_reason(t: TransactionView, tokens: Seq<Seq<char>>) -> Seq<char> {
    if tokens.len() < 3 {
        "SE segment does not contain enough elements. At least 3 required"@
    } else if tokens[0] != "SE"@ {
        "attempted to validate transaction with non-SE segment"@
    } else if dec_value(tokens[1]) != Some(t.segments.len() + 2 as nat) {
        mismatch_reason(
            "transaction validation failed: incorrect number of segments"@,
            tokens[1],
            dec_digits((t.segments.len() + 2) as nat),
        )
    } else {
        mismatch_reason(
            "transaction validation failed: incorrect transaction ID"@,
            tokens[2],
            t.transaction_set_control_number,
        )
    }
}

/// The ST line of a transaction: tag, code, control number, and the
/// convention reference (an empty element when absent).
pub open spec fn st_line(t: TransactionView, elem_d: char) -> Seq<char> {
    "ST"@ + seq![elem_d] + t.transaction_code + seq![elem_d] + t.transaction_set_control_number
        + seq![elem_d] + (match t.implementation_convention_reference {
        Some(icr) => icr,
        None => Seq::<char>::empty(),
    })
}

/// The SE line of a transaction: tag, recomputed segment count (the
/// number of generic segments plus two), and control number.
pub open spec fn se_line(t: TransactionView, elem_d: char) -> Seq<char> {
    "SE"@ + seq![elem_d] + dec_digits((t.segments.len() + 2) as nat) + seq![elem_d]
        + t.transaction_set_control_number
}

/// All the lines of a transaction, in document order.
pub open spec fn txn_lines(t: TransactionView, elem_d: char) -> Seq<Seq<char>> {
    seq![st_line(t, elem_d)] + seg_lines(t.segments, elem_d) + seq![se_line(t, elem_d)]
}

impl Transaction {
    /// Construct a [`Transaction`] from an ST token group, resolving its
    /// name through the given table.
    pub fn parse_from_tokens(tokens: Vec<String>, names: &TransactionNames) -> (r: Result<
        Transaction,
        EdiParseError,
    >)
        ensures
            (r is Ok) == (st_from_tokens(strs_view(tokens@), names@) is Ok),
            r is Ok ==> r->Ok_0@ == st_from_tokens(strs_view(tokens@), names@)->Ok_0,
            r is Err ==> r->Err_0.kind == st_from_tokens(strs_view(tokens@), names@)->Err_0,
            r is Err ==> r->Err_0.error_segment is Some && r->Err_0.error_segment->0@ == tokens@,
    {
        if tokens.len() < 1 {
            return Err(
                EdiParseError::new(
                    EdiParseErrorKind::MalformedSegment,
                    "attempted to parse ST from non-ST segment",
                    Some(tokens),
                ),
            );
        }
        let tag = trim_of(tokens[0].as_str());
        if !str_eq(tag.as_str(), "ST") {
            return Err(
                EdiParseError::new(
                    EdiParseErrorKind::MalformedSegment,
                    "attempted to parse ST from non-ST segment",
                    Some(tokens),
                ),
            );
        }
        if tokens.len() < 3 {
            return Err(
                EdiParseError::new(
                    EdiParseErrorKind::MalformedSegment,
                    "ST segment does not contain enough elements. At least 3 required",
                    Some(tokens),
                ),
            );
        }
        let transaction_code = trim_of(tokens[1].as_str());
        let transaction_set_control_number = trim_of(tokens[2].as_str());
        let implementation_convention_reference: Option<String> = if tokens.len() >= 4 {
            Some(trim_of(tokens[3].as_str()))
        } else {
            None
        };
        let transaction_name = names.lookup(transaction_code.as_str());
        let result = Transaction {
            transaction_code,
            transaction_name,
            transaction_set_control_number,
            implementation_convention_reference,
            segments: Vec::new(),
        };
        proof {
            assert(segs_view(result.segments@) =~= Seq::<GenericSegmentView>::empty());
            assert(result@ =~~= st_from_tokens(strs_view(tokens@), names@)->Ok_0);
        }
        Ok(result)
    }

    /// Append one generic segment, parsed from its token group, at the end
    /// of this transaction.
    pub fn add_generic_segment(&mut self, tokens: Vec<String>) -> (r: Result<(), EdiParseError>)
        ensures
            seg_from_tokens(strs_view(tokens@)) is Ok ==> r is Ok && final(self)@ == (
            TransactionView {
                segments: old(self)@.segments.push(seg_from_tokens(strs_view(tokens@))->Ok_0),
                ..old(self)@
            }),
            seg_from_tokens(strs_view(tokens@)) is Err ==> r is Err && *final(self) == *old(self)
                && r->Err_0.kind == seg_from_tokens(strs_view(tokens@))->Err_0
                && r->Err_0.error_segment is Some && r->Err_0.error_segment->0@ == tokens@,
    {
        match GenericSegment::parse_from_tokens(tokens) {
            Ok(segment) => {
                self.segments.push(segment);
                proof {
                    assert(segs_view(self.segments@) =~~= segs_view(old(self).segments@).push(
                        self.segments@.last()@,
                    ));
                    assert(self@ =~~= (TransactionView {
                        segments: old(self)@.segments.push(
                            seg_from_tokens(strs_view(tokens@))->Ok_0,
                        ),
                        ..old(self)@
                    }));
                }
                Ok(())
            },
            Err(e) => Err(e),
        }
    }

    /// Check an SE trailer against this transaction.
    pub fn validate_transaction(&self, tokens: Vec<String>) -> (r: Result<(), EdiParseError>)
        ensures
            (r is Ok) == (validate_se(self@, strs_view(tokens@)) is Ok),
            r is Err ==> r->Err_0.kind == validate_se(self@, strs_view(tokens@))->Err_0,
            r is Err ==> r->Err_0.reason@ == se_failure_reason(self@, strs_view(tokens@)),
            r is Err ==> r->Err_0.error_segment is Some && r->Err_0.error_segment->0@ == tokens@,
    {
        if tokens.len() < 3 {
            return Err(
                EdiParseError::new(
                    EdiParseErrorKind::MalformedSegment,
                    "SE segment does not contain enough elements. At least 3 required",
                    Some(tokens),
                ),
            );
        }
        if !str_eq(tokens[0].as_str(), "SE") {
            return Err(
                EdiParseError::new(
                    EdiParseErrorKind::MalformedSegment,
                    "attempted to validate transaction with non-SE segment",
                    Some(tokens),
                ),
            );
        }
        let expected: u128 = self.segments.len() as u128 + 2;
        let count_ok: bool = match parse_dec(tokens[1].as_str()) {
            Some(v) => v == expected,
            None => false,
        };
        proof {
            assert(segs_view(self.segments@).len() == self.segments@.len());
            assert(strs_view(tokens@)[1] == tokens@[1]@);
            assert(strs_view(tokens@)[2] == tokens@[2]@);
        }
        if !count_ok {
            let reason = mismatch_message(
                "transaction validation failed: incorrect number of segments",
                tokens[1].as_str(),
                to_dec_string(expected).as_str(),
            );
            return Err(
                EdiParseError::new(
                    EdiParseErrorKind::EnvelopeMismatch,
                    reason.as_str(),
                    Some(tokens),
                ),
            );
        }
        if !str_eq(tokens[2].as_str(), self.transaction_set_control_number.as_str()) {
            let reason = mismatch_message(
                "transaction validation failed: incorrect transaction ID",
                tokens[2].as_str(),
                self.transaction_set_control_number.as_str(),
            );
            return Err(
                EdiParseError::new(
                    EdiParseErrorKind::EnvelopeMismatch,
                    reason.as_str(),
                    Some(tokens),
                ),
            );
        }
        Ok(())
    }

    /// Convert this transaction back into its X12 text: the ST line, each
    /// segment's line, and a freshly computed SE line, joined by the
    /// segment delimiter.
    pub fn to_x12_string(&self, segment_delimiter: char, element_delimiter: char) -> (r: String)
        ensures
            r@ == join_on(txn_lines(self@, element_delimiter), segment_delimiter),
    {
        let mut header: String = "ST".to_owned();
        push_char(&mut header, element_delimiter);
        header.append(self.transaction_code.as_str());
        push_char(&mut header, element_delimiter);
        header.append(self.transaction_set_control_number.as_str());
        push_char(&mut header, element_delimiter);
        match &self.implementation_convention_reference {
            Some(icr) => header.append(icr.as_str()),
            None => (),
        }
        proof {
            assert(header@ =~= st_line(self@, element_delimiter));
        }
        let mut lines: Vec<String> = Vec::new();
        lines.push(header);
        let mut i: usize = 0;
        proof {
            assert(strs_view(lines@) =~~= seq![st_line(self@, element_delimiter)] + seg_lines(
                self@.segments,
                element_delimiter,
            ).take(0));
        }
        while i < self.segments.len()
            invariant
                0 <= i <= self.segments@.len(),
                self@.segments.len() == self.segments@.len(),
                strs_view(lines@) == seq![st_line(self@, element_delimiter)] + seg_lines(
                    self@.segments,
                    element_delimiter,
                ).take(i as int),
            decreases self.segments@.len() - i,
        {
            let line = self.segments[i].to_x12_string(element_delimiter);
            proof {
                assert(strs_view(lines@).len() == lines@.len());
                assert(line@ == seg_lines(self@.segments, element_delimiter)[i as int]);
            }
            lines.push(line);
            proof {
                let rhs = seq![st_line(self@, element_delimiter)] + seg_lines(
                    self@.segments,
                    element_delimiter,
                ).take(i as int + 1);
                assert forall|k: int| 0 <= k < strs_view(lines@).len() implies strs_view(
                    lines@,
                )[k] == rhs[k] by {
                    assert(strs_view(lines@)[k] == lines@[k]@);
                    if k <= i as int {
                        assert(rhs[k] == (seq![st_line(self@, element_delimiter)] + seg_lines(
                            self@.segments,
                            element_delimiter,
                        ).take(i as int))[k]);
                    }
                }
                assert(strs_view(lines@) =~~= rhs);
            }
            i = i + 1;
        }
        let mut closer: String = "SE".to_owned();
        push_char(&mut closer, element_delimiter);
        closer.append(to_dec_string(self.segments.len() as u128 + 2).as_str());
        push_char(&mut closer, element_delimiter);
        closer.append(self.transaction_set_control_number.as_str());
        proof {
            assert(segs_view(self.segments@).len() == self.segments@.len());
            assert(closer@ =~= se_line(self@, element_delimiter));
        }
        lines.push(closer);
        proof {
            assert(seg_lines(self@.segments, element_delimiter).take(
                self@.segments.len() as int,
            ) =~~= seg_lines(self@.segments, element_delimiter));
            assert(strs_view(lines@) =~~= txn_lines(self@, element_delimiter));
        }
        join_strings(&lines, segment_delimiter)
    }
}

} // verus!
