//! A functional group (GS/GE pair) and its transactions.

use crate::edi_parse_error::mismatch_message;
use crate::edi_parse_error::mismatch_reason;
use crate::edi_parse_error::EdiParseError;
use crate::edi_parse_error::EdiParseErrorKind;
use crate::generic_segment::seg_from_tokens;
use crate::text::dec_digits;
use crate::text::dec_value;
use crate::text::join_on;
use crate::text::join_strings;
use crate::text::joined_each;
use crate::text::lemma_join_flatten;
use crate::text::parse_dec;
use crate::text::push_char;
use crate::text::str_eq;
use crate::text::strs_view;
use crate::text::to_dec_string;
use crate::text::trim_of;
use crate::text::trimmed;
use crate::transaction::st_from_tokens;
use crate::transaction::txn_lines;
use crate::transaction::txns_view;
use crate::transaction::validate_se;
use crate::transaction::Transaction;
use crate::transaction::TransactionNames;
use crate::transaction::TransactionView;
use vstd::prelude::*;
use vstd::seq_lib::lemma_flatten_concat;
use vstd::string::StrSliceExecFns;
use vstd::string::StringExecFns;

verus! {

/// A functional group: opened by a GS segment, closed by a GE segment.
#[derive(Debug, PartialEq)]
pub struct FunctionalGroup {
    /// Identifies the function of this group.
    pub functional_identifier_code: String,
    /// Identifies the sender of this group.
    pub application_sender_code: String,
    /// Identifies the receiver of this group.
    pub application_receiver_code: String,
    /// The date of the function performed.
    pub date: String,
    /// The time of the function performed, on a 24-hour clock.
    pub time: String,
    /// The control number of this group; the GE trailer must repeat it.
    pub group_control_number: String,
    /// Code identifying the issuer of the standard.
    pub responsible_agency_code: String,
    /// Code indicating the version, release and industry identifier of
    /// the EDI standard being used.
    pub version: String,
    /// The transactions this functional group contains.
    pub transactions: Vec<Transaction>,
}

/// The mathematical image of a [`FunctionalGroup`].
#[verifier::ext_equal]
pub ghost struct FunctionalGroupView {
    pub functional_identifier_code: Seq<char>,
    pub application_sender_code: Seq<char>,
    pub application_receiver_code: Seq<char>,
    pub date: Seq<char>,
    pub time: Seq<char>,
    pub group_control_number: Seq<char>,
    pub responsible_agency_code: Seq<char>,
    pub version: Seq<char>,
    pub transactions: Seq<TransactionView>,
}

impl View for FunctionalGroup {
    type V = FunctionalGroupView;

    open spec fn view(&self) -> FunctionalGroupView {
        FunctionalGroupView {
            functional_identifier_code: self.functional_identifier_code@,
            application_sender_code: self.application_sender_code@,
            application_receiver_code: self.application_receiver_code@,
            date: self.date@,
            time: self.time@,
            group_control_number: self.group_control_number@,
            responsible_agency_code: self.responsible_agency_code@,
            version: self.version@,
            transactions: txns_view(self.transactions@),
        }
    }
}

/// The views of a sequence of functional groups.
pub open spec fn groups_seq_view(v: Seq<FunctionalGroup>) -> Seq<FunctionalGroupView> {
    Seq::new(v.len(), |i: int| v[i]@)
}

/// What parsing a GS token group yields: the trimmed tokens one through
/// eight become the group's fields. A group whose trimmed first token is
/// not "GS", or with fewer than nine tokens, is rejected.
pub open spec fn gs_from_tokens(tokens: Seq<Seq<char>>) -> Result<
    FunctionalGroupView,
    EdiParseErrorKind,
> {
    if tokens.len() < 1 || trimmed(tokens[0]) != "GS"@ {
        Err(EdiParseErrorKind::MalformedSegment)
    } else if tokens.len() < 9 {
        Err(EdiParseErrorKind::MalformedSegment)
    } else {
        Ok(
            FunctionalGroupView {
                functional_identifier_code: trimmed(tokens[1]),
                application_sender_code: trimmed(tokens[2]),
                application_receiver_code: trimmed(tokens[3]),
                date: trimmed(tokens[4]),
                time: trimmed(tokens[5]),
                group_control_number: trimmed(tokens[6]),
                responsible_agency_code: trimmed(tokens[7]),
                version: trimmed(tokens[8]),
                transactions: Seq::<TransactionView>::empty(),
            },
        )
    }
}

/// What validating a GE trailer against a group yields: accepted exactly
/// when the raw first token is "GE", the second token reads as the number
/// of transactions, and the raw third token equals the control number
/// recorded from the GS.
pub open spec fn validate_ge(g: FunctionalGroupView, tokens: Seq<Seq<char>>) -> Result<
    (),
    EdiParseErrorKind,
> {
    if tokens.len() < 3 {
        Err(EdiParseErrorKind::MalformedSegment)
    } else if tokens[0] != "GE"@ {
        Err(EdiParseErrorKind::MalformedSegment)
    } else if dec_value(tokens[1]) != Some(g.transactions.len() as nat) {
        Err(EdiParseErrorKind::EnvelopeMismatch)
    } else if tokens[2] != g.group_control_number {
        Err(EdiParseErrorKind::EnvelopeMismatch)
    } else {
        Ok(())
    }
}

/// The group after a generic segment is appended to its most recently
/// opened transaction; an error when no transaction is open or the
/// segment's token group is malformed.
pub open spec fn group_add_seg(g: FunctionalGroupView, tokens: Seq<Seq<char>>) -> Result<
    FunctionalGroupView,
    EdiParseErrorKind,
> {
    if g.transactions.len() == 0 {
        Err(EdiParseErrorKind::OutOfOrderSegment)
    } else {
        match seg_from_tokens(tokens) {
            Ok(sv) => Ok(
                FunctionalGroupView {
                    transactions: g.transactions.update(
                        g.transactions.len() - 1,
                        TransactionView {
                            segments: g.transactions.last().segments.push(sv),
                            ..g.transactions.last()
                        },
                    ),
                    ..g
                },
            ),
            Err(k) => Err(k),
        }
    }
}

/// What validating an SE trailer at the group level yields: the check is
/// made against the most recently opened transaction, and fails as out of
/// order when none is open.
pub open spec fn group_validate_se(g: FunctionalGroupView, tokens: Seq<Seq<char>>) -> Result<
    (),
    EdiParseErrorKind,
> {
    if g.transactions.len() == 0 {
        Err(EdiParseErrorKind::OutOfOrderSegment)
    } else {
        validate_se(g.transactions.last(), tokens)
    }
}

/// The reason text a GE check reports for each way it can fail, with the
/// declared and the recomputed value embedded on a mismatch.
pub open spec fn ge_failure_reason(g: FunctionalGroupView, tokens: Seq<Seq<char>>) -> Seq<char> {
    if tokens.len() < 3 {
        "GE segment does not contain enough elements. At least 3 required"@
    } else if tokens[0] != "GE"@ {
        "attempted to call GE verification on non-GE segment"@
    } else if dec_value(tokens[1]) != Some(g.transactions.len() as nat) {
        mismatch_reason(
            "functional group validation failed: incorrect number of transactions"@,
            tokens[1],
            dec_digits(g.transactions.len()),
        )
    } else {
        mismatch_reason(
            "functional group validation failed: mismatched ID"@,
            tokens[2],
            g.group_control_number,
        )
    }
}

/// The GS line of a group: its tag and eight fields.
pub open spec fn gs_line(g: FunctionalGroupView, elem_d: char) -> Seq<char> {
    "GS"@ + seq![elem_d] + g.functional_identifier_code + seq![elem_d] + g.application_sender_code
        + seq![elem_d] + g.application_receiver_code + seq![elem_d] + g.date + seq![elem_d]
        + g.time + seq![elem_d] + g.group_control_number + seq![elem_d]
        + g.responsible_agency_code + seq![elem_d] + g.version
}

/// The GE line of a group: tag, recomputed transaction count, and control
/// number.
pub open spec fn ge_line(g: FunctionalGroupView, elem_d: char) -> Seq<char> {
    "GE"@ + seq![elem_d] + dec_digits(g.transactions.len()) + seq![elem_d]
        + g.group_control_number
}

/// The line lists of a run of transactions.
pub open spec fn txn_lines_of(ts: Seq<TransactionView>, elem_d: char) -> Seq<Seq<Seq<char>>> {
    Seq::new(ts.len(), |i: int| txn_lines(ts[i], elem_d))
}

/// All the lines of a functional group, in document order.
pub open spec fn group_lines(g: FunctionalGroupView, elem_d: char) -> Seq<Seq<char>> {
    seq![gs_line(g, elem_d)] + txn_lines_of(g.transactions, elem_d).flatten() + seq![
        ge_line(g, elem_d),
    ]
}

impl FunctionalGroup {
    /// Construct a [`FunctionalGroup`] from a GS token group.
    pub fn parse_from_tokens(tokens: Vec<String>) -> (r: Result<FunctionalGroup, EdiParseError>)
        ensures
            (r is Ok) == (gs_from_tokens(strs_view(tokens@)) is Ok),
            r is Ok ==> r->Ok_0@ == gs_from_tokens(strs_view(tokens@))->Ok_0,
            r is Err ==> r->Err_0.kind == gs_from_tokens(strs_view(tokens@))->Err_0,
            r is Err ==> r->Err_0.error_segment is Some && r->Err_0.error_segment->0@ == tokens@,
    {
        if tokens.len() < 1 {
            return Err(
                EdiParseError::new(
                    EdiParseErrorKind::MalformedSegment,
                    "attempted to parse GS from non-GS segment",
                    Some(tokens),
                ),
            );
        }
        let tag = trim_of(tokens[0].as_str());
        if !str_eq(tag.as_str(), "GS") {
            return Err(
                EdiParseError::new(
                    EdiParseErrorKind::MalformedSegment,
                    "attempted to parse GS from non-GS segment",
                    Some(tokens),
                ),
            );
        }
        if tokens.len() < 9 {
            return Err(
                EdiParseError::new(
                    EdiParseErrorKind::MalformedSegment,
                    "GS segment does not contain enough elements. At least 9 required",
                    Some(tokens),
                ),
            );
        }
        let result = FunctionalGroup {
            functional_identifier_code: trim_of(tokens[1].as_str()),
            application_sender_code: trim_of(tokens[2].as_str()),
            application_receiver_code: trim_of(tokens[3].as_str()),
            date: trim_of(tokens[4].as_str()),
            time: trim_of(tokens[5].as_str()),
            group_control_number: trim_of(tokens[6].as_str()),
            responsible_agency_code: trim_of(tokens[7].as_str()),
            version: trim_of(tokens[8].as_str()),
            transactions: Vec::new(),
        };
        proof {
            assert(txns_view(result.transactions@) =~= Seq::<TransactionView>::empty());
            assert(result@ =~~= gs_from_tokens(strs_view(tokens@))->Ok_0);
        }
        Ok(result)
    }

    /// Append a transaction, parsed from its ST token group, at the end of
    /// this group.
    pub fn add_transaction(&mut self, tokens: Vec<String>, names: &TransactionNames) -> (r: Result<
        (),
        EdiParseError,
    >)
        ensures
            st_from_tokens(strs_view(tokens@), names@) is Ok ==> r is Ok && final(self)@ == (
            FunctionalGroupView {
                transactions: old(self)@.transactions.push(
                    st_from_tokens(strs_view(tokens@), names@)->Ok_0,
                ),
                ..old(self)@
            }),
            st_from_tokens(strs_view(tokens@), names@) is Err ==> r is Err && final(self)@ == old(
                self,
            )@ && r->Err_0.kind == st_from_tokens(strs_view(tokens@), names@)->Err_0
                && r->Err_0.error_segment is Some && r->Err_0.error_segment->0@ == tokens@,
    {
        match Transaction::parse_from_tokens(tokens, names) {
            Ok(transaction) => {
                self.transactions.push(transaction);
                proof {
                    assert(txns_view(self.transactions@) =~~= txns_view(
                        old(self).transactions@,
                    ).push(self.transactions@.last()@));
                    assert(self@ =~~= (FunctionalGroupView {
                        transactions: old(self)@.transactions.push(
                            st_from_tokens(strs_view(tokens@), names@)->Ok_0,
                        ),
                        ..old(self)@
                    }));
                }
                Ok(())
            },
            Err(e) => Err(e),
        }
    }

    /// Append a generic segment to the most recently opened transaction of
    /// this group.
    pub fn add_generic_segment(&mut self, tokens: Vec<String>) -> (r: Result<(), EdiParseError>)
        ensures
            group_add_seg(old(self)@, strs_view(tokens@)) is Ok ==> r is Ok && final(self)@
                == group_add_seg(old(self)@, strs_view(tokens@))->Ok_0,
            group_add_seg(old(self)@, strs_view(tokens@)) is Err ==> r is Err && final(self)@
                == old(self)@ && r->Err_0.kind == group_add_seg(
                old(self)@,
                strs_view(tokens@),
            )->Err_0 && r->Err_0.error_segment is Some && r->Err_0.error_segment->0@ == tokens@,
    {
        if self.transactions.len() == 0 {
            return Err(
                EdiParseError::new(
                    EdiParseErrorKind::OutOfOrderSegment,
                    "unable to enqueue generic segment when no transactions have been enqueued",
                    Some(tokens),
                ),
            );
        }
        match self.transactions.pop() {
            Some(mut transaction) => {
                let result = transaction.add_generic_segment(tokens);
                self.transactions.push(transaction);
                proof {
                    assert(txns_view(self.transactions@).len() == txns_view(
                        old(self).transactions@,
                    ).len());
                    match result {
                        Ok(()) => {
                            assert(self@ =~~= group_add_seg(old(self)@, strs_view(tokens@))->Ok_0);
                        },
                        Err(_) => {
                            assert(self@ =~~= old(self)@);
                        },
                    }
                }
                match result {
                    Ok(()) => Ok(()),
                    Err(e) => Err(e),
                }
            },
            None => {
                proof {
                    assert(false);
                }
                Err(
                    EdiParseError::new(
                        EdiParseErrorKind::OutOfOrderSegment,
                        "unable to enqueue generic segment when no transactions have been enqueued",
                        None,
                    ),
                )
            },
        }
    }

    /// Check a GE trailer against this group.
    pub fn validate_functional_group(&self, tokens: Vec<String>) -> (r: Result<(), EdiParseError>)
        ensures
            (r is Ok) == (validate_ge(self@, strs_view(tokens@)) is Ok),
            r is Err ==> r->Err_0.kind == validate_ge(self@, strs_view(tokens@))->Err_0,
            r is Err ==> r->Err_0.reason@ == ge_failure_reason(self@, strs_view(tokens@)),
            r is Err ==> r->Err_0.error_segment is Some && r->Err_0.error_segment->0@ == tokens@,
    {
        if tokens.len() < 3 {
            return Err(
                EdiParseError::new(
                    EdiParseErrorKind::MalformedSegment,
                    "GE segment does not contain enough elements. At least 3 required",
                    Some(tokens),
                ),
            );
        }
        if !str_eq(tokens[0].as_str(), "GE") {
            return Err(
                EdiParseError::new(
                    EdiParseErrorKind::MalformedSegment,
                    "attempted to call GE verification on non-GE segment",
                    Some(tokens),
                ),
            );
        }
        let expected: u128 = self.transactions.len() as u128;
        let count_ok: bool = match parse_dec(tokens[1].as_str()) {
            Some(v) => v == expected,
            None => false,
        };
        proof {
            assert(txns_view(self.transactions@).len() == self.transactions@.len());
            assert(strs_view(tokens@)[1] == tokens@[1]@);
            assert(strs_view(tokens@)[2] == tokens@[2]@);
        }
        if !count_ok {
            let reason = mismatch_message(
                "functional group validation failed: incorrect number of transactions",
                tokens[1].as_str(),
                to_dec_string(expected).as_str(),
            );
            return Err(
                EdiParseError::new(
                    EdiParseErrorKind::EnvelopeMismatch,
                    reason.as_str(),
                    Some(tokens),
                ),
            );
        }
        if !str_eq(tokens[2].as_str(), self.group_control_number.as_str()) {
            let reason = mismatch_message(
                "functional group validation failed: mismatched ID",
                tokens[2].as_str(),
                self.group_control_number.as_str(),
            );
            return Err(
                EdiParseError::new(
                    EdiParseErrorKind::EnvelopeMismatch,
                    reason.as_str(),
                    Some(tokens),
                ),
            );
        }
        Ok(())
    }

    /// Check an SE trailer against the most recently opened transaction of
    /// this group.
    pub fn validate_transaction(&self, tokens: Vec<String>) -> (r: Result<(), EdiParseError>)
        ensures
            (r is Ok) == (group_validate_se(self@, strs_view(tokens@)) is Ok),
            r is Err ==> r->Err_0.kind == group_validate_se(self@, strs_view(tokens@))->Err_0,
            r is Err ==> r->Err_0.error_segment is Some && r->Err_0.error_segment->0@ == tokens@,
    {
        if self.transactions.len() == 0 {
            return Err(
                EdiParseError::new(
                    EdiParseErrorKind::OutOfOrderSegment,
                    "unable to validate nonexistent transaction",
                    Some(tokens),
                ),
            );
        }
        let last = self.transactions.len() - 1;
        proof {
            assert(txns_view(self.transactions@).last() == self.transactions@[last as int]@);
        }
        self.transactions[last].validate_transaction(tokens)
    }

    /// Convert this group back into its X12 text: the GS line, each
    /// transaction's text, and a freshly computed GE line, joined by the
    /// segment delimiter.
    pub fn to_x12_string(&self, segment_delimiter: char, element_delimiter: char) -> (r: String)
        ensures
            r@ == join_on(group_lines(self@, element_delimiter), segment_delimiter),
    {
        let mut header: String = "GS".to_owned();
        push_char(&mut header, element_delimiter);
        header.append(self.functional_identifier_code.as_str());
        push_char(&mut header, element_delimiter);
        header.append(self.application_sender_code.as_str());
        push_char(&mut header, element_delimiter);
        header.append(self.application_receiver_code.as_str());
        push_char(&mut header, element_delimiter);
        header.append(self.date.as_str());
        push_char(&mut header, element_delimiter);
        header.append(self.time.as_str());
        push_char(&mut header, element_delimiter);
        header.append(self.group_control_number.as_str());
        push_char(&mut header, element_delimiter);
        header.append(self.responsible_agency_code.as_str());
        push_char(&mut header, element_delimiter);
        header.append(self.version.as_str());
        proof {
            assert(header@ =~= gs_line(self@, element_delimiter));
        }
        let ghost middles = txn_lines_of(self@.transactions, element_delimiter);
        let mut parts: Vec<String> = Vec::new();
        parts.push(header);
        let mut i: usize = 0;
        proof {
            assert(strs_view(parts@) =~~= seq![gs_line(self@, element_delimiter)] + joined_each(
                middles,
                segment_delimiter,
            ).take(0));
        }
        while i < self.transactions.len()
            invariant
                0 <= i <= self.transactions@.len(),
                middles == txn_lines_of(self@.transactions, element_delimiter),
                self@.transactions.len() == self.transactions@.len(),
                strs_view(parts@) == seq![gs_line(self@, element_delimiter)] + joined_each(
                    middles,
                    segment_delimiter,
                ).take(i as int),
            decreases self.transactions@.len() - i,
        {
            let line = self.transactions[i].to_x12_string(segment_delimiter, element_delimiter);
            proof {
                assert(strs_view(parts@).len() == parts@.len());
                assert(joined_each(middles, segment_delimiter).len() == middles.len());
                assert(self.transactions@[i as int]@ == self@.transactions[i as int]);
                assert(line@ == joined_each(middles, segment_delimiter)[i as int]);
            }
            parts.push(line);
            proof {
                let rhs = seq![gs_line(self@, element_delimiter)] + joined_each(
                    middles,
                    segment_delimiter,
                ).take(i as int + 1);
                assert forall|k: int| 0 <= k < strs_view(parts@).len() implies strs_view(
                    parts@,
                )[k] == rhs[k] by {
                    assert(strs_view(parts@)[k] == parts@[k]@);
                    if k <= i as int {
                        assert(rhs[k] == (seq![gs_line(self@, element_delimiter)] + joined_each(
                            middles,
                            segment_delimiter,
                        ).take(i as int))[k]);
                    }
                }
                assert(strs_view(parts@) =~~= rhs);
            }
            i = i + 1;
        }
        let mut closer: String = "GE".to_owned();
        push_char(&mut closer, element_delimiter);
        closer.append(to_dec_string(self.transactions.len() as u128).as_str());
        push_char(&mut closer, element_delimiter);
        closer.append(self.group_control_number.as_str());
        proof {
            assert(txns_view(self.transactions@).len() == self.transactions@.len());
            assert(closer@ =~= ge_line(self@, element_delimiter));
        }
        let ghost pre_parts = parts@;
        parts.push(closer);
        let r = join_strings(&parts, segment_delimiter);
        proof {
            let composite = seq![seq![gs_line(self@, element_delimiter)]] + middles + seq![
                seq![ge_line(self@, element_delimiter)],
            ];
            assert(joined_each(middles, segment_delimiter).take(middles.len() as int) =~~=
                joined_each(middles, segment_delimiter));
            assert(joined_each(middles, segment_delimiter).len() == middles.len());
            assert(strs_view(pre_parts).len() == pre_parts.len());
            assert(pre_parts.len() == 1 + middles.len());
            assert(parts@.len() == 2 + middles.len());
            assert(strs_view(parts@).len() == parts@.len());
            assert(composite.len() == 2 + middles.len());
            assert(joined_each(composite, segment_delimiter).len() == composite.len());
            assert forall|k: int| 0 <= k < composite.len() implies #[trigger] composite[k].len()
                >= 1 by {
                if 1 <= k < 1 + middles.len() {
                    assert(composite[k] == middles[k - 1]);
                    assert(middles[k - 1] == txn_lines(self@.transactions[k - 1], element_delimiter));
                }
            }
            assert forall|k: int| 0 <= k < strs_view(parts@).len() implies strs_view(parts@)[k]
                == joined_each(composite, segment_delimiter)[k] by {
                assert(strs_view(parts@)[k] == parts@[k]@);
                if k < pre_parts.len() {
                    assert(parts@[k] == pre_parts[k]);
                    assert(strs_view(pre_parts)[k] == pre_parts[k]@);
                }
                if k == 0 {
                    assert(composite[0] == seq![gs_line(self@, element_delimiter)]);
                    assert(joined_each(composite, segment_delimiter)[0] == join_on(
                        composite[0],
                        segment_delimiter,
                    ));
                } else if k < 1 + middles.len() {
                    assert(composite[k] == middles[k - 1]);
                    assert(strs_view(pre_parts)[k] == (seq![gs_line(self@, element_delimiter)]
                        + joined_each(middles, segment_delimiter).take(middles.len() as int))[k]);
                    assert(joined_each(composite, segment_delimiter)[k] == join_on(
                        composite[k],
                        segment_delimiter,
                    ));
                    assert(joined_each(middles, segment_delimiter)[k - 1] == join_on(
                        middles[k - 1],
                        segment_delimiter,
                    ));
                } else {
                    assert(composite[k] == seq![ge_line(self@, element_delimiter)]);
                    assert(joined_each(composite, segment_delimiter)[k] == join_on(
                        composite[k],
                        segment_delimiter,
                    ));
                }
            }
            assert(strs_view(parts@) =~~= joined_each(composite, segment_delimiter));
            lemma_join_flatten(composite, segment_delimiter);
            lemma_flatten_concat(
                seq![seq![gs_line(self@, element_delimiter)]] + middles,
                seq![seq![ge_line(self@, element_delimiter)]],
            );
            lemma_flatten_concat(seq![seq![gs_line(self@, element_delimiter)]], middles);
            seq![seq![gs_line(self@, element_delimiter)]].lemma_flatten_one_element();
            seq![seq![ge_line(self@, element_delimiter)]].lemma_flatten_one_element();
            assert(seq![seq![gs_line(self@, element_delimiter)]].flatten() =~~= seq![
                gs_line(self@, element_delimiter),
            ]);
            assert(seq![seq![ge_line(self@, element_delimiter)]].flatten() =~~= seq![
                ge_line(self@, element_delimiter),
            ]);
            assert(composite =~~= (seq![seq![gs_line(self@, element_delimiter)]] + middles) + seq![
                seq![ge_line(self@, element_delimiter)],
            ]);
            assert(composite.flatten() =~~= group_lines(self@, element_delimiter));
        }
        r
    }
}

} // verus!
