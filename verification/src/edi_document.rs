//! The document assembler: folds the tokenizer's output into a four-level
//! tree, and the whole-document serializer.

use crate::edi_parse_error::EdiParseError;
use crate::edi_parse_error::EdiParseErrorKind;
use crate::interchange_control::ic_add_group;
use crate::interchange_control::ic_add_seg;
use crate::interchange_control::ic_add_txn;
use crate::interchange_control::ic_lines;
use crate::interchange_control::ic_validate_ge;
use crate::interchange_control::ic_validate_se;
use crate::interchange_control::ics_view;
use crate::interchange_control::isa_from_tokens;
use crate::interchange_control::validate_iea;
use crate::interchange_control::InterchangeControl;
use crate::interchange_control::InterchangeControlView;
use crate::text::clone_tokens;
use crate::text::join_on;
use crate::text::join_strings;
use crate::text::joined_each;
use crate::text::lemma_join_flatten;
use crate::text::lemma_split_all_shape;
use crate::text::str_eq;
use crate::text::strs_view;
use crate::tokenizer::tokenize;
use crate::tokenizer::tokenize_spec;
use crate::transaction::NameEntryView;
use crate::transaction::TransactionNames;
use vstd::prelude::*;
use vstd::string::StrSliceExecFns;

verus! {

/// An entire parsed EDI document: its interchanges and the three
/// delimiter characters it was written with.
#[derive(Debug, PartialEq)]
pub struct EdiDocument {
    /// The interchanges (ISA/IEA envelopes) held within this document.
    pub interchanges: Vec<InterchangeControl>,
    /// The separator between segments in the document.
    pub segment_delimiter: char,
    /// The separator between sub-elements in the document.
    pub sub_element_delimiter: char,
    /// The separator between elements in the document.
    pub element_delimiter: char,
}

/// The mathematical image of an [`EdiDocument`].
#[verifier::ext_equal]
pub ghost struct DocumentView {
    pub interchanges: Seq<InterchangeControlView>,
    pub segment_delimiter: char,
    pub sub_element_delimiter: char,
    pub element_delimiter: char,
}

impl View for EdiDocument {
    type V = DocumentView;

    open spec fn view(&self) -> DocumentView {
        DocumentView {
            interchanges: ics_view(self.interchanges@),
            segment_delimiter: self.segment_delimiter,
            sub_element_delimiter: self.sub_element_delimiter,
            element_delimiter: self.element_delimiter,
        }
    }
}

/// One step of the assembler: route a single token group by its raw first
/// token. ISA opens a new interchange; GS, ST and generic tags append to
/// the innermost open container of the matching level; IEA, GE and SE
/// validate against it in strict mode and are consumed untouched in loose
/// mode. A tag whose required enclosing level is not open is out of
/// order.
pub open spec fn assemble_step(
    state: Seq<InterchangeControlView>,
    g: Seq<Seq<char>>,
    loose: bool,
    names: Seq<NameEntryView>,
) -> Result<Seq<InterchangeControlView>, EdiParseErrorKind> {
    let tag = g[0];
    if tag == "ISA"@ {
        match isa_from_tokens(g) {
            Ok(ic) => Ok(state.push(ic)),
            Err(k) => Err(k),
        }
    } else if tag == "GS"@ {
        if state.len() == 0 {
            Err(EdiParseErrorKind::OutOfOrderSegment)
        } else {
            match ic_add_group(state.last(), g) {
                Ok(ic) => Ok(state.update(state.len() - 1, ic)),
                Err(k) => Err(k),
            }
        }
    } else if tag == "ST"@ {
        if state.len() == 0 {
            Err(EdiParseErrorKind::OutOfOrderSegment)
        } else {
            match ic_add_txn(state.last(), g, names) {
                Ok(ic) => Ok(state.update(state.len() - 1, ic)),
                Err(k) => Err(k),
            }
        }
    } else if tag == "IEA"@ {
        if loose {
            Ok(state)
        } else if state.len() == 0 {
            Err(EdiParseErrorKind::OutOfOrderSegment)
        } else {
            match validate_iea(state.last(), g) {
                Ok(u) => Ok(state),
                Err(k) => Err(k),
            }
        }
    } else if tag == "GE"@ {
        if loose {
            Ok(state)
        } else if state.len() == 0 {
            Err(EdiParseErrorKind::OutOfOrderSegment)
        } else {
            match ic_validate_ge(state.last(), g) {
                Ok(u) => Ok(state),
                Err(k) => Err(k),
            }
        }
    } else if tag == "SE"@ {
        if loose {
            Ok(state)
        } else if state.len() == 0 {
            Err(EdiParseErrorKind::OutOfOrderSegment)
        } else {
            match ic_validate_se(state.last(), g) {
                Ok(u) => Ok(state),
                Err(k) => Err(k),
            }
        }
    } else {
        if state.len() == 0 {
            Err(EdiParseErrorKind::OutOfOrderSegment)
        } else {
            match ic_add_seg(state.last(), g) {
                Ok(ic) => Ok(state.update(state.len() - 1, ic)),
                Err(k) => Err(k),
            }
        }
    }
}

/// The assembler: a left-to-right fold of [`assemble_step`] over the
/// token groups, aborting at the first failure.
pub open spec fn assemble_from(
    state: Seq<InterchangeControlView>,
    groups: Seq<Seq<Seq<char>>>,
    loose: bool,
    names: Seq<NameEntryView>,
) -> Result<Seq<InterchangeControlView>, EdiParseErrorKind>
    decreases groups.len(),
{
    if groups.len() == 0 {
        Ok(state)
    } else {
        match assemble_step(state, groups.first(), loose, names) {
            Ok(next) => assemble_from(next, groups.drop_first(), loose, names),
            Err(k) => Err(k),
        }
    }
}

/// The token group at which the fold first fails: the group whose step
/// raised the error the parse reports. Meaningful only when the fold
/// fails; on a stream the fold accepts it is the empty group.
pub open spec fn assemble_failure_group(
    state: Seq<InterchangeControlView>,
    groups: Seq<Seq<Seq<char>>>,
    loose: bool,
    names: Seq<NameEntryView>,
) -> Seq<Seq<char>>
    decreases groups.len(),
{
    if groups.len() == 0 {
        Seq::<Seq<char>>::empty()
    } else {
        match assemble_step(state, groups.first(), loose, names) {
            Ok(next) => assemble_failure_group(next, groups.drop_first(), loose, names),
            Err(k) => groups.first(),
        }
    }
}

/// What parsing a whole document yields: tokenize, then assemble from an
/// empty state; the delimiters discovered by the tokenizer ride along in
/// the result.
pub open spec fn parse_spec(input: Seq<char>, loose: bool, names: Seq<NameEntryView>) -> Result<
    DocumentView,
    EdiParseErrorKind,
> {
    match tokenize_spec(input) {
        Ok(tv) => match assemble_from(Seq::<InterchangeControlView>::empty(), tv.tokens, loose, names) {
            Ok(ics) => Ok(
                DocumentView {
                    interchanges: ics,
                    segment_delimiter: tv.segment_delimiter,
                    sub_element_delimiter: tv.sub_element_delimiter,
                    element_delimiter: tv.element_delimiter,
                },
            ),
            Err(k) => Err(k),
        },
        Err(k) => Err(k),
    }
}

/// Folding one more token group at the end amounts to folding the prefix
/// and then stepping once.
pub proof fn lemma_assemble_from_snoc(
    state: Seq<InterchangeControlView>,
    groups: Seq<Seq<Seq<char>>>,
    g: Seq<Seq<char>>,
    loose: bool,
    names: Seq<NameEntryView>,
)
    ensures
        assemble_from(state, groups.push(g), loose, names) == (match assemble_from(
            state,
            groups,
            loose,
            names,
        ) {
            Ok(st) => assemble_step(st, g, loose, names),
            Err(k) => Err(k),
        }),
    decreases groups.len(),
{
    if groups.len() == 0 {
        assert(groups.push(g).first() == g);
        assert(groups.push(g).drop_first() =~~= Seq::<Seq<Seq<char>>>::empty());
        match assemble_step(state, g, loose, names) {
            Ok(next) => {
                assert(assemble_from(next, groups.push(g).drop_first(), loose, names) == Ok::<
                    Seq<InterchangeControlView>,
                    EdiParseErrorKind,
                >(next));
            },
            Err(k) => {},
        }
    } else {
        assert(groups.push(g).first() == groups.first());
        assert(groups.push(g).drop_first() =~~= groups.drop_first().push(g));
        match assemble_step(state, groups.first(), loose, names) {
            Ok(next) => {
                lemma_assemble_from_snoc(next, groups.drop_first(), g, loose, names);
            },
            Err(k) => {},
        }
    }
}

/// Folding a concatenation folds the first part and continues with the
/// second from the state it reached.
pub proof fn lemma_assemble_from_app(
    state: Seq<InterchangeControlView>,
    a: Seq<Seq<Seq<char>>>,
    b: Seq<Seq<Seq<char>>>,
    loose: bool,
    names: Seq<NameEntryView>,
)
    ensures
        assemble_from(state, a + b, loose, names) == (match assemble_from(state, a, loose, names) {
            Ok(st) => assemble_from(st, b, loose, names),
            Err(k) => Err(k),
        }),
    decreases a.len(),
{
    if a.len() == 0 {
        assert(a + b =~~= b);
    } else {
        assert((a + b).first() == a.first());
        assert((a + b).drop_first() =~~= a.drop_first() + b);
        match assemble_step(state, a.first(), loose, names) {
            Ok(next) => {
                lemma_assemble_from_app(next, a.drop_first(), b, loose, names);
            },
            Err(k) => {},
        }
    }
}

/// Walking a concatenation for the failing group passes through the
/// first part whole when the fold accepts it.
proof fn lemma_failure_group_app(
    state: Seq<InterchangeControlView>,
    a: Seq<Seq<Seq<char>>>,
    b: Seq<Seq<Seq<char>>>,
    loose: bool,
    names: Seq<NameEntryView>,
)
    requires
        assemble_from(state, a, loose, names) is Ok,
    ensures
        assemble_failure_group(state, a + b, loose, names) == assemble_failure_group(
            assemble_from(state, a, loose, names)->Ok_0,
            b,
            loose,
            names,
        ),
    decreases a.len(),
{
    if a.len() == 0 {
        assert(a + b =~~= b);
    } else {
        assert((a + b).first() == a.first());
        assert((a + b).drop_first() =~~= a.drop_first() + b);
        match assemble_step(state, a.first(), loose, names) {
            Ok(next) => {
                lemma_failure_group_app(next, a.drop_first(), b, loose, names);
            },
            Err(k) => {},
        }
    }
}

/// An internal function which is the root of the parsing; reached through
/// [`parse`], [`loose_parse`] and [`parse_with_names`].
fn parse_inner(input: &str, loose: bool, names: &TransactionNames) -> (r: Result<
    EdiDocument,
    EdiParseError,
>)
    ensures
        (r is Ok) == (parse_spec(input@, loose, names@) is Ok),
        r is Ok ==> r->Ok_0@ == parse_spec(input@, loose, names@)->Ok_0,
        r is Err ==> r->Err_0.kind == parse_spec(input@, loose, names@)->Err_0,
        r is Err && tokenize_spec(input@) is Err ==> r->Err_0.error_segment is None,
        r is Err && tokenize_spec(input@) is Ok ==> r->Err_0.error_segment is Some && strs_view(
            r->Err_0.error_segment->0@,
        ) == assemble_failure_group(
            Seq::<InterchangeControlView>::empty(),
            tokenize_spec(input@)->Ok_0.tokens,
            loose,
            names@,
        ),
{
    let tr = match tokenize(input) {
        Ok(t) => t,
        Err(e) => {
            return Err(e);
        },
    };
    let ghost gtoks = tr@.tokens;
    proof {
        lemma_split_all_shape(
            crate::text::clean_segments(
                crate::text::split_on(input@, tr.segment_delimiter),
            ),
            tr.element_delimiter,
        );
    }
    let mut interchanges: Vec<InterchangeControl> = Vec::new();
    let mut idx: usize = 0;
    proof {
        assert(gtoks.take(0) =~~= Seq::<Seq<Seq<char>>>::empty());
        assert(ics_view(interchanges@) =~= Seq::<InterchangeControlView>::empty());
    }
    while idx < tr.tokens.len()
        invariant
            0 <= idx <= tr.tokens@.len(),
            gtoks == tr@.tokens,
            gtoks.len() == tr.tokens@.len(),
            tokenize_spec(input@) == Ok::<_, EdiParseErrorKind>(tr@),
            forall|k: int| 0 <= k < gtoks.len() ==> #[trigger] gtoks[k].len() >= 1,
            assemble_from(
                Seq::<InterchangeControlView>::empty(),
                gtoks.take(idx as int),
                loose,
                names@,
            ) == Ok::<_, EdiParseErrorKind>(ics_view(interchanges@)),
        decreases tr.tokens@.len() - idx,
    {
        let segment = clone_tokens(&tr.tokens[idx]);
        proof {
            assert(strs_view(segment@) == gtoks[idx as int]);
            assert(gtoks[idx as int].len() >= 1);
            assert(segment@.len() == strs_view(segment@).len());
            lemma_assemble_from_snoc(
                Seq::<InterchangeControlView>::empty(),
                gtoks.take(idx as int),
                gtoks[idx as int],
                loose,
                names@,
            );
            assert(gtoks.take(idx as int + 1) =~~= gtoks.take(idx as int).push(
                gtoks[idx as int],
            ));
        }
        if let Err(e) = apply_step(&mut interchanges, segment, loose, names) {
            proof {
                lemma_assemble_err(gtoks, idx as int, loose, names@);
            }
            return Err(e);
        }
        idx = idx + 1;
    }
    proof {
        assert(gtoks.take(gtoks.len() as int) =~~= gtoks);
    }
    let document = EdiDocument {
        interchanges,
        element_delimiter: tr.element_delimiter,
        sub_element_delimiter: tr.sub_element_delimiter,
        segment_delimiter: tr.segment_delimiter,
    };
    proof {
        assert(document@ =~~= parse_spec(input@, loose, names@)->Ok_0);
    }
    Ok(document)
}

/// Route one token group into the state being assembled, mirroring
/// [`assemble_step`].
fn apply_step(
    interchanges: &mut Vec<InterchangeControl>,
    segment: Vec<String>,
    loose: bool,
    names: &TransactionNames,
) -> (r: Result<(), EdiParseError>)
    requires
        segment@.len() >= 1,
    ensures
        assemble_step(ics_view(old(interchanges)@), strs_view(segment@), loose, names@) is Ok
            ==> r is Ok && ics_view(final(interchanges)@) == assemble_step(
            ics_view(old(interchanges)@),
            strs_view(segment@),
            loose,
            names@,
        )->Ok_0,
        assemble_step(ics_view(old(interchanges)@), strs_view(segment@), loose, names@) is Err
            ==> r is Err && ics_view(final(interchanges)@) == ics_view(old(interchanges)@)
            && r->Err_0.kind == assemble_step(
            ics_view(old(interchanges)@),
            strs_view(segment@),
            loose,
            names@,
        )->Err_0,
        r is Err ==> r->Err_0.error_segment is Some && r->Err_0.error_segment->0@ == segment@,
{
    let ghost pre = ics_view(interchanges@);
    proof {
        assert(strs_view(segment@)[0] == segment@[0]@);
    }
    if str_eq(segment[0].as_str(), "ISA") {
        match InterchangeControl::parse_from_tokens(segment) {
            Ok(ic) => {
                interchanges.push(ic);
                proof {
                    assert(ics_view(interchanges@) =~~= pre.push(interchanges@.last()@));
                }
                Ok(())
            },
            Err(e) => Err(e),
        }
    } else if str_eq(segment[0].as_str(), "GS") {
        if interchanges.len() == 0 {
            return Err(out_of_order_error(segment));
        }
        match interchanges.pop() {
            Some(mut ic) => {
                let result = ic.add_functional_group(segment);
                interchanges.push(ic);
                proof {
                    lemma_state_update(pre, interchanges@, result is Ok);
                }
                result
            },
            None => {
                proof {
                    assert(false);
                }
                Ok(())
            },
        }
    } else if str_eq(segment[0].as_str(), "ST") {
        if interchanges.len() == 0 {
            return Err(out_of_order_error(segment));
        }
        match interchanges.pop() {
            Some(mut ic) => {
                let result = ic.add_transaction(segment, names);
                interchanges.push(ic);
                proof {
                    lemma_state_update(pre, interchanges@, result is Ok);
                }
                result
            },
            None => {
                proof {
                    assert(false);
                }
                Ok(())
            },
        }
    } else if str_eq(segment[0].as_str(), "IEA") {
        if loose {
            return Ok(());
        }
        if interchanges.len() == 0 {
            return Err(out_of_order_error(segment));
        }
        let last = interchanges.len() - 1;
        proof {
            assert(ics_view(interchanges@).last() == interchanges@[last as int]@);
        }
        interchanges[last].validate_interchange_control(segment)
    } else if str_eq(segment[0].as_str(), "GE") {
        if loose {
            return Ok(());
        }
        if interchanges.len() == 0 {
            return Err(out_of_order_error(segment));
        }
        let last = interchanges.len() - 1;
        proof {
            assert(ics_view(interchanges@).last() == interchanges@[last as int]@);
        }
        interchanges[last].validate_functional_group(segment)
    } else if str_eq(segment[0].as_str(), "SE") {
        if loose {
            return Ok(());
        }
        if interchanges.len() == 0 {
            return Err(out_of_order_error(segment));
        }
        let last = interchanges.len() - 1;
        proof {
            assert(ics_view(interchanges@).last() == interchanges@[last as int]@);
        }
        interchanges[last].validate_transaction(segment)
    } else {
        if interchanges.len() == 0 {
            return Err(out_of_order_error(segment));
        }
        match interchanges.pop() {
            Some(mut ic) => {
                let result = ic.add_generic_segment(segment);
                interchanges.push(ic);
                proof {
                    lemma_state_update(pre, interchanges@, result is Ok);
                }
                result
            },
            None => {
                proof {
                    assert(false);
                }
                Ok(())
            },
        }
    }
}

/// The out-of-order failure shared by every dispatch arm whose required
/// enclosing container is not open.
fn out_of_order_error(segment: Vec<String>) -> (r: EdiParseError)
    ensures
        r.kind == EdiParseErrorKind::OutOfOrderSegment,
        r.error_segment is Some && r.error_segment->0@ == segment@,
        r.reason@
            == "EDI file out of order: from out to in, the file must have ISA, GS, ST, and then generic segments"@,
{
    EdiParseError::new(
        EdiParseErrorKind::OutOfOrderSegment,
        "EDI file out of order: from out to in, the file must have ISA, GS, ST, and then generic segments",
        Some(segment),
    )
}

/// After a pop, a mutation of the popped interchange, and a push, the
/// state is its old value with the last element replaced; when the
/// mutation failed it is the old value unchanged.
proof fn lemma_state_update(
    pre: Seq<InterchangeControlView>,
    now: Seq<InterchangeControl>,
    ok: bool,
)
    requires
        pre.len() >= 1,
        now.len() == pre.len(),
        forall|k: int| 0 <= k < pre.len() - 1 ==> #[trigger] now[k]@ == pre[k],
    ensures
        ics_view(now) == pre.update(pre.len() - 1, now[pre.len() - 1]@),
        now[pre.len() - 1]@ == pre.last() ==> ics_view(now) == pre,
{
    assert(ics_view(now) =~~= pre.update(pre.len() - 1, now[pre.len() - 1]@));
    if now[pre.len() - 1]@ == pre.last() {
        assert(ics_view(now) =~~= pre);
    }
}

/// Once a step has failed after an accepted prefix, the whole fold fails
/// with that step's error, and the group that step consumed is the
/// failing group the parse reports.
proof fn lemma_assemble_err(
    gtoks: Seq<Seq<Seq<char>>>,
    idx: int,
    loose: bool,
    names: Seq<NameEntryView>,
)
    requires
        0 <= idx < gtoks.len(),
        assemble_from(
            Seq::<InterchangeControlView>::empty(),
            gtoks.take(idx),
            loose,
            names,
        ) is Ok,
        assemble_step(
            assemble_from(Seq::<InterchangeControlView>::empty(), gtoks.take(idx), loose, names)->Ok_0,
            gtoks[idx],
            loose,
            names,
        ) is Err,
    ensures
        assemble_from(Seq::<InterchangeControlView>::empty(), gtoks, loose, names) == Err::<
            Seq<InterchangeControlView>,
            _,
        >(
            assemble_step(
                assemble_from(
                    Seq::<InterchangeControlView>::empty(),
                    gtoks.take(idx),
                    loose,
                    names,
                )->Ok_0,
                gtoks[idx],
                loose,
                names,
            )->Err_0,
        ),
        assemble_failure_group(Seq::<InterchangeControlView>::empty(), gtoks, loose, names)
            == gtoks[idx],
{
    let empty_state = Seq::<InterchangeControlView>::empty();
    let pre = assemble_from(empty_state, gtoks.take(idx), loose, names)->Ok_0;
    lemma_assemble_from_snoc(empty_state, gtoks.take(idx), gtoks[idx], loose, names);
    assert(gtoks.take(idx + 1) =~~= gtoks.take(idx).push(gtoks[idx]));
    assert(gtoks =~~= gtoks.take(idx + 1) + gtoks.skip(idx + 1));
    lemma_assemble_from_app(empty_state, gtoks.take(idx + 1), gtoks.skip(idx + 1), loose, names);
    assert(gtoks =~~= gtoks.take(idx) + gtoks.skip(idx));
    lemma_failure_group_app(empty_state, gtoks.take(idx), gtoks.skip(idx), loose, names);
    assert(gtoks.skip(idx).len() >= 1);
    assert(gtoks.skip(idx).first() == gtoks[idx]);
}

/// Parse an input string into an [`EdiDocument`], performing the strict
/// envelope validations, with every transaction name resolving to the
/// default sentinel.
pub fn parse(input: &str) -> (r: Result<EdiDocument, EdiParseError>)
    ensures
        (r is Ok) == (parse_spec(input@, false, Seq::<NameEntryView>::empty()) is Ok),
        r is Ok ==> r->Ok_0@ == parse_spec(input@, false, Seq::<NameEntryView>::empty())->Ok_0,
        r is Err ==> r->Err_0.kind == parse_spec(
            input@,
            false,
            Seq::<NameEntryView>::empty(),
        )->Err_0,
        r is Err && tokenize_spec(input@) is Err ==> r->Err_0.error_segment is None,
        r is Err && tokenize_spec(input@) is Ok ==> r->Err_0.error_segment is Some && strs_view(
            r->Err_0.error_segment->0@,
        ) == assemble_failure_group(
            Seq::<InterchangeControlView>::empty(),
            tokenize_spec(input@)->Ok_0.tokens,
            false,
            Seq::<NameEntryView>::empty(),
        ),
{
    let names = TransactionNames::new();
    parse_inner(input, false, &names)
}

/// Parse without the closing-tag cross-checks: the IEA, GE and SE
/// trailers are consumed but their counts and control numbers are not
/// held against their openers. Ordering errors still apply.
pub fn loose_parse(input: &str) -> (r: Result<EdiDocument, EdiParseError>)
    ensures
        (r is Ok) == (parse_spec(input@, true, Seq::<NameEntryView>::empty()) is Ok),
        r is Ok ==> r->Ok_0@ == parse_spec(input@, true, Seq::<NameEntryView>::empty())->Ok_0,
        r is Err ==> r->Err_0.kind == parse_spec(
            input@,
            true,
            Seq::<NameEntryView>::empty(),
        )->Err_0,
        r is Err && tokenize_spec(input@) is Err ==> r->Err_0.error_segment is None,
        r is Err && tokenize_spec(input@) is Ok ==> r->Err_0.error_segment is Some && strs_view(
            r->Err_0.error_segment->0@,
        ) == assemble_failure_group(
            Seq::<InterchangeControlView>::empty(),
            tokenize_spec(input@)->Ok_0.tokens,
            true,
            Seq::<NameEntryView>::empty(),
        ),
{
    let names = TransactionNames::new();
    parse_inner(input, true, &names)
}

/// Parse strictly, resolving transaction names through an explicitly
/// passed read-only table.
pub fn parse_with_names(input: &str, names: &TransactionNames) -> (r: Result<
    EdiDocument,
    EdiParseError,
>)
    ensures
        (r is Ok) == (parse_spec(input@, false, names@) is Ok),
        r is Ok ==> r->Ok_0@ == parse_spec(input@, false, names@)->Ok_0,
        r is Err ==> r->Err_0.kind == parse_spec(input@, false, names@)->Err_0,
        r is Err && tokenize_spec(input@) is Err ==> r->Err_0.error_segment is None,
        r is Err && tokenize_spec(input@) is Ok ==> r->Err_0.error_segment is Some && strs_view(
            r->Err_0.error_segment->0@,
        ) == assemble_failure_group(
            Seq::<InterchangeControlView>::empty(),
            tokenize_spec(input@)->Ok_0.tokens,
            false,
            names@,
        ),
{
    parse_inner(input, false, names)
}

/// The line lists of a run of interchanges.
pub open spec fn ic_lines_of(ics: Seq<InterchangeControlView>, elem_d: char, sub_d: char) -> Seq<
    Seq<Seq<char>>,
> {
    Seq::new(ics.len(), |i: int| ic_lines(ics[i], elem_d, sub_d))
}

/// All the lines of a document, in document order.
pub open spec fn doc_lines(d: DocumentView) -> Seq<Seq<char>> {
    ic_lines_of(d.interchanges, d.element_delimiter, d.sub_element_delimiter).flatten()
}

/// The full X12 text of a document: all its lines joined by the segment
/// delimiter.
pub open spec fn doc_x12(d: DocumentView) -> Seq<char> {
    join_on(doc_lines(d), d.segment_delimiter)
}

impl EdiDocument {
    /// Turn this document into an ANSI X12 string.
    pub fn to_x12_string(&self) -> (r: String)
        ensures
            r@ == doc_x12(self@),
    {
        let ghost middles = ic_lines_of(
            self@.interchanges,
            self.element_delimiter,
            self.sub_element_delimiter,
        );
        let mut parts: Vec<String> = Vec::new();
        let mut i: usize = 0;
        proof {
            assert(strs_view(parts@) =~~= joined_each(middles, self.segment_delimiter).take(0));
        }
        while i < self.interchanges.len()
            invariant
                0 <= i <= self.interchanges@.len(),
                middles == ic_lines_of(
                    self@.interchanges,
                    self.element_delimiter,
                    self.sub_element_delimiter,
                ),
                self@.interchanges.len() == self.interchanges@.len(),
                strs_view(parts@) == joined_each(middles, self.segment_delimiter).take(i as int),
            decreases self.interchanges@.len() - i,
        {
            let line = self.interchanges[i].to_x12_string(
                self.segment_delimiter,
                self.element_delimiter,
                self.sub_element_delimiter,
            );
            proof {
                assert(strs_view(parts@).len() == parts@.len());
                assert(joined_each(middles, self.segment_delimiter).len() == middles.len());
                assert(self.interchanges@[i as int]@ == self@.interchanges[i as int]);
                assert(line@ == joined_each(middles, self.segment_delimiter)[i as int]);
            }
            parts.push(line);
            proof {
                let rhs = joined_each(middles, self.segment_delimiter).take(i as int + 1);
                assert forall|k: int| 0 <= k < strs_view(parts@).len() implies strs_view(
                    parts@,
                )[k] == rhs[k] by {
                    assert(strs_view(parts@)[k] == parts@[k]@);
                    if k <= i as int - 1 {
                        assert(rhs[k] == joined_each(middles, self.segment_delimiter).take(
                            i as int,
                        )[k]);
                    }
                }
                assert(strs_view(parts@) =~~= rhs);
            }
            i = i + 1;
        }
        let r = join_strings(&parts, self.segment_delimiter);
        proof {
            assert(joined_each(middles, self.segment_delimiter).take(middles.len() as int) =~~=
                joined_each(middles, self.segment_delimiter));
            assert forall|k: int| 0 <= k < middles.len() implies #[trigger] middles[k].len()
                >= 1 by {
                assert(middles[k] == ic_lines(
                    self@.interchanges[k],
                    self.element_delimiter,
                    self.sub_element_delimiter,
                ));
            }
            lemma_join_flatten(middles, self.segment_delimiter);
            assert(strs_view(parts@) =~~= joined_each(middles, self.segment_delimiter));
        }
        r
    }
}

} // verus!
