//! Document-level guarantees of the parser that relate whole runs of the
//! assembler: rejection of truncated and ambiguous input, the treatment
//! of out-of-order segments, and what loose mode may and may not forgive.

use crate::edi_document::assemble_from;
use crate::edi_document::assemble_step;
use crate::edi_document::parse_spec;
use crate::edi_document::DocumentView;
use crate::edi_parse_error::EdiParseErrorKind;
use crate::interchange_control::InterchangeControlView;
use crate::text::dec_value;
use crate::tokenizer::tokenize_spec;
use crate::transaction::NameEntryView;
use vstd::prelude::*;

verus! {

/// An input shorter than the minimum header length parses to a truncated
/// input failure, in either mode and under any name table.
pub proof fn lemma_short_input_truncated(
    input: Seq<char>,
    loose: bool,
    names: Seq<NameEntryView>,
)
    requires
        input.len() < 106,
    ensures
        parse_spec(input, loose, names) == Err::<DocumentView, _>(
            EdiParseErrorKind::TruncatedInput,
        ),
{
}

/// An input whose three delimiter positions hold any two equal characters
/// parses to a delimiter collision failure, in either mode and under any
/// name table.
pub proof fn lemma_delimiter_collision(input: Seq<char>, loose: bool, names: Seq<NameEntryView>)
    requires
        input.len() >= 106,
        input[103] == input[104] || input[104] == input[105] || input[103] == input[105],
    ensures
        parse_spec(input, loose, names) == Err::<DocumentView, _>(
            EdiParseErrorKind::DelimiterCollision,
        ),
{
}

/// The six envelope tags, pairwise distinct as character sequences.
pub proof fn lemma_envelope_tags_distinct()
    ensures
        "ISA"@.len() == 3,
        "IEA"@.len() == 3,
        "GS"@.len() == 2,
        "GE"@.len() == 2,
        "ST"@.len() == 2,
        "SE"@.len() == 2,
        "ISA"@ != "IEA"@,
        "ISA"@ != "GS"@,
        "ISA"@ != "GE"@,
        "ISA"@ != "ST"@,
        "ISA"@ != "SE"@,
        "IEA"@ != "GS"@,
        "IEA"@ != "GE"@,
        "IEA"@ != "ST"@,
        "IEA"@ != "SE"@,
        "GS"@ != "GE"@,
        "GS"@ != "ST"@,
        "GS"@ != "SE"@,
        "GE"@ != "ST"@,
        "GE"@ != "SE"@,
        "ST"@ != "SE"@,
{
    reveal_strlit("ISA");
    reveal_strlit("IEA");
    reveal_strlit("GS");
    reveal_strlit("GE");
    reveal_strlit("ST");
    reveal_strlit("SE");
    assert("ISA"@[1] == 'S' && "IEA"@[1] == 'E');
    assert("GS"@[0] == 'G' && "GE"@[0] == 'G' && "ST"@[0] == 'S' && "SE"@[0] == 'S');
    assert("GS"@[1] == 'S' && "GE"@[1] == 'E' && "ST"@[1] == 'T' && "SE"@[1] == 'E');
}

/// From an empty state, a token stream holding a GS group before any
/// ISA group fails as out of order, whatever else the stream holds and
/// whichever mode is chosen: loose mode does not suppress ordering
/// errors.
proof fn lemma_gs_no_isa_from_empty(
    groups: Seq<Seq<Seq<char>>>,
    j: int,
    loose: bool,
    names: Seq<NameEntryView>,
)
    requires
        0 <= j < groups.len(),
        groups[j][0] == "GS"@,
        forall|k: int| 0 <= k < j ==> #[trigger] groups[k][0] != "ISA"@,
    ensures
        assemble_from(Seq::<InterchangeControlView>::empty(), groups, loose, names) == Err::<
            Seq<InterchangeControlView>,
            _,
        >(EdiParseErrorKind::OutOfOrderSegment),
    decreases j,
{
    lemma_envelope_tags_distinct();
    let st = Seq::<InterchangeControlView>::empty();
    let g0 = groups.first();
    if j == 0 {
        assert(g0[0] == "GS"@);
        assert(assemble_step(st, g0, loose, names) == Err::<Seq<InterchangeControlView>, _>(
            EdiParseErrorKind::OutOfOrderSegment,
        ));
    } else {
        assert(g0[0] != "ISA"@);
        match assemble_step(st, g0, loose, names) {
            Ok(next) => {
                assert(next == st);
                assert(groups.drop_first()[j - 1] == groups[j]);
                assert(forall|k: int|
                    0 <= k < j - 1 ==> #[trigger] groups.drop_first()[k][0] != "ISA"@) by {
                    assert(forall|k: int|
                        0 <= k < j - 1 ==> groups.drop_first()[k] == groups[k + 1]);
                }
                lemma_gs_no_isa_from_empty(groups.drop_first(), j - 1, loose, names);
            },
            Err(k) => {
                assert(k == EdiParseErrorKind::OutOfOrderSegment);
            },
        }
    }
}

/// A document in which a GS segment appears before any ISA parses to an
/// out-of-order failure, in strict and in loose mode alike.
pub proof fn lemma_gs_before_isa(
    input: Seq<char>,
    loose: bool,
    names: Seq<NameEntryView>,
    j: int,
)
    requires
        tokenize_spec(input) is Ok,
        0 <= j < tokenize_spec(input)->Ok_0.tokens.len(),
        tokenize_spec(input)->Ok_0.tokens[j][0] == "GS"@,
        forall|k: int|
            0 <= k < j ==> #[trigger] tokenize_spec(input)->Ok_0.tokens[k][0] != "ISA"@,
    ensures
        parse_spec(input, loose, names) == Err::<DocumentView, _>(
            EdiParseErrorKind::OutOfOrderSegment,
        ),
{
    lemma_gs_no_isa_from_empty(tokenize_spec(input)->Ok_0.tokens, j, loose, names);
}

/// Two token streams that agree everywhere except inside IEA, GE or SE
/// trailer groups, which carry the same tag and at least their three
/// mandatory tokens.
pub open spec fn trailer_variant(t1: Seq<Seq<Seq<char>>>, t2: Seq<Seq<Seq<char>>>) -> bool {
    &&& t1.len() == t2.len()
    &&& forall|i: int|
        0 <= i < t1.len() ==> (#[trigger] t1[i] == t2[i] || (t1[i].len() >= 3 && t1[i][0]
            == t2[i][0] && (t1[i][0] == "IEA"@ || t1[i][0] == "GE"@ || t1[i][0] == "SE"@)))
}

/// Loose mode tolerates arbitrary trailer bodies: where a strict parse of
/// the stream with well-formed trailers succeeds, a loose parse of the
/// varied stream yields the identical tree, and a strict parse of the
/// varied stream either yields that same tree or fails with an envelope
/// mismatch - never with anything else.
pub proof fn lemma_trailer_tolerance(
    st: Seq<InterchangeControlView>,
    t1: Seq<Seq<Seq<char>>>,
    t2: Seq<Seq<Seq<char>>>,
    names: Seq<NameEntryView>,
)
    requires
        trailer_variant(t1, t2),
        assemble_from(st, t2, false, names) is Ok,
    ensures
        assemble_from(st, t1, true, names) == assemble_from(st, t2, false, names),
        assemble_from(st, t1, false, names) == assemble_from(st, t2, false, names)
            || assemble_from(st, t1, false, names) == Err::<Seq<InterchangeControlView>, _>(
            EdiParseErrorKind::EnvelopeMismatch,
        ),
    decreases t1.len(),
{
    lemma_envelope_tags_distinct();
    if t1.len() == 0 {
        assert(t1 =~~= t2);
    } else {
        let g1 = t1.first();
        let g2 = t2.first();
        assert(t1[0] == t2[0] || (t1[0].len() >= 3 && t1[0][0] == t2[0][0] && (t1[0][0] == "IEA"@
            || t1[0][0] == "GE"@ || t1[0][0] == "SE"@)));
        assert(trailer_variant(t1.drop_first(), t2.drop_first())) by {
            assert(forall|i: int|
                0 <= i < t1.drop_first().len() ==> t1.drop_first()[i] == t1[i + 1]
                    && t2.drop_first()[i] == t2[i + 1]);
        }
        let step2 = assemble_step(st, g2, false, names);
        assert(step2 is Ok);
        let next = step2->Ok_0;
        if g1 == g2 {
            assert(assemble_step(st, g1, true, names) is Ok);
            assert(assemble_step(st, g1, true, names)->Ok_0 == next);
            lemma_trailer_tolerance(next, t1.drop_first(), t2.drop_first(), names);
        } else {
            assert(next == st);
            assert(st.len() >= 1);
            let step1 = assemble_step(st, g1, false, names);
            assert(step1 == Ok::<_, EdiParseErrorKind>(st) || step1 == Err::<
                Seq<InterchangeControlView>,
                _,
            >(EdiParseErrorKind::EnvelopeMismatch));
            lemma_trailer_tolerance(st, t1.drop_first(), t2.drop_first(), names);
        }
    }
}

/// A varied trailer that genuinely disagrees must fail: when some IEA,
/// GE or SE trailer of the varied stream declares a count that reads
/// differently from the accepted stream's, or carries a different
/// control number, the strict parse of the varied stream fails with an
/// envelope mismatch.
pub proof fn lemma_trailer_mismatch_fails(
    st: Seq<InterchangeControlView>,
    t1: Seq<Seq<Seq<char>>>,
    t2: Seq<Seq<Seq<char>>>,
    names: Seq<NameEntryView>,
    i: int,
)
    requires
        trailer_variant(t1, t2),
        assemble_from(st, t2, false, names) is Ok,
        0 <= i < t1.len(),
        t1[i] != t2[i],
        dec_value(t1[i][1]) != dec_value(t2[i][1]) || t1[i][2] != t2[i][2],
    ensures
        assemble_from(st, t1, false, names) == Err::<Seq<InterchangeControlView>, _>(
            EdiParseErrorKind::EnvelopeMismatch,
        ),
    decreases i,
{
    lemma_envelope_tags_distinct();
    let g1 = t1.first();
    let g2 = t2.first();
    assert(t1[0] == t2[0] || (t1[0].len() >= 3 && t1[0][0] == t2[0][0] && (t1[0][0] == "IEA"@
        || t1[0][0] == "GE"@ || t1[0][0] == "SE"@)));
    assert(trailer_variant(t1.drop_first(), t2.drop_first())) by {
        assert(forall|i: int|
            0 <= i < t1.drop_first().len() ==> t1.drop_first()[i] == t1[i + 1]
                && t2.drop_first()[i] == t2[i + 1]);
    }
    let step2 = assemble_step(st, g2, false, names);
    assert(step2 is Ok);
    let next = step2->Ok_0;
    if i == 0 {
        assert(g1.len() >= 3 && g1[0] == g2[0] && (g1[0] == "IEA"@ || g1[0] == "GE"@ || g1[0]
            == "SE"@));
        assert(next == st);
        assert(st.len() >= 1);
        assert(g2.len() >= 3);
        if dec_value(g1[1]) != dec_value(g2[1]) {
            assert(assemble_step(st, g1, false, names) == Err::<Seq<InterchangeControlView>, _>(
                EdiParseErrorKind::EnvelopeMismatch,
            ));
        } else {
            assert(g1[2] != g2[2]);
            assert(assemble_step(st, g1, false, names) == Err::<Seq<InterchangeControlView>, _>(
                EdiParseErrorKind::EnvelopeMismatch,
            ));
        }
    } else {
        assert(t1.drop_first()[i - 1] == t1[i] && t2.drop_first()[i - 1] == t2[i]);
        if g1 == g2 {
            lemma_trailer_mismatch_fails(next, t1.drop_first(), t2.drop_first(), names, i - 1);
        } else {
            assert(next == st);
            assert(st.len() >= 1);
            let step1 = assemble_step(st, g1, false, names);
            if step1 is Ok {
                assert(step1->Ok_0 == st);
                lemma_trailer_mismatch_fails(st, t1.drop_first(), t2.drop_first(), names, i - 1);
            } else {
                assert(step1->Err_0 == EdiParseErrorKind::EnvelopeMismatch);
            }
        }
    }
}

} // verus!
