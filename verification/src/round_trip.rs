//! The round-trip guarantee: serializing a well-formed document and
//! parsing the result in strict mode yields the document back.
//!
//! The argument runs in two halves. The first half shows that the
//! tokenizer applied to the serialized text recovers exactly one token
//! group per emitted line. The second half shows that the assembler folds
//! those token groups back into the very tree that was serialized,
//! every strict validation passing.

use crate::edi_document::assemble_from;
use crate::edi_document::assemble_step;
use crate::edi_document::doc_lines;
use crate::edi_document::doc_x12;
use crate::edi_document::ic_lines_of;
use crate::edi_document::parse_spec;
use crate::edi_document::DocumentView;
use crate::edi_parse_error::EdiParseErrorKind;
use crate::functional_group::ge_line;
use crate::functional_group::group_lines;
use crate::functional_group::gs_line;
use crate::functional_group::txn_lines_of;
use crate::interchange_control::group_lines_of;
use crate::functional_group::FunctionalGroupView;
use crate::generic_segment::seg_line;
use crate::generic_segment::seg_lines;
use crate::generic_segment::GenericSegmentView;
use crate::interchange_control::ic_lines;
use crate::interchange_control::iea_line;
use crate::interchange_control::isa_line;
use crate::interchange_control::InterchangeControlView;
use crate::laws::lemma_envelope_tags_distinct;
use crate::tokenizer::tokenize_spec;
use crate::tokenizer::TokensView;
use crate::text::dec_digits;
use crate::text::is_dec_digit;
use crate::text::is_ws;
use crate::text::join_on;
use crate::text::lacks;
use crate::text::lemma_dec_digits_lacks;
use crate::text::lemma_dec_digits_value;
use crate::text::lemma_join_first;
use crate::text::lemma_join_lacks;
use crate::text::lemma_join_last;
use crate::text::lemma_join_on_push;
use crate::text::lemma_pad_lacks;
use crate::text::lemma_pad_len;
use crate::text::lemma_split_join;
use crate::text::lemma_trimmed_fixed;
use crate::text::lemma_trimmed_id_ends;
use crate::text::lemma_trimmed_pad;
use crate::text::pad;
use crate::text::split_on;
use crate::text::trimmed;
use crate::text::clean_segments;
use crate::text::split_all;
use crate::text::token_groups;
use crate::text::lemma_clean_segments_id;
use crate::text::lemma_split_all_shape;
use crate::transaction::lookup_spec;
use crate::transaction::se_line;
use crate::transaction::txn_lines;
use crate::transaction::st_line;
use crate::transaction::NameEntryView;
use crate::transaction::TransactionView;
use vstd::prelude::*;

verus! {

/// Characters that may stand inside an envelope tag or a recomputed
/// count; a delimiter must be none of them, or the re-parsed text would
/// split inside a tag or a count.
pub open spec fn tag_safe(c: char) -> bool {
    c != 'I' && c != 'S' && c != 'A' && c != 'E' && c != 'G' && c != 'T' && !is_dec_digit(c)
}

/// The conditions on a delimiter triple under which serialization is
/// invertible: pairwise distinct, the element and sub-element delimiters
/// not whitespace (they stand at line edges), the segment delimiter not
/// the padding space, and the element and segment delimiters not
/// characters that tags or counts may contain.
pub open spec fn wf_delims(elem_d: char, sub_d: char, seg_d: char) -> bool {
    &&& elem_d != sub_d
    &&& sub_d != seg_d
    &&& elem_d != seg_d
    &&& !is_ws(elem_d)
    &&& !is_ws(sub_d)
    &&& seg_d != ' '
    &&& tag_safe(elem_d)
    &&& tag_safe(seg_d)
}

/// A field survives the round trip when trimming leaves it alone and it
/// holds neither the element nor the segment delimiter.
pub open spec fn wf_field(f: Seq<char>, elem_d: char, seg_d: char) -> bool {
    trimmed(f) == f && lacks(f, elem_d) && lacks(f, seg_d)
}

/// A generic segment's tag: a nonempty well-formed field that is none of
/// the six envelope tags.
pub open spec fn wf_tag(t: Seq<char>, elem_d: char, seg_d: char) -> bool {
    &&& wf_field(t, elem_d, seg_d)
    &&& t.len() >= 1
    &&& t != "ISA"@
    &&& t != "IEA"@
    &&& t != "GS"@
    &&& t != "GE"@
    &&& t != "ST"@
    &&& t != "SE"@
}

pub open spec fn wf_segment(s: GenericSegmentView, elem_d: char, seg_d: char) -> bool {
    &&& wf_tag(s.segment_abbreviation, elem_d, seg_d)
    &&& s.elements.len() >= 1
    &&& forall|i: int|
        0 <= i < s.elements.len() ==> wf_field(#[trigger] s.elements[i], elem_d, seg_d)
}

pub open spec fn wf_txn(
    t: TransactionView,
    elem_d: char,
    seg_d: char,
    names: Seq<NameEntryView>,
) -> bool {
    &&& wf_field(t.transaction_code, elem_d, seg_d)
    &&& wf_field(t.transaction_set_control_number, elem_d, seg_d)
    &&& t.implementation_convention_reference is Some
    &&& wf_field(t.implementation_convention_reference->0, elem_d, seg_d)
    &&& t.transaction_name == lookup_spec(names, t.transaction_code)
    &&& forall|i: int| 0 <= i < t.segments.len() ==> wf_segment(#[trigger] t.segments[i], elem_d, seg_d)
}

pub open spec fn wf_group(
    g: FunctionalGroupView,
    elem_d: char,
    seg_d: char,
    names: Seq<NameEntryView>,
) -> bool {
    &&& wf_field(g.functional_identifier_code, elem_d, seg_d)
    &&& wf_field(g.application_sender_code, elem_d, seg_d)
    &&& wf_field(g.application_receiver_code, elem_d, seg_d)
    &&& wf_field(g.date, elem_d, seg_d)
    &&& wf_field(g.time, elem_d, seg_d)
    &&& wf_field(g.group_control_number, elem_d, seg_d)
    &&& wf_field(g.responsible_agency_code, elem_d, seg_d)
    &&& wf_field(g.version, elem_d, seg_d)
    &&& forall|i: int|
        0 <= i < g.transactions.len() ==> wf_txn(#[trigger] g.transactions[i], elem_d, seg_d, names)
}

/// The fixed widths of the fifteen ISA header fields; a field longer than
/// its width would shift the delimiter-bearing offsets.
pub open spec fn wf_interchange(
    ic: InterchangeControlView,
    elem_d: char,
    seg_d: char,
    names: Seq<NameEntryView>,
) -> bool {
    &&& wf_field(ic.authorization_qualifier, elem_d, seg_d) && ic.authorization_qualifier.len() <= 2
    &&& wf_field(ic.authorization_information, elem_d, seg_d)
        && ic.authorization_information.len() <= 10
    &&& wf_field(ic.security_qualifier, elem_d, seg_d) && ic.security_qualifier.len() <= 2
    &&& wf_field(ic.security_information, elem_d, seg_d) && ic.security_information.len() <= 10
    &&& wf_field(ic.sender_qualifier, elem_d, seg_d) && ic.sender_qualifier.len() <= 2
    &&& wf_field(ic.sender_id, elem_d, seg_d) && ic.sender_id.len() <= 15
    &&& wf_field(ic.receiver_qualifier, elem_d, seg_d) && ic.receiver_qualifier.len() <= 2
    &&& wf_field(ic.receiver_id, elem_d, seg_d) && ic.receiver_id.len() <= 15
    &&& wf_field(ic.date, elem_d, seg_d) && ic.date.len() <= 6
    &&& wf_field(ic.time, elem_d, seg_d) && ic.time.len() <= 4
    &&& wf_field(ic.standards_id, elem_d, seg_d) && ic.standards_id.len() <= 1
    &&& wf_field(ic.version, elem_d, seg_d) && ic.version.len() <= 5
    &&& wf_field(ic.interchange_control_number, elem_d, seg_d)
        && ic.interchange_control_number.len() <= 9
    &&& wf_field(ic.acknowledgement_requested, elem_d, seg_d)
        && ic.acknowledgement_requested.len() <= 1
    &&& wf_field(ic.test_indicator, elem_d, seg_d) && ic.test_indicator.len() <= 1
    &&& forall|i: int|
        0 <= i < ic.functional_groups.len() ==> wf_group(
            #[trigger] ic.functional_groups[i],
            elem_d,
            seg_d,
            names,
        )
}

/// A document whose serialized text parses back to itself: invertible
/// delimiters, at least one interchange, and well-formed fields
/// throughout, with every transaction's name agreeing with the table it
/// will be re-resolved from.
pub open spec fn wf_document(d: DocumentView, names: Seq<NameEntryView>) -> bool {
    &&& wf_delims(d.element_delimiter, d.sub_element_delimiter, d.segment_delimiter)
    &&& d.interchanges.len() >= 1
    &&& forall|i: int|
        0 <= i < d.interchanges.len() ==> wf_interchange(
            #[trigger] d.interchanges[i],
            d.element_delimiter,
            d.segment_delimiter,
            names,
        )
}

/// The token group the tokenizer recovers from one generic segment line.
pub open spec fn seg_group(s: GenericSegmentView) -> Seq<Seq<char>> {
    seq![s.segment_abbreviation] + s.elements
}

pub open spec fn st_group(t: TransactionView) -> Seq<Seq<char>> {
    seq![
        "ST"@,
        t.transaction_code,
        t.transaction_set_control_number,
        t.implementation_convention_reference->0,
    ]
}

pub open spec fn se_group(t: TransactionView) -> Seq<Seq<char>> {
    seq!["SE"@, dec_digits((t.segments.len() + 2) as nat), t.transaction_set_control_number]
}

pub open spec fn txn_groups(t: TransactionView) -> Seq<Seq<Seq<char>>> {
    seq![st_group(t)] + Seq::new(t.segments.len(), |i: int| seg_group(t.segments[i])) + seq![
        se_group(t),
    ]
}

pub open spec fn gs_group(g: FunctionalGroupView) -> Seq<Seq<char>> {
    seq![
        "GS"@,
        g.functional_identifier_code,
        g.application_sender_code,
        g.application_receiver_code,
        g.date,
        g.time,
        g.group_control_number,
        g.responsible_agency_code,
        g.version,
    ]
}

pub open spec fn ge_group(g: FunctionalGroupView) -> Seq<Seq<char>> {
    seq!["GE"@, dec_digits(g.transactions.len()), g.group_control_number]
}

pub open spec fn group_groups(g: FunctionalGroupView) -> Seq<Seq<Seq<char>>> {
    seq![gs_group(g)] + Seq::new(g.transactions.len(), |i: int| txn_groups(g.transactions[i])).flatten()
        + seq![ge_group(g)]
}

pub open spec fn isa_group(ic: InterchangeControlView, sub_d: char) -> Seq<Seq<char>> {
    seq![
        "ISA"@,
        pad(ic.authorization_qualifier, 2),
        pad(ic.authorization_information, 10),
        pad(ic.security_qualifier, 2),
        pad(ic.security_information, 10),
        pad(ic.sender_qualifier, 2),
        pad(ic.sender_id, 15),
        pad(ic.receiver_qualifier, 2),
        pad(ic.receiver_id, 15),
        pad(ic.date, 6),
        pad(ic.time, 4),
        pad(ic.standards_id, 1),
        pad(ic.version, 5),
        pad(ic.interchange_control_number, 9),
        pad(ic.acknowledgement_requested, 1),
        pad(ic.test_indicator, 1),
        seq![sub_d],
    ]
}

pub open spec fn iea_group(ic: InterchangeControlView) -> Seq<Seq<char>> {
    seq!["IEA"@, dec_digits(ic.functional_groups.len()), ic.interchange_control_number]
}

pub open spec fn ic_groups(ic: InterchangeControlView, sub_d: char) -> Seq<Seq<Seq<char>>> {
    seq![isa_group(ic, sub_d)] + Seq::new(
        ic.functional_groups.len(),
        |i: int| group_groups(ic.functional_groups[i]),
    ).flatten() + seq![iea_group(ic)]
}

pub open spec fn doc_groups(d: DocumentView) -> Seq<Seq<Seq<char>>> {
    Seq::new(
        d.interchanges.len(),
        |i: int| ic_groups(d.interchanges[i], d.sub_element_delimiter),
    ).flatten()
}

/// The relation between one emitted line and the token group the
/// tokenizer recovers from it.
pub open spec fn line_matches(l: Seq<char>, g: Seq<Seq<char>>, elem_d: char, seg_d: char) -> bool {
    &&& l == join_on(g, elem_d)
    &&& split_on(l, elem_d) == g
    &&& lacks(l, seg_d)
    &&& trimmed(l) == l
    &&& l.len() >= 1
}

/// One line built by joining a tag and its pieces survives the
/// tokenizer: it holds no segment delimiter, trimming leaves it alone,
/// and splitting it on the element delimiter recovers the pieces.
proof fn lemma_line_of_group(group: Seq<Seq<char>>, elem_d: char, seg_d: char)
    requires
        elem_d != seg_d,
        !is_ws(elem_d),
        group.len() >= 1,
        forall|i: int|
            0 <= i < group.len() ==> lacks(#[trigger] group[i], elem_d) && lacks(
                group[i],
                seg_d,
            ),
        group[0].len() >= 1,
        !is_ws(group[0].first()),
        group.last().len() > 0 ==> !is_ws(group.last().last()),
    ensures
        line_matches(join_on(group, elem_d), group, elem_d, seg_d),
{
    let line = join_on(group, elem_d);
    lemma_join_lacks(group, elem_d, seg_d);
    lemma_join_first(group, elem_d);
    lemma_join_last(group, elem_d);
    lemma_split_join(group, elem_d);
    if group.last().len() > 0 {
        lemma_trimmed_fixed(line);
    } else {
        assert(group.len() >= 2);
        lemma_trimmed_fixed(line);
    }
}


/// A tag-safe delimiter occurs in none of the six envelope tags.
proof fn lemma_tag_lacks(c: char)
    requires
        tag_safe(c),
    ensures
        lacks("ISA"@, c),
        lacks("IEA"@, c),
        lacks("GS"@, c),
        lacks("GE"@, c),
        lacks("ST"@, c),
        lacks("SE"@, c),
{
    reveal_strlit("ISA");
    reveal_strlit("IEA");
    reveal_strlit("GS");
    reveal_strlit("GE");
    reveal_strlit("ST");
    reveal_strlit("SE");
    assert("ISA"@.len() == 3 && "ISA"@[0] == 'I' && "ISA"@[1] == 'S' && "ISA"@[2] == 'A');
    assert("IEA"@.len() == 3 && "IEA"@[0] == 'I' && "IEA"@[1] == 'E' && "IEA"@[2] == 'A');
    assert("GS"@.len() == 2 && "GS"@[0] == 'G' && "GS"@[1] == 'S');
    assert("GE"@.len() == 2 && "GE"@[0] == 'G' && "GE"@[1] == 'E');
    assert("ST"@.len() == 2 && "ST"@[0] == 'S' && "ST"@[1] == 'T');
    assert("SE"@.len() == 2 && "SE"@[0] == 'S' && "SE"@[1] == 'E');
}

/// The ST line is the join of the ST token group.
proof fn lemma_st_line_group(t: TransactionView, elem_d: char)
    requires
        t.implementation_convention_reference is Some,
    ensures
        st_line(t, elem_d) == join_on(st_group(t), elem_d),
{
    let p0 = "ST"@;
    let p1 = t.transaction_code;
    let p2 = t.transaction_set_control_number;
    let p3 = t.implementation_convention_reference->0;
    assert(join_on(seq![p0], elem_d) == p0);
    assert(seq![p0].push(p1) =~~= seq![p0, p1]);
    lemma_join_on_push(seq![p0], elem_d, p1);
    assert(seq![p0, p1].push(p2) =~~= seq![p0, p1, p2]);
    lemma_join_on_push(seq![p0, p1], elem_d, p2);
    assert(seq![p0, p1, p2].push(p3) =~~= seq![p0, p1, p2, p3]);
    lemma_join_on_push(seq![p0, p1, p2], elem_d, p3);
    assert(st_group(t) =~~= seq![p0, p1, p2, p3]);
    assert(st_line(t, elem_d) == join_on(st_group(t), elem_d));
}

/// The SE line is the join of the SE token group.
proof fn lemma_se_line_group(t: TransactionView, elem_d: char)
    ensures
        se_line(t, elem_d) == join_on(se_group(t), elem_d),
{
    let p0 = "SE"@;
    let p1 = dec_digits((t.segments.len() + 2) as nat);
    let p2 = t.transaction_set_control_number;
    assert(join_on(seq![p0], elem_d) == p0);
    assert(seq![p0].push(p1) =~~= seq![p0, p1]);
    lemma_join_on_push(seq![p0], elem_d, p1);
    assert(seq![p0, p1].push(p2) =~~= seq![p0, p1, p2]);
    lemma_join_on_push(seq![p0, p1], elem_d, p2);
    assert(se_group(t) =~~= seq![p0, p1, p2]);
    assert(se_line(t, elem_d) == join_on(se_group(t), elem_d));
}

/// The GS line is the join of the GS token group.
proof fn lemma_gs_line_group(g: FunctionalGroupView, elem_d: char)
    ensures
        gs_line(g, elem_d) == join_on(gs_group(g), elem_d),
{
    let p0 = "GS"@;
    let p1 = g.functional_identifier_code;
    let p2 = g.application_sender_code;
    let p3 = g.application_receiver_code;
    let p4 = g.date;
    let p5 = g.time;
    let p6 = g.group_control_number;
    let p7 = g.responsible_agency_code;
    let p8 = g.version;
    assert(join_on(seq![p0], elem_d) == p0);
    assert(seq![p0].push(p1) =~~= seq![p0, p1]);
    lemma_join_on_push(seq![p0], elem_d, p1);
    assert(seq![p0, p1].push(p2) =~~= seq![p0, p1, p2]);
    lemma_join_on_push(seq![p0, p1], elem_d, p2);
    assert(seq![p0, p1, p2].push(p3) =~~= seq![p0, p1, p2, p3]);
    lemma_join_on_push(seq![p0, p1, p2], elem_d, p3);
    assert(seq![p0, p1, p2, p3].push(p4) =~~= seq![p0, p1, p2, p3, p4]);
    lemma_join_on_push(seq![p0, p1, p2, p3], elem_d, p4);
    assert(seq![p0, p1, p2, p3, p4].push(p5) =~~= seq![p0, p1, p2, p3, p4, p5]);
    lemma_join_on_push(seq![p0, p1, p2, p3, p4], elem_d, p5);
    assert(seq![p0, p1, p2, p3, p4, p5].push(p6) =~~= seq![p0, p1, p2, p3, p4, p5, p6]);
    lemma_join_on_push(seq![p0, p1, p2, p3, p4, p5], elem_d, p6);
    assert(seq![p0, p1, p2, p3, p4, p5, p6].push(p7) =~~= seq![p0, p1, p2, p3, p4, p5, p6, p7]);
    lemma_join_on_push(seq![p0, p1, p2, p3, p4, p5, p6], elem_d, p7);
    assert(seq![p0, p1, p2, p3, p4, p5, p6, p7].push(p8) =~~= seq![p0, p1, p2, p3, p4, p5, p6, p7, p8]);
    lemma_join_on_push(seq![p0, p1, p2, p3, p4, p5, p6, p7], elem_d, p8);
    assert(gs_group(g) =~~= seq![p0, p1, p2, p3, p4, p5, p6, p7, p8]);
    assert(gs_line(g, elem_d) == join_on(gs_group(g), elem_d));
}

/// The GE line is the join of the GE token group.
proof fn lemma_ge_line_group(g: FunctionalGroupView, elem_d: char)
    ensures
        ge_line(g, elem_d) == join_on(ge_group(g), elem_d),
{
    let p0 = "GE"@;
    let p1 = dec_digits(g.transactions.len());
    let p2 = g.group_control_number;
    assert(join_on(seq![p0], elem_d) == p0);
    assert(seq![p0].push(p1) =~~= seq![p0, p1]);
    lemma_join_on_push(seq![p0], elem_d, p1);
    assert(seq![p0, p1].push(p2) =~~= seq![p0, p1, p2]);
    lemma_join_on_push(seq![p0, p1], elem_d, p2);
    assert(ge_group(g) =~~= seq![p0, p1, p2]);
    assert(ge_line(g, elem_d) == join_on(ge_group(g), elem_d));
}

/// The ISA line is the join of the ISA token group.
proof fn lemma_isa_line_group(ic: InterchangeControlView, elem_d: char, sub_d: char)
    ensures
        isa_line(ic, elem_d, sub_d) == join_on(isa_group(ic, sub_d), elem_d),
{
    let p0 = "ISA"@;
    let p1 = pad(ic.authorization_qualifier, 2);
    let p2 = pad(ic.authorization_information, 10);
    let p3 = pad(ic.security_qualifier, 2);
    let p4 = pad(ic.security_information, 10);
    let p5 = pad(ic.sender_qualifier, 2);
    let p6 = pad(ic.sender_id, 15);
    let p7 = pad(ic.receiver_qualifier, 2);
    let p8 = pad(ic.receiver_id, 15);
    let p9 = pad(ic.date, 6);
    let p10 = pad(ic.time, 4);
    let p11 = pad(ic.standards_id, 1);
    let p12 = pad(ic.version, 5);
    let p13 = pad(ic.interchange_control_number, 9);
    let p14 = pad(ic.acknowledgement_requested, 1);
    let p15 = pad(ic.test_indicator, 1);
    let p16 = seq![sub_d];
    assert(join_on(seq![p0], elem_d) == p0);
    assert(seq![p0].push(p1) =~~= seq![p0, p1]);
    lemma_join_on_push(seq![p0], elem_d, p1);
    assert(seq![p0, p1].push(p2) =~~= seq![p0, p1, p2]);
    lemma_join_on_push(seq![p0, p1], elem_d, p2);
    assert(seq![p0, p1, p2].push(p3) =~~= seq![p0, p1, p2, p3]);
    lemma_join_on_push(seq![p0, p1, p2], elem_d, p3);
    assert(seq![p0, p1, p2, p3].push(p4) =~~= seq![p0, p1, p2, p3, p4]);
    lemma_join_on_push(seq![p0, p1, p2, p3], elem_d, p4);
    assert(seq![p0, p1, p2, p3, p4].push(p5) =~~= seq![p0, p1, p2, p3, p4, p5]);
    lemma_join_on_push(seq![p0, p1, p2, p3, p4], elem_d, p5);
    assert(seq![p0, p1, p2, p3, p4, p5].push(p6) =~~= seq![p0, p1, p2, p3, p4, p5, p6]);
    lemma_join_on_push(seq![p0, p1, p2, p3, p4, p5], elem_d, p6);
    assert(seq![p0, p1, p2, p3, p4, p5, p6].push(p7) =~~= seq![p0, p1, p2, p3, p4, p5, p6, p7]);
    lemma_join_on_push(seq![p0, p1, p2, p3, p4, p5, p6], elem_d, p7);
    assert(seq![p0, p1, p2, p3, p4, p5, p6, p7].push(p8) =~~= seq![p0, p1, p2, p3, p4, p5, p6, p7, p8]);
    lemma_join_on_push(seq![p0, p1, p2, p3, p4, p5, p6, p7], elem_d, p8);
    assert(seq![p0, p1, p2, p3, p4, p5, p6, p7, p8].push(p9) =~~= seq![p0, p1, p2, p3, p4, p5, p6, p7, p8, p9]);
    lemma_join_on_push(seq![p0, p1, p2, p3, p4, p5, p6, p7, p8], elem_d, p9);
    assert(seq![p0, p1, p2, p3, p4, p5, p6, p7, p8, p9].push(p10) =~~= seq![p0, p1, p2, p3, p4, p5, p6, p7, p8, p9, p10]);
    lemma_join_on_push(seq![p0, p1, p2, p3, p4, p5, p6, p7, p8, p9], elem_d, p10);
    assert(seq![p0, p1, p2, p3, p4, p5, p6, p7, p8, p9, p10].push(p11) =~~= seq![p0, p1, p2, p3, p4, p5, p6, p7, p8, p9, p10, p11]);
    lemma_join_on_push(seq![p0, p1, p2, p3, p4, p5, p6, p7, p8, p9, p10], elem_d, p11);
    assert(seq![p0, p1, p2, p3, p4, p5, p6, p7, p8, p9, p10, p11].push(p12) =~~= seq![p0, p1, p2, p3, p4, p5, p6, p7, p8, p9, p10, p11, p12]);
    lemma_join_on_push(seq![p0, p1, p2, p3, p4, p5, p6, p7, p8, p9, p10, p11], elem_d, p12);
    assert(seq![p0, p1, p2, p3, p4, p5, p6, p7, p8, p9, p10, p11, p12].push(p13) =~~= seq![p0, p1, p2, p3, p4, p5, p6, p7, p8, p9, p10, p11, p12, p13]);
    lemma_join_on_push(seq![p0, p1, p2, p3, p4, p5, p6, p7, p8, p9, p10, p11, p12], elem_d, p13);
    assert(seq![p0, p1, p2, p3, p4, p5, p6, p7, p8, p9, p10, p11, p12, p13].push(p14) =~~= seq![p0, p1, p2, p3, p4, p5, p6, p7, p8, p9, p10, p11, p12, p13, p14]);
    lemma_join_on_push(seq![p0, p1, p2, p3, p4, p5, p6, p7, p8, p9, p10, p11, p12, p13], elem_d, p14);
    assert(seq![p0, p1, p2, p3, p4, p5, p6, p7, p8, p9, p10, p11, p12, p13, p14].push(p15) =~~= seq![p0, p1, p2, p3, p4, p5, p6, p7, p8, p9, p10, p11, p12, p13, p14, p15]);
    lemma_join_on_push(seq![p0, p1, p2, p3, p4, p5, p6, p7, p8, p9, p10, p11, p12, p13, p14], elem_d, p15);
    assert(seq![p0, p1, p2, p3, p4, p5, p6, p7, p8, p9, p10, p11, p12, p13, p14, p15].push(p16) =~~= seq![p0, p1, p2, p3, p4, p5, p6, p7, p8, p9, p10, p11, p12, p13, p14, p15, p16]);
    lemma_join_on_push(seq![p0, p1, p2, p3, p4, p5, p6, p7, p8, p9, p10, p11, p12, p13, p14, p15], elem_d, p16);
    assert(isa_group(ic, sub_d) =~~= seq![p0, p1, p2, p3, p4, p5, p6, p7, p8, p9, p10, p11, p12, p13, p14, p15, p16]);
    assert(isa_line(ic, elem_d, sub_d) == join_on(isa_group(ic, sub_d), elem_d));
}

/// The IEA line is the join of the IEA token group.
proof fn lemma_iea_line_group(ic: InterchangeControlView, elem_d: char)
    ensures
        iea_line(ic, elem_d) == join_on(iea_group(ic), elem_d),
{
    let p0 = "IEA"@;
    let p1 = dec_digits(ic.functional_groups.len());
    let p2 = ic.interchange_control_number;
    assert(join_on(seq![p0], elem_d) == p0);
    assert(seq![p0].push(p1) =~~= seq![p0, p1]);
    lemma_join_on_push(seq![p0], elem_d, p1);
    assert(seq![p0, p1].push(p2) =~~= seq![p0, p1, p2]);
    lemma_join_on_push(seq![p0, p1], elem_d, p2);
    assert(iea_group(ic) =~~= seq![p0, p1, p2]);
    assert(iea_line(ic, elem_d) == join_on(iea_group(ic), elem_d));
}


/// Every line survives the tokenizer: generic segment lines.
proof fn lemma_seg_line_matches(v: GenericSegmentView, elem_d: char, seg_d: char)
    requires
        elem_d != seg_d,
        !is_ws(elem_d),
        wf_segment(v, elem_d, seg_d),
    ensures
        line_matches(seg_line(v, elem_d), seg_group(v), elem_d, seg_d),
{
    let group = seg_group(v);
    assert(group[0] == v.segment_abbreviation);
    lemma_trimmed_id_ends(v.segment_abbreviation);
    assert(forall|i: int|
        0 <= i < group.len() ==> lacks(#[trigger] group[i], elem_d) && lacks(group[i], seg_d))
        by {
        assert(forall|i: int| 1 <= i < group.len() ==> group[i] == v.elements[i - 1]);
    }
    assert(group.last() == if v.elements.len() > 0 {
        v.elements.last()
    } else {
        v.segment_abbreviation
    });
    if group.last().len() > 0 {
        lemma_trimmed_id_ends(group.last());
    }
    lemma_line_of_group(group, elem_d, seg_d);
}

/// Every line survives the tokenizer: ST lines.
proof fn lemma_st_line_matches(
    t: TransactionView,
    elem_d: char,
    seg_d: char,
    names: Seq<NameEntryView>,
)
    requires
        elem_d != seg_d,
        !is_ws(elem_d),
        tag_safe(elem_d),
        tag_safe(seg_d),
        wf_txn(t, elem_d, seg_d, names),
    ensures
        line_matches(st_line(t, elem_d), st_group(t), elem_d, seg_d),
{
    lemma_tag_lacks(elem_d);
    lemma_tag_lacks(seg_d);
    lemma_st_line_group(t, elem_d);
    let group = st_group(t);
    reveal_strlit("ST");
    assert(group[0] == "ST"@ && "ST"@.len() == 2 && "ST"@[0] == 'S');
    assert(group.last() == t.implementation_convention_reference->0);
    if group.last().len() > 0 {
        lemma_trimmed_id_ends(group.last());
    }
    lemma_line_of_group(group, elem_d, seg_d);
}

/// Every line survives the tokenizer: SE lines.
proof fn lemma_se_line_matches(
    t: TransactionView,
    elem_d: char,
    seg_d: char,
    names: Seq<NameEntryView>,
)
    requires
        elem_d != seg_d,
        !is_ws(elem_d),
        tag_safe(elem_d),
        tag_safe(seg_d),
        wf_txn(t, elem_d, seg_d, names),
    ensures
        line_matches(se_line(t, elem_d), se_group(t), elem_d, seg_d),
{
    lemma_tag_lacks(elem_d);
    lemma_tag_lacks(seg_d);
    lemma_se_line_group(t, elem_d);
    lemma_dec_digits_lacks((t.segments.len() + 2) as nat, elem_d);
    lemma_dec_digits_lacks((t.segments.len() + 2) as nat, seg_d);
    let group = se_group(t);
    reveal_strlit("SE");
    assert(group[0] == "SE"@ && "SE"@.len() == 2 && "SE"@[0] == 'S');
    assert(group.last() == t.transaction_set_control_number);
    if group.last().len() > 0 {
        lemma_trimmed_id_ends(group.last());
    }
    lemma_line_of_group(group, elem_d, seg_d);
}

/// Every line survives the tokenizer: GS lines.
proof fn lemma_gs_line_matches(
    g: FunctionalGroupView,
    elem_d: char,
    seg_d: char,
    names: Seq<NameEntryView>,
)
    requires
        elem_d != seg_d,
        !is_ws(elem_d),
        tag_safe(elem_d),
        tag_safe(seg_d),
        wf_group(g, elem_d, seg_d, names),
    ensures
        line_matches(gs_line(g, elem_d), gs_group(g), elem_d, seg_d),
{
    lemma_tag_lacks(elem_d);
    lemma_tag_lacks(seg_d);
    lemma_gs_line_group(g, elem_d);
    let group = gs_group(g);
    reveal_strlit("GS");
    assert(group[0] == "GS"@ && "GS"@.len() == 2 && "GS"@[0] == 'G');
    assert(group.last() == g.version);
    if group.last().len() > 0 {
        lemma_trimmed_id_ends(group.last());
    }
    lemma_line_of_group(group, elem_d, seg_d);
}

/// Every line survives the tokenizer: GE lines.
proof fn lemma_ge_line_matches(
    g: FunctionalGroupView,
    elem_d: char,
    seg_d: char,
    names: Seq<NameEntryView>,
)
    requires
        elem_d != seg_d,
        !is_ws(elem_d),
        tag_safe(elem_d),
        tag_safe(seg_d),
        wf_group(g, elem_d, seg_d, names),
    ensures
        line_matches(ge_line(g, elem_d), ge_group(g), elem_d, seg_d),
{
    lemma_tag_lacks(elem_d);
    lemma_tag_lacks(seg_d);
    lemma_ge_line_group(g, elem_d);
    lemma_dec_digits_lacks(g.transactions.len(), elem_d);
    lemma_dec_digits_lacks(g.transactions.len(), seg_d);
    let group = ge_group(g);
    reveal_strlit("GE");
    assert(group[0] == "GE"@ && "GE"@.len() == 2 && "GE"@[0] == 'G');
    assert(group.last() == g.group_control_number);
    if group.last().len() > 0 {
        lemma_trimmed_id_ends(group.last());
    }
    lemma_line_of_group(group, elem_d, seg_d);
}

/// Every line survives the tokenizer: IEA lines.
proof fn lemma_iea_line_matches(
    ic: InterchangeControlView,
    elem_d: char,
    seg_d: char,
    names: Seq<NameEntryView>,
)
    requires
        elem_d != seg_d,
        !is_ws(elem_d),
        tag_safe(elem_d),
        tag_safe(seg_d),
        wf_interchange(ic, elem_d, seg_d, names),
    ensures
        line_matches(iea_line(ic, elem_d), iea_group(ic), elem_d, seg_d),
{
    lemma_tag_lacks(elem_d);
    lemma_tag_lacks(seg_d);
    lemma_iea_line_group(ic, elem_d);
    lemma_dec_digits_lacks(ic.functional_groups.len(), elem_d);
    lemma_dec_digits_lacks(ic.functional_groups.len(), seg_d);
    let group = iea_group(ic);
    reveal_strlit("IEA");
    assert(group[0] == "IEA"@ && "IEA"@.len() == 3 && "IEA"@[0] == 'I');
    assert(group.last() == ic.interchange_control_number);
    if group.last().len() > 0 {
        lemma_trimmed_id_ends(group.last());
    }
    lemma_line_of_group(group, elem_d, seg_d);
}

/// Every line survives the tokenizer: ISA lines, whose fields are
/// space-padded to their fixed widths.
proof fn lemma_isa_line_matches(
    ic: InterchangeControlView,
    elem_d: char,
    sub_d: char,
    seg_d: char,
    names: Seq<NameEntryView>,
)
    requires
        elem_d != seg_d,
        elem_d != sub_d,
        sub_d != seg_d,
        !is_ws(elem_d),
        !is_ws(sub_d),
        seg_d != ' ',
        tag_safe(elem_d),
        tag_safe(seg_d),
        wf_interchange(ic, elem_d, seg_d, names),
    ensures
        line_matches(isa_line(ic, elem_d, sub_d), isa_group(ic, sub_d), elem_d, seg_d),
{
    lemma_tag_lacks(elem_d);
    lemma_tag_lacks(seg_d);
    lemma_isa_line_group(ic, elem_d, sub_d);
    let group = isa_group(ic, sub_d);
    reveal_strlit("ISA");
    assert(group[0] == "ISA"@ && "ISA"@.len() == 3 && "ISA"@[0] == 'I');
    assert(!is_ws(elem_d) ==> elem_d != ' ');
    lemma_pad_lacks(ic.authorization_qualifier, 2, elem_d);
    lemma_pad_lacks(ic.authorization_information, 10, elem_d);
    lemma_pad_lacks(ic.security_qualifier, 2, elem_d);
    lemma_pad_lacks(ic.security_information, 10, elem_d);
    lemma_pad_lacks(ic.sender_qualifier, 2, elem_d);
    lemma_pad_lacks(ic.sender_id, 15, elem_d);
    lemma_pad_lacks(ic.receiver_qualifier, 2, elem_d);
    lemma_pad_lacks(ic.receiver_id, 15, elem_d);
    lemma_pad_lacks(ic.date, 6, elem_d);
    lemma_pad_lacks(ic.time, 4, elem_d);
    lemma_pad_lacks(ic.standards_id, 1, elem_d);
    lemma_pad_lacks(ic.version, 5, elem_d);
    lemma_pad_lacks(ic.interchange_control_number, 9, elem_d);
    lemma_pad_lacks(ic.acknowledgement_requested, 1, elem_d);
    lemma_pad_lacks(ic.test_indicator, 1, elem_d);
    lemma_pad_lacks(ic.authorization_qualifier, 2, seg_d);
    lemma_pad_lacks(ic.authorization_information, 10, seg_d);
    lemma_pad_lacks(ic.security_qualifier, 2, seg_d);
    lemma_pad_lacks(ic.security_information, 10, seg_d);
    lemma_pad_lacks(ic.sender_qualifier, 2, seg_d);
    lemma_pad_lacks(ic.sender_id, 15, seg_d);
    lemma_pad_lacks(ic.receiver_qualifier, 2, seg_d);
    lemma_pad_lacks(ic.receiver_id, 15, seg_d);
    lemma_pad_lacks(ic.date, 6, seg_d);
    lemma_pad_lacks(ic.time, 4, seg_d);
    lemma_pad_lacks(ic.standards_id, 1, seg_d);
    lemma_pad_lacks(ic.version, 5, seg_d);
    lemma_pad_lacks(ic.interchange_control_number, 9, seg_d);
    lemma_pad_lacks(ic.acknowledgement_requested, 1, seg_d);
    lemma_pad_lacks(ic.test_indicator, 1, seg_d);
    assert(group.last() == seq![sub_d]);
    assert(group.last().last() == sub_d);
    lemma_line_of_group(group, elem_d, seg_d);
}

/// The ISA line is exactly 105 characters long, with the element
/// delimiter at offset 103 and the sub-element delimiter at offset 104.
proof fn lemma_isa_line_shape(
    ic: InterchangeControlView,
    elem_d: char,
    sub_d: char,
    seg_d: char,
    names: Seq<NameEntryView>,
)
    requires
        wf_interchange(ic, elem_d, seg_d, names),
    ensures
        isa_line(ic, elem_d, sub_d).len() == 105,
        isa_line(ic, elem_d, sub_d)[103] == elem_d,
        isa_line(ic, elem_d, sub_d)[104] == sub_d,
{
    reveal_strlit("ISA");
    assert("ISA"@.len() == 3);
    lemma_pad_len(ic.authorization_qualifier, 2);
    lemma_pad_len(ic.authorization_information, 10);
    lemma_pad_len(ic.security_qualifier, 2);
    lemma_pad_len(ic.security_information, 10);
    lemma_pad_len(ic.sender_qualifier, 2);
    lemma_pad_len(ic.sender_id, 15);
    lemma_pad_len(ic.receiver_qualifier, 2);
    lemma_pad_len(ic.receiver_id, 15);
    lemma_pad_len(ic.date, 6);
    lemma_pad_len(ic.time, 4);
    lemma_pad_len(ic.standards_id, 1);
    lemma_pad_len(ic.version, 5);
    lemma_pad_len(ic.interchange_control_number, 9);
    lemma_pad_len(ic.acknowledgement_requested, 1);
    lemma_pad_len(ic.test_indicator, 1);
    assert(isa_line(ic, elem_d, sub_d).len() == 105);
}

/// A pointwise relation between the members of parallel nested lists
/// carries over to their flattened forms.
proof fn lemma_flatten_parallel<X, Y>(xs: Seq<Seq<X>>, ys: Seq<Seq<Y>>, rel: spec_fn(X, Y) -> bool)
    requires
        xs.len() == ys.len(),
        forall|k: int| 0 <= k < xs.len() ==> (#[trigger] xs[k]).len() == ys[k].len(),
        forall|k: int, j: int|
            0 <= k < xs.len() && 0 <= j < xs[k].len() ==> rel(#[trigger] xs[k][j], ys[k][j]),
    ensures
        xs.flatten().len() == ys.flatten().len(),
        forall|i: int|
            0 <= i < xs.flatten().len() ==> rel(#[trigger] xs.flatten()[i], ys.flatten()[i]),
    decreases xs.len(),
{
    if xs.len() == 0 {
    } else {
        let xr = xs.drop_first();
        let yr = ys.drop_first();
        assert(forall|k: int| 0 <= k < xr.len() ==> xr[k] == xs[k + 1] && yr[k] == ys[k + 1]);
        assert(forall|k: int, j: int|
            0 <= k < xr.len() && 0 <= j < xr[k].len() ==> rel(#[trigger] xr[k][j], yr[k][j])) by {
            assert(forall|k: int, j: int|
                0 <= k < xr.len() && 0 <= j < xr[k].len() ==> xr[k][j] == xs[k + 1][j] && yr[k][j]
                    == ys[k + 1][j]);
        }
        lemma_flatten_parallel(xr, yr, rel);
        assert(xs.flatten() == xs.first() + xr.flatten());
        assert(ys.flatten() == ys.first() + yr.flatten());
        assert forall|i: int|
            0 <= i < xs.flatten().len() implies rel(#[trigger] xs.flatten()[i], ys.flatten()[i]) by {
            if i < xs.first().len() {
                assert(xs.flatten()[i] == xs[0][i]);
                assert(ys.flatten()[i] == ys[0][i]);
                assert(rel(xs[0][i], ys[0][i]));
            } else {
                assert(xs.flatten()[i] == xr.flatten()[i - xs.first().len()]);
                assert(ys.flatten()[i] == yr.flatten()[i - ys.first().len()]);
            }
        }
    }
}


/// Each line of a transaction matches its token group.
proof fn lemma_txn_level(t: TransactionView, elem_d: char, seg_d: char, names: Seq<NameEntryView>)
    requires
        elem_d != seg_d,
        !is_ws(elem_d),
        tag_safe(elem_d),
        tag_safe(seg_d),
        wf_txn(t, elem_d, seg_d, names),
    ensures
        txn_lines(t, elem_d).len() == txn_groups(t).len(),
        forall|j: int|
            0 <= j < txn_lines(t, elem_d).len() ==> line_matches(
                #[trigger] txn_lines(t, elem_d)[j],
                txn_groups(t)[j],
                elem_d,
                seg_d,
            ),
{
    lemma_st_line_matches(t, elem_d, seg_d, names);
    lemma_se_line_matches(t, elem_d, seg_d, names);
    assert(txn_lines(t, elem_d).len() == 2 + t.segments.len());
    assert(txn_groups(t).len() == 2 + t.segments.len());
    assert forall|j: int|
        0 <= j < txn_lines(t, elem_d).len() implies line_matches(
        #[trigger] txn_lines(t, elem_d)[j],
        txn_groups(t)[j],
        elem_d,
        seg_d,
    ) by {
        if j == 0 {
            assert(txn_lines(t, elem_d)[0] == st_line(t, elem_d));
            assert(txn_groups(t)[0] == st_group(t));
        } else if j <= t.segments.len() {
            assert(txn_lines(t, elem_d)[j] == seg_lines(t.segments, elem_d)[j - 1]);
            assert(seg_lines(t.segments, elem_d)[j - 1] == seg_line(t.segments[j - 1], elem_d));
            assert(txn_groups(t)[j] == seg_group(t.segments[j - 1]));
            lemma_seg_line_matches(t.segments[j - 1], elem_d, seg_d);
        } else {
            assert(txn_lines(t, elem_d)[j] == se_line(t, elem_d));
            assert(txn_groups(t)[j] == se_group(t));
        }
    }
}

/// Each line of a functional group matches its token group.
proof fn lemma_group_level(
    g: FunctionalGroupView,
    elem_d: char,
    seg_d: char,
    names: Seq<NameEntryView>,
)
    requires
        elem_d != seg_d,
        !is_ws(elem_d),
        tag_safe(elem_d),
        tag_safe(seg_d),
        wf_group(g, elem_d, seg_d, names),
    ensures
        group_lines(g, elem_d).len() == group_groups(g).len(),
        forall|j: int|
            0 <= j < group_lines(g, elem_d).len() ==> line_matches(
                #[trigger] group_lines(g, elem_d)[j],
                group_groups(g)[j],
                elem_d,
                seg_d,
            ),
{
    lemma_gs_line_matches(g, elem_d, seg_d, names);
    lemma_ge_line_matches(g, elem_d, seg_d, names);
    let rel: spec_fn(Seq<char>, Seq<Seq<char>>) -> bool = |l: Seq<char>, gg: Seq<Seq<char>>|
        line_matches(l, gg, elem_d, seg_d);
    let tl = txn_lines_of(g.transactions, elem_d);
    let tg = Seq::new(g.transactions.len(), |i: int| txn_groups(g.transactions[i]));
    assert forall|k: int| 0 <= k < tl.len() implies (#[trigger] tl[k]).len() == tg[k].len() by {
        lemma_txn_level(g.transactions[k], elem_d, seg_d, names);
    }
    assert forall|k: int, j: int|
        0 <= k < tl.len() && 0 <= j < tl[k].len() implies rel(#[trigger] tl[k][j], tg[k][j]) by {
        lemma_txn_level(g.transactions[k], elem_d, seg_d, names);
        assert(tl[k][j] == txn_lines(g.transactions[k], elem_d)[j]);
        assert(tg[k][j] == txn_groups(g.transactions[k])[j]);
    }
    lemma_flatten_parallel(tl, tg, rel);
    assert(group_lines(g, elem_d).len() == group_groups(g).len());
    assert forall|j: int|
        0 <= j < group_lines(g, elem_d).len() implies line_matches(
        #[trigger] group_lines(g, elem_d)[j],
        group_groups(g)[j],
        elem_d,
        seg_d,
    ) by {
        if j == 0 {
            assert(group_lines(g, elem_d)[0] == gs_line(g, elem_d));
            assert(group_groups(g)[0] == gs_group(g));
        } else if j <= tl.flatten().len() {
            assert(group_lines(g, elem_d)[j] == tl.flatten()[j - 1]);
            assert(group_groups(g)[j] == tg.flatten()[j - 1]);
            assert(rel(tl.flatten()[j - 1], tg.flatten()[j - 1]));
        } else {
            assert(group_lines(g, elem_d)[j] == ge_line(g, elem_d));
            assert(group_groups(g)[j] == ge_group(g));
        }
    }
}

/// Each line of an interchange matches its token group.
proof fn lemma_ic_level(
    ic: InterchangeControlView,
    elem_d: char,
    sub_d: char,
    seg_d: char,
    names: Seq<NameEntryView>,
)
    requires
        wf_delims(elem_d, sub_d, seg_d),
        wf_interchange(ic, elem_d, seg_d, names),
    ensures
        ic_lines(ic, elem_d, sub_d).len() == ic_groups(ic, sub_d).len(),
        ic_lines(ic, elem_d, sub_d).len() >= 2,
        forall|j: int|
            0 <= j < ic_lines(ic, elem_d, sub_d).len() ==> line_matches(
                #[trigger] ic_lines(ic, elem_d, sub_d)[j],
                ic_groups(ic, sub_d)[j],
                elem_d,
                seg_d,
            ),
{
    lemma_isa_line_matches(ic, elem_d, sub_d, seg_d, names);
    lemma_iea_line_matches(ic, elem_d, seg_d, names);
    let rel: spec_fn(Seq<char>, Seq<Seq<char>>) -> bool = |l: Seq<char>, gg: Seq<Seq<char>>|
        line_matches(l, gg, elem_d, seg_d);
    let gl = group_lines_of(ic.functional_groups, elem_d);
    let gg = Seq::new(ic.functional_groups.len(), |i: int| group_groups(ic.functional_groups[i]));
    assert forall|k: int| 0 <= k < gl.len() implies (#[trigger] gl[k]).len() == gg[k].len() by {
        lemma_group_level(ic.functional_groups[k], elem_d, seg_d, names);
    }
    assert forall|k: int, j: int|
        0 <= k < gl.len() && 0 <= j < gl[k].len() implies rel(#[trigger] gl[k][j], gg[k][j]) by {
        lemma_group_level(ic.functional_groups[k], elem_d, seg_d, names);
        assert(gl[k][j] == group_lines(ic.functional_groups[k], elem_d)[j]);
        assert(gg[k][j] == group_groups(ic.functional_groups[k])[j]);
    }
    lemma_flatten_parallel(gl, gg, rel);
    assert(ic_lines(ic, elem_d, sub_d).len() == ic_groups(ic, sub_d).len());
    assert forall|j: int|
        0 <= j < ic_lines(ic, elem_d, sub_d).len() implies line_matches(
        #[trigger] ic_lines(ic, elem_d, sub_d)[j],
        ic_groups(ic, sub_d)[j],
        elem_d,
        seg_d,
    ) by {
        if j == 0 {
            assert(ic_lines(ic, elem_d, sub_d)[0] == isa_line(ic, elem_d, sub_d));
            assert(ic_groups(ic, sub_d)[0] == isa_group(ic, sub_d));
        } else if j <= gl.flatten().len() {
            assert(ic_lines(ic, elem_d, sub_d)[j] == gl.flatten()[j - 1]);
            assert(ic_groups(ic, sub_d)[j] == gg.flatten()[j - 1]);
            assert(rel(gl.flatten()[j - 1], gg.flatten()[j - 1]));
        } else {
            assert(ic_lines(ic, elem_d, sub_d)[j] == iea_line(ic, elem_d));
            assert(ic_groups(ic, sub_d)[j] == iea_group(ic));
        }
    }
}

/// Each line of a whole document matches its token group, and the first
/// line is the first interchange's ISA line.
proof fn lemma_doc_level(d: DocumentView, names: Seq<NameEntryView>)
    requires
        wf_document(d, names),
    ensures
        doc_lines(d).len() == doc_groups(d).len(),
        doc_lines(d).len() >= 2,
        doc_lines(d)[0] == isa_line(
            d.interchanges[0],
            d.element_delimiter,
            d.sub_element_delimiter,
        ),
        forall|i: int|
            0 <= i < doc_lines(d).len() ==> line_matches(
                #[trigger] doc_lines(d)[i],
                doc_groups(d)[i],
                d.element_delimiter,
                d.segment_delimiter,
            ),
{
    let e = d.element_delimiter;
    let sub = d.sub_element_delimiter;
    let s = d.segment_delimiter;
    let rel: spec_fn(Seq<char>, Seq<Seq<char>>) -> bool = |l: Seq<char>, gg: Seq<Seq<char>>|
        line_matches(l, gg, e, s);
    let il = ic_lines_of(d.interchanges, e, sub);
    let ig = Seq::new(d.interchanges.len(), |i: int| ic_groups(d.interchanges[i], sub));
    assert forall|k: int| 0 <= k < il.len() implies (#[trigger] il[k]).len() == ig[k].len() by {
        lemma_ic_level(d.interchanges[k], e, sub, s, names);
    }
    assert forall|k: int, j: int|
        0 <= k < il.len() && 0 <= j < il[k].len() implies rel(#[trigger] il[k][j], ig[k][j]) by {
        lemma_ic_level(d.interchanges[k], e, sub, s, names);
        assert(il[k][j] == ic_lines(d.interchanges[k], e, sub)[j]);
        assert(ig[k][j] == ic_groups(d.interchanges[k], sub)[j]);
    }
    lemma_flatten_parallel(il, ig, rel);
    lemma_ic_level(d.interchanges[0], e, sub, s, names);
    assert(il.flatten() == il.first() + il.drop_first().flatten());
    assert(doc_lines(d)[0] == il[0][0]);
    assert(doc_lines(d).len() >= il[0].len());
    assert forall|i: int|
        0 <= i < doc_lines(d).len() implies line_matches(
        #[trigger] doc_lines(d)[i],
        doc_groups(d)[i],
        e,
        s,
    ) by {
        assert(rel(il.flatten()[i], ig.flatten()[i]));
    }
}

/// Tokenizing the serialized text of a well-formed document yields its
/// delimiters and exactly its token groups.
pub proof fn lemma_tokenize_doc(d: DocumentView, names: Seq<NameEntryView>)
    requires
        wf_document(d, names),
    ensures
        tokenize_spec(doc_x12(d)) == Ok::<TokensView, EdiParseErrorKind>(
            TokensView {
                tokens: doc_groups(d),
                element_delimiter: d.element_delimiter,
                sub_element_delimiter: d.sub_element_delimiter,
                segment_delimiter: d.segment_delimiter,
            },
        ),
{
    let e = d.element_delimiter;
    let sub = d.sub_element_delimiter;
    let s = d.segment_delimiter;
    let lines = doc_lines(d);
    let text = doc_x12(d);
    lemma_doc_level(d, names);
    lemma_split_join(lines, s);
    lemma_isa_line_shape(d.interchanges[0], e, sub, s, names);
    assert(text == join_on(lines, s));
    assert(text == lines.first() + seq![s] + join_on(lines.drop_first(), s));
    assert(text.len() >= 106);
    assert(text[103] == e);
    assert(text[104] == sub);
    lemma_clean_segments_id(lines);
    lemma_split_all_shape(lines, e);
    assert(split_all(lines, e) =~~= doc_groups(d)) by {
        assert(forall|i: int|
            0 <= i < lines.len() ==> #[trigger] split_all(lines, e)[i] == split_on(lines[i], e));
        assert(forall|i: int|
            0 <= i < lines.len() ==> #[trigger] split_on(lines[i], e) == doc_groups(d)[i]);
    }
    assert(token_groups(text, e, s) == doc_groups(d));
    assert(tokenize_spec(text) == Ok::<TokensView, EdiParseErrorKind>(
        TokensView {
            tokens: doc_groups(d),
            element_delimiter: e,
            sub_element_delimiter: sub,
            segment_delimiter: s,
        },
    ));
}


/// The opener tags, left alone by trimming.
proof fn lemma_tags_trim_fixed()
    ensures
        trimmed("ISA"@) == "ISA"@,
        trimmed("GS"@) == "GS"@,
        trimmed("ST"@) == "ST"@,
{
    reveal_strlit("ISA");
    reveal_strlit("GS");
    reveal_strlit("ST");
    assert("ISA"@.len() == 3 && "ISA"@[0] == 'I' && "ISA"@[2] == 'A');
    assert("GS"@.len() == 2 && "GS"@[0] == 'G' && "GS"@[1] == 'S');
    assert("ST"@.len() == 2 && "ST"@[0] == 'S' && "ST"@[1] == 'T');
    lemma_trimmed_fixed("ISA"@);
    lemma_trimmed_fixed("GS"@);
    lemma_trimmed_fixed("ST"@);
}

/// A state whose innermost open scope is a functional group.
pub open spec fn state_open_group(st: Seq<InterchangeControlView>) -> bool {
    st.len() >= 1 && st.last().functional_groups.len() >= 1
}

/// A state whose innermost open scope is a transaction.
pub open spec fn state_open_txn(st: Seq<InterchangeControlView>) -> bool {
    state_open_group(st) && st.last().functional_groups.last().transactions.len() >= 1
}

/// The state after a run of generic segments is appended to the
/// innermost open transaction.
pub open spec fn append_segs_state(
    st: Seq<InterchangeControlView>,
    segs: Seq<GenericSegmentView>,
) -> Seq<InterchangeControlView> {
    let ic = st.last();
    let fg = ic.functional_groups.last();
    let tx = fg.transactions.last();
    st.update(
        st.len() - 1,
        InterchangeControlView {
            functional_groups: ic.functional_groups.update(
                ic.functional_groups.len() - 1,
                FunctionalGroupView {
                    transactions: fg.transactions.update(
                        fg.transactions.len() - 1,
                        TransactionView { segments: tx.segments + segs, ..tx },
                    ),
                    ..fg
                },
            ),
            ..ic
        },
    )
}

/// The state after a transaction is appended to the innermost open
/// functional group.
pub open spec fn push_txn_state(
    st: Seq<InterchangeControlView>,
    t: TransactionView,
) -> Seq<InterchangeControlView> {
    let ic = st.last();
    let fg = ic.functional_groups.last();
    st.update(
        st.len() - 1,
        InterchangeControlView {
            functional_groups: ic.functional_groups.update(
                ic.functional_groups.len() - 1,
                FunctionalGroupView { transactions: fg.transactions.push(t), ..fg },
            ),
            ..ic
        },
    )
}

/// The state after a functional group is appended to the most recently
/// opened interchange.
pub open spec fn push_group_state(
    st: Seq<InterchangeControlView>,
    g: FunctionalGroupView,
) -> Seq<InterchangeControlView> {
    let ic = st.last();
    st.update(
        st.len() - 1,
        InterchangeControlView { functional_groups: ic.functional_groups.push(g), ..ic },
    )
}

/// The token groups of a run of generic segments.
pub open spec fn seg_groups_of(segs: Seq<GenericSegmentView>) -> Seq<Seq<Seq<char>>> {
    Seq::new(segs.len(), |i: int| seg_group(segs[i]))
}

/// Folding a stream that starts with one group steps once and goes on.
proof fn lemma_assemble_cons(
    st: Seq<InterchangeControlView>,
    g: Seq<Seq<char>>,
    rest: Seq<Seq<Seq<char>>>,
    loose: bool,
    names: Seq<NameEntryView>,
)
    ensures
        assemble_from(st, seq![g] + rest, loose, names) == (match assemble_step(
            st,
            g,
            loose,
            names,
        ) {
            Ok(n) => assemble_from(n, rest, loose, names),
            Err(k) => Err(k),
        }),
{
    assert((seq![g] + rest).first() == g);
    assert((seq![g] + rest).drop_first() =~~= rest);
    assert((seq![g] + rest).len() >= 1);
}

/// One generic segment's token group steps the assembler by appending
/// that segment to the innermost open transaction.
proof fn lemma_seg_step(
    st: Seq<InterchangeControlView>,
    v: GenericSegmentView,
    elem_d: char,
    seg_d: char,
    names: Seq<NameEntryView>,
)
    requires
        state_open_txn(st),
        wf_segment(v, elem_d, seg_d),
    ensures
        assemble_step(st, seg_group(v), false, names) == Ok::<_, EdiParseErrorKind>(
            append_segs_state(st, seq![v]),
        ),
{
    let g = seg_group(v);
    assert(g[0] == v.segment_abbreviation);
    assert(g.len() == 1 + v.elements.len());
    let sv = crate::generic_segment::seg_from_tokens(g)->Ok_0;
    assert(crate::generic_segment::seg_from_tokens(g) is Ok);
    assert(sv =~~= v) by {
        assert(sv.segment_abbreviation == trimmed(g[0]));
        assert(sv.elements =~~= v.elements) by {
            assert(forall|i: int|
                0 <= i < v.elements.len() ==> crate::text::trim_each(g).drop_first()[i]
                    == trimmed(#[trigger] g[i + 1]));
            assert(forall|i: int| 0 <= i < v.elements.len() ==> g[i + 1] == v.elements[i]);
        }
    }
    let ic = st.last();
    let fg = ic.functional_groups.last();
    let tx = fg.transactions.last();
    assert(tx.segments + seq![v] =~~= tx.segments.push(v));
    assert(assemble_step(st, g, false, names) == Ok::<_, EdiParseErrorKind>(st.update(
        st.len() - 1,
        crate::interchange_control::ic_add_seg(ic, g)->Ok_0,
    )));
    assert(st.update(st.len() - 1, crate::interchange_control::ic_add_seg(ic, g)->Ok_0) =~~=
        append_segs_state(st, seq![v]));
}

/// A run of generic segment token groups folds into appending the run to
/// the innermost open transaction.
proof fn lemma_segs_fold(
    st: Seq<InterchangeControlView>,
    segs: Seq<GenericSegmentView>,
    rest: Seq<Seq<Seq<char>>>,
    elem_d: char,
    seg_d: char,
    names: Seq<NameEntryView>,
)
    requires
        state_open_txn(st),
        forall|i: int| 0 <= i < segs.len() ==> wf_segment(#[trigger] segs[i], elem_d, seg_d),
    ensures
        assemble_from(st, seg_groups_of(segs) + rest, false, names) == assemble_from(
            append_segs_state(st, segs),
            rest,
            false,
            names,
        ),
    decreases segs.len(),
{
    if segs.len() == 0 {
        assert(seg_groups_of(segs) + rest =~~= rest);
        assert(append_segs_state(st, segs) =~~= st);
    } else {
        let v = segs.first();
        assert(seg_groups_of(segs) + rest =~~= seq![seg_group(v)] + (seg_groups_of(
            segs.drop_first(),
        ) + rest));
        lemma_assemble_cons(st, seg_group(v), seg_groups_of(segs.drop_first()) + rest, false, names);
        lemma_seg_step(st, v, elem_d, seg_d, names);
        let st1 = append_segs_state(st, seq![v]);
        assert(state_open_txn(st1));
        assert(forall|i: int|
            0 <= i < segs.drop_first().len() ==> segs.drop_first()[i] == segs[i + 1]);
        lemma_segs_fold(st1, segs.drop_first(), rest, elem_d, seg_d, names);
        assert(append_segs_state(st1, segs.drop_first()) =~~= append_segs_state(st, segs));
    }
}

/// A transaction's token groups fold into appending the transaction,
/// with its SE trailer passing the strict validation.
proof fn lemma_txn_fold(
    st: Seq<InterchangeControlView>,
    t: TransactionView,
    rest: Seq<Seq<Seq<char>>>,
    elem_d: char,
    seg_d: char,
    names: Seq<NameEntryView>,
)
    requires
        state_open_group(st),
        wf_txn(t, elem_d, seg_d, names),
    ensures
        assemble_from(st, txn_groups(t) + rest, false, names) == assemble_from(
            push_txn_state(st, t),
            rest,
            false,
            names,
        ),
{
    lemma_envelope_tags_distinct();
    lemma_tags_trim_fixed();
    assert(txn_groups(t) + rest =~~= seq![st_group(t)] + (seg_groups_of(t.segments) + (seq![
        se_group(t),
    ] + rest)));
    lemma_assemble_cons(st, st_group(t), seg_groups_of(t.segments) + (seq![se_group(t)] + rest), false, names);
    let t0 = TransactionView { segments: Seq::<GenericSegmentView>::empty(), ..t };
    assert(crate::transaction::st_from_tokens(st_group(t), names) == Ok::<
        _,
        EdiParseErrorKind,
    >(t0)) by {
        assert(st_group(t)[0] == "ST"@);
        assert(st_group(t).len() == 4);
        assert(crate::transaction::st_from_tokens(st_group(t), names) is Ok);
        assert(crate::transaction::st_from_tokens(st_group(t), names)->Ok_0 =~~= t0);
    }
    assert(assemble_step(st, st_group(t), false, names) == Ok::<_, EdiParseErrorKind>(
        push_txn_state(st, t0),
    )) by {
        assert(st.update(
            st.len() - 1,
            crate::interchange_control::ic_add_txn(st.last(), st_group(t), names)->Ok_0,
        ) =~~= push_txn_state(st, t0));
    }
    let st1 = push_txn_state(st, t0);
    assert(state_open_txn(st1));
    lemma_segs_fold(st1, t.segments, seq![se_group(t)] + rest, elem_d, seg_d, names);
    let st2 = append_segs_state(st1, t.segments);
    assert(st2 =~~= push_txn_state(st, t));
    lemma_assemble_cons(push_txn_state(st, t), se_group(t), rest, false, names);
    assert(assemble_step(push_txn_state(st, t), se_group(t), false, names) == Ok::<
        _,
        EdiParseErrorKind,
    >(push_txn_state(st, t))) by {
        lemma_dec_digits_value((t.segments.len() + 2) as nat);
        let stt = push_txn_state(st, t);
        assert(stt.last().functional_groups.last().transactions.last() == t);
        assert(crate::transaction::validate_se(t, se_group(t)) == Ok::<(), EdiParseErrorKind>(()));
    }
}


/// The token groups of a run of transactions, concatenated.
pub open spec fn txn_groups_cat(ts: Seq<TransactionView>) -> Seq<Seq<Seq<char>>> {
    Seq::new(ts.len(), |i: int| txn_groups(ts[i])).flatten()
}

/// The state after a run of transactions is appended to the innermost
/// open functional group.
pub open spec fn append_txns_state(
    st: Seq<InterchangeControlView>,
    ts: Seq<TransactionView>,
) -> Seq<InterchangeControlView> {
    let ic = st.last();
    let fg = ic.functional_groups.last();
    st.update(
        st.len() - 1,
        InterchangeControlView {
            functional_groups: ic.functional_groups.update(
                ic.functional_groups.len() - 1,
                FunctionalGroupView { transactions: fg.transactions + ts, ..fg },
            ),
            ..ic
        },
    )
}

/// A run of transactions' token groups folds into appending the run.
proof fn lemma_txns_fold(
    st: Seq<InterchangeControlView>,
    ts: Seq<TransactionView>,
    rest: Seq<Seq<Seq<char>>>,
    elem_d: char,
    seg_d: char,
    names: Seq<NameEntryView>,
)
    requires
        state_open_group(st),
        forall|i: int| 0 <= i < ts.len() ==> wf_txn(#[trigger] ts[i], elem_d, seg_d, names),
    ensures
        assemble_from(st, txn_groups_cat(ts) + rest, false, names) == assemble_from(
            append_txns_state(st, ts),
            rest,
            false,
            names,
        ),
    decreases ts.len(),
{
    if ts.len() == 0 {
        assert(Seq::new(ts.len(), |i: int| txn_groups(ts[i])) =~~= Seq::<
            Seq<Seq<Seq<char>>>,
        >::empty());
        assert(txn_groups_cat(ts) + rest =~~= rest);
        assert(append_txns_state(st, ts) =~~= st);
    } else {
        let t = ts.first();
        let nested = Seq::new(ts.len(), |i: int| txn_groups(ts[i]));
        assert(nested.first() == txn_groups(t));
        assert(nested.drop_first() =~~= Seq::new(
            ts.drop_first().len(),
            |i: int| txn_groups(ts.drop_first()[i]),
        )) by {
            assert(forall|i: int|
                0 <= i < ts.drop_first().len() ==> ts.drop_first()[i] == ts[i + 1]);
        }
        assert(txn_groups_cat(ts) == nested.first() + nested.drop_first().flatten());
        assert(txn_groups_cat(ts) + rest =~~= txn_groups(t) + (txn_groups_cat(ts.drop_first())
            + rest));
        lemma_txn_fold(st, t, txn_groups_cat(ts.drop_first()) + rest, elem_d, seg_d, names);
        let st1 = push_txn_state(st, t);
        assert(state_open_group(st1));
        assert(forall|i: int|
            0 <= i < ts.drop_first().len() ==> ts.drop_first()[i] == ts[i + 1]);
        lemma_txns_fold(st1, ts.drop_first(), rest, elem_d, seg_d, names);
        assert(append_txns_state(st1, ts.drop_first()) =~~= append_txns_state(st, ts));
    }
}

/// A functional group's token groups fold into appending the group, with
/// its GE trailer passing the strict validation.
proof fn lemma_group_fold(
    st: Seq<InterchangeControlView>,
    g: FunctionalGroupView,
    rest: Seq<Seq<Seq<char>>>,
    elem_d: char,
    seg_d: char,
    names: Seq<NameEntryView>,
)
    requires
        st.len() >= 1,
        wf_group(g, elem_d, seg_d, names),
    ensures
        assemble_from(st, group_groups(g) + rest, false, names) == assemble_from(
            push_group_state(st, g),
            rest,
            false,
            names,
        ),
{
    lemma_envelope_tags_distinct();
    lemma_tags_trim_fixed();
    assert(group_groups(g) + rest =~~= seq![gs_group(g)] + (txn_groups_cat(g.transactions) + (seq![
        ge_group(g),
    ] + rest)));
    lemma_assemble_cons(st, gs_group(g), txn_groups_cat(g.transactions) + (seq![ge_group(g)] + rest), false, names);
    let g0 = FunctionalGroupView { transactions: Seq::<TransactionView>::empty(), ..g };
    assert(crate::functional_group::gs_from_tokens(gs_group(g)) == Ok::<_, EdiParseErrorKind>(
        g0,
    )) by {
        assert(gs_group(g)[0] == "GS"@);
        assert(gs_group(g).len() == 9);
        assert(crate::functional_group::gs_from_tokens(gs_group(g)) is Ok);
        assert(crate::functional_group::gs_from_tokens(gs_group(g))->Ok_0 =~~= g0);
    }
    assert(assemble_step(st, gs_group(g), false, names) == Ok::<_, EdiParseErrorKind>(
        push_group_state(st, g0),
    )) by {
        assert(st.update(
            st.len() - 1,
            crate::interchange_control::ic_add_group(st.last(), gs_group(g))->Ok_0,
        ) =~~= push_group_state(st, g0));
    }
    let st1 = push_group_state(st, g0);
    assert(state_open_group(st1));
    lemma_txns_fold(st1, g.transactions, seq![ge_group(g)] + rest, elem_d, seg_d, names);
    let st2 = append_txns_state(st1, g.transactions);
    assert(st2 =~~= push_group_state(st, g));
    lemma_assemble_cons(push_group_state(st, g), ge_group(g), rest, false, names);
    assert(assemble_step(push_group_state(st, g), ge_group(g), false, names) == Ok::<
        _,
        EdiParseErrorKind,
    >(push_group_state(st, g))) by {
        lemma_dec_digits_value(g.transactions.len());
        let stg = push_group_state(st, g);
        assert(stg.last().functional_groups.last() == g);
        assert(crate::functional_group::validate_ge(g, ge_group(g)) == Ok::<
            (),
            EdiParseErrorKind,
        >(()));
    }
}

/// The token groups of a run of functional groups, concatenated.
pub open spec fn group_groups_cat(gs: Seq<FunctionalGroupView>) -> Seq<Seq<Seq<char>>> {
    Seq::new(gs.len(), |i: int| group_groups(gs[i])).flatten()
}

/// The state after a run of functional groups is appended to the most
/// recently opened interchange.
pub open spec fn append_groups_state(
    st: Seq<InterchangeControlView>,
    gs: Seq<FunctionalGroupView>,
) -> Seq<InterchangeControlView> {
    let ic = st.last();
    st.update(
        st.len() - 1,
        InterchangeControlView { functional_groups: ic.functional_groups + gs, ..ic },
    )
}

/// A run of functional groups' token groups folds into appending the run.
proof fn lemma_groups_fold(
    st: Seq<InterchangeControlView>,
    gs: Seq<FunctionalGroupView>,
    rest: Seq<Seq<Seq<char>>>,
    elem_d: char,
    seg_d: char,
    names: Seq<NameEntryView>,
)
    requires
        st.len() >= 1,
        forall|i: int| 0 <= i < gs.len() ==> wf_group(#[trigger] gs[i], elem_d, seg_d, names),
    ensures
        assemble_from(st, group_groups_cat(gs) + rest, false, names) == assemble_from(
            append_groups_state(st, gs),
            rest,
            false,
            names,
        ),
    decreases gs.len(),
{
    if gs.len() == 0 {
        assert(Seq::new(gs.len(), |i: int| group_groups(gs[i])) =~~= Seq::<
            Seq<Seq<Seq<char>>>,
        >::empty());
        assert(group_groups_cat(gs) + rest =~~= rest);
        assert(append_groups_state(st, gs) =~~= st);
    } else {
        let g = gs.first();
        let nested = Seq::new(gs.len(), |i: int| group_groups(gs[i]));
        assert(nested.first() == group_groups(g));
        assert(nested.drop_first() =~~= Seq::new(
            gs.drop_first().len(),
            |i: int| group_groups(gs.drop_first()[i]),
        )) by {
            assert(forall|i: int|
                0 <= i < gs.drop_first().len() ==> gs.drop_first()[i] == gs[i + 1]);
        }
        assert(group_groups_cat(gs) == nested.first() + nested.drop_first().flatten());
        assert(group_groups_cat(gs) + rest =~~= group_groups(g) + (group_groups_cat(
            gs.drop_first(),
        ) + rest));
        lemma_group_fold(st, g, group_groups_cat(gs.drop_first()) + rest, elem_d, seg_d, names);
        let st1 = push_group_state(st, g);
        assert(st1.len() >= 1);
        assert(forall|i: int|
            0 <= i < gs.drop_first().len() ==> gs.drop_first()[i] == gs[i + 1]);
        lemma_groups_fold(st1, gs.drop_first(), rest, elem_d, seg_d, names);
        assert(append_groups_state(st1, gs.drop_first()) =~~= append_groups_state(st, gs));
    }
}

/// An interchange's token groups fold into appending the interchange,
/// with its IEA trailer passing the strict validation.
proof fn lemma_ic_fold(
    st: Seq<InterchangeControlView>,
    ic: InterchangeControlView,
    rest: Seq<Seq<Seq<char>>>,
    elem_d: char,
    sub_d: char,
    seg_d: char,
    names: Seq<NameEntryView>,
)
    requires
        wf_interchange(ic, elem_d, seg_d, names),
    ensures
        assemble_from(st, ic_groups(ic, sub_d) + rest, false, names) == assemble_from(
            st.push(ic),
            rest,
            false,
            names,
        ),
{
    lemma_envelope_tags_distinct();
    lemma_tags_trim_fixed();
    assert(ic_groups(ic, sub_d) + rest =~~= seq![isa_group(ic, sub_d)] + (group_groups_cat(
        ic.functional_groups,
    ) + (seq![iea_group(ic)] + rest)));
    lemma_assemble_cons(st, isa_group(ic, sub_d), group_groups_cat(ic.functional_groups) + (seq![
        iea_group(ic),
    ] + rest), false, names);
    let ic0 = InterchangeControlView {
        functional_groups: Seq::<FunctionalGroupView>::empty(),
        ..ic
    };
    assert(crate::interchange_control::isa_from_tokens(isa_group(ic, sub_d)) == Ok::<
        _,
        EdiParseErrorKind,
    >(ic0)) by {
        assert(isa_group(ic, sub_d)[0] == "ISA"@);
        assert(isa_group(ic, sub_d).len() == 17);
        lemma_trimmed_pad(ic.authorization_qualifier, 2);
        lemma_trimmed_pad(ic.authorization_information, 10);
        lemma_trimmed_pad(ic.security_qualifier, 2);
        lemma_trimmed_pad(ic.security_information, 10);
        lemma_trimmed_pad(ic.sender_qualifier, 2);
        lemma_trimmed_pad(ic.sender_id, 15);
        lemma_trimmed_pad(ic.receiver_qualifier, 2);
        lemma_trimmed_pad(ic.receiver_id, 15);
        lemma_trimmed_pad(ic.date, 6);
        lemma_trimmed_pad(ic.time, 4);
        lemma_trimmed_pad(ic.standards_id, 1);
        lemma_trimmed_pad(ic.version, 5);
        lemma_trimmed_pad(ic.interchange_control_number, 9);
        lemma_trimmed_pad(ic.acknowledgement_requested, 1);
        lemma_trimmed_pad(ic.test_indicator, 1);
        assert(crate::interchange_control::isa_from_tokens(isa_group(ic, sub_d)) is Ok);
        assert(crate::interchange_control::isa_from_tokens(isa_group(ic, sub_d))->Ok_0 =~~= ic0);
    }
    assert(assemble_step(st, isa_group(ic, sub_d), false, names) == Ok::<_, EdiParseErrorKind>(
        st.push(ic0),
    ));
    let st1 = st.push(ic0);
    assert(st1.len() >= 1);
    assert(st1.last() == ic0);
    lemma_groups_fold(st1, ic.functional_groups, seq![iea_group(ic)] + rest, elem_d, seg_d, names);
    let st2 = append_groups_state(st1, ic.functional_groups);
    assert(st2 =~~= st.push(ic));
    lemma_assemble_cons(st.push(ic), iea_group(ic), rest, false, names);
    assert(assemble_step(st.push(ic), iea_group(ic), false, names) == Ok::<
        _,
        EdiParseErrorKind,
    >(st.push(ic))) by {
        lemma_dec_digits_value(ic.functional_groups.len());
        assert(st.push(ic).last() == ic);
        assert(crate::interchange_control::validate_iea(ic, iea_group(ic)) == Ok::<
            (),
            EdiParseErrorKind,
        >(()));
    }
}

/// A run of interchanges' token groups folds into appending the run.
#[verifier::rlimit(100)]
proof fn lemma_ics_fold(
    st: Seq<InterchangeControlView>,
    ics: Seq<InterchangeControlView>,
    rest: Seq<Seq<Seq<char>>>,
    elem_d: char,
    sub_d: char,
    seg_d: char,
    names: Seq<NameEntryView>,
)
    requires
        forall|i: int|
            0 <= i < ics.len() ==> wf_interchange(#[trigger] ics[i], elem_d, seg_d, names),
    ensures
        assemble_from(
            st,
            Seq::new(ics.len(), |i: int| ic_groups(ics[i], sub_d)).flatten() + rest,
            false,
            names,
        ) == assemble_from(st + ics, rest, false, names),
    decreases ics.len(),
{
    if ics.len() == 0 {
        assert(Seq::new(ics.len(), |i: int| ic_groups(ics[i], sub_d)) =~~= Seq::<
            Seq<Seq<Seq<char>>>,
        >::empty());
        assert(Seq::new(ics.len(), |i: int| ic_groups(ics[i], sub_d)).flatten() + rest =~~= rest);
        assert(st + ics =~~= st);
    } else {
        let ic = ics.first();
        let nested = Seq::new(ics.len(), |i: int| ic_groups(ics[i], sub_d));
        assert(nested.first() == ic_groups(ic, sub_d));
        assert(nested.drop_first() =~~= Seq::new(
            ics.drop_first().len(),
            |i: int| ic_groups(ics.drop_first()[i], sub_d),
        )) by {
            assert(forall|i: int|
                0 <= i < ics.drop_first().len() ==> ics.drop_first()[i] == ics[i + 1]);
        }
        assert(nested.flatten() == nested.first() + nested.drop_first().flatten());
        assert(nested.flatten() + rest =~~= ic_groups(ic, sub_d) + (Seq::new(
            ics.drop_first().len(),
            |i: int| ic_groups(ics.drop_first()[i], sub_d),
        ).flatten() + rest));
        lemma_ic_fold(st, ic, Seq::new(
            ics.drop_first().len(),
            |i: int| ic_groups(ics.drop_first()[i], sub_d),
        ).flatten() + rest, elem_d, sub_d, seg_d, names);
        assert(forall|i: int|
            0 <= i < ics.drop_first().len() ==> ics.drop_first()[i] == ics[i + 1]);
        lemma_ics_fold(st.push(ic), ics.drop_first(), rest, elem_d, sub_d, seg_d, names);
        assert(st.push(ic) + ics.drop_first() =~~= st + ics);
    }
}

/// The assembler folds a well-formed document's token groups back into
/// exactly its interchanges, every strict validation passing.
pub proof fn lemma_assemble_doc(d: DocumentView, names: Seq<NameEntryView>)
    requires
        wf_document(d, names),
    ensures
        assemble_from(Seq::<InterchangeControlView>::empty(), doc_groups(d), false, names)
            == Ok::<_, EdiParseErrorKind>(d.interchanges),
{
    let empty_state = Seq::<InterchangeControlView>::empty();
    let empty_rest = Seq::<Seq<Seq<char>>>::empty();
    assert(doc_groups(d) + empty_rest =~~= doc_groups(d));
    lemma_ics_fold(
        empty_state,
        d.interchanges,
        empty_rest,
        d.element_delimiter,
        d.sub_element_delimiter,
        d.segment_delimiter,
        names,
    );
    assert(empty_state + d.interchanges =~~= d.interchanges);
}

/// Round-trip stability: serializing any well-formed document and
/// parsing the text back in strict mode, against the same name table its
/// transaction names were resolved from, yields a structurally equal
/// document, delimiters included.
pub proof fn lemma_parse_serialize_round_trip(d: DocumentView, names: Seq<NameEntryView>)
    requires
        wf_document(d, names),
    ensures
        parse_spec(doc_x12(d), false, names) == Ok::<DocumentView, EdiParseErrorKind>(d),
{
    lemma_tokenize_doc(d, names);
    lemma_assemble_doc(d, names);
    assert(parse_spec(doc_x12(d), false, names)->Ok_0 =~~= d);
}

} // verus!
