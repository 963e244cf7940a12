// End-to-end behavior: delimiter discovery failures, ordering failures,
// envelope mismatches in strict and loose mode, and round-tripping a
// parsed document back to its X12 text.

use edi::interchange_control::pad_right;
use edi::loose_parse;
use edi::parse;
use edi::parse_with_names;
use edi::tokenize;
use edi::EdiParseErrorKind;
use edi::TransactionNames;

const WELL_FORMED: &str = "ISA*00*          *00*          *ZZ*SENDERISA      *14*0073268795005  *020226*1534*U*00401*000000001*0*T*>~GS*PO*SENDERGS*007326879*20020226*1534*1*X*004010~ST*140*100000001*~BGN*20*TEST_ID*200615*0000~SE*3*100000001~GE*1*1~IEA*1*000000001~";

#[test]
fn empty_input_is_truncated() {
    let err = parse("").unwrap_err();
    assert_eq!(err.kind, EdiParseErrorKind::TruncatedInput);
}

#[test]
fn short_input_is_truncated() {
    let err = parse("ISA*00*shorter than the minimum header").unwrap_err();
    assert_eq!(err.kind, EdiParseErrorKind::TruncatedInput);
    let err = loose_parse("ISA*00*shorter than the minimum header").unwrap_err();
    assert_eq!(err.kind, EdiParseErrorKind::TruncatedInput);
}

#[test]
fn equal_delimiters_collide() {
    // The sub-element delimiter at offset 104 is replaced with the
    // element delimiter.
    let input = WELL_FORMED.replace("*0*T*>~", "*0*T***");
    let err = parse(&input).unwrap_err();
    assert_eq!(err.kind, EdiParseErrorKind::DelimiterCollision);
}

#[test]
fn well_formed_document_parses_and_round_trips() {
    let document = parse(WELL_FORMED).unwrap();
    assert_eq!(document.interchanges.len(), 1);
    assert_eq!(document.segment_delimiter, '~');
    assert_eq!(document.element_delimiter, '*');
    assert_eq!(document.sub_element_delimiter, '>');
    let interchange = &document.interchanges[0];
    assert_eq!(interchange.functional_groups.len(), 1);
    let group = &interchange.functional_groups[0];
    assert_eq!(group.transactions.len(), 1);
    let transaction = &group.transactions[0];
    assert_eq!(transaction.transaction_code, "140");
    assert_eq!(transaction.transaction_name, "unidentified");
    assert_eq!(transaction.implementation_convention_reference, Some("".to_string()));
    assert_eq!(transaction.segments.len(), 1);
    assert_eq!(transaction.segments[0].segment_abbreviation, "BGN");

    // The serializer re-pads the ISA fields to their fixed widths, so the
    // output is the input minus the trailing segment delimiter.
    let expected = &WELL_FORMED[..WELL_FORMED.len() - 1];
    assert_eq!(document.to_x12_string(), expected);
}

#[test]
fn parse_of_serialized_document_is_stable() {
    let first = parse(WELL_FORMED).unwrap();
    let text = first.to_x12_string();
    let second = parse(&text).unwrap();
    assert_eq!(first, second);
    assert_eq!(second.to_x12_string(), text);
}

#[test]
fn injected_names_resolve_transaction_name() {
    let mut names = TransactionNames::new();
    names.add("140", "Product Registration");
    let document = parse_with_names(WELL_FORMED, &names).unwrap();
    assert_eq!(
        document.interchanges[0].functional_groups[0].transactions[0].transaction_name,
        "Product Registration"
    );
}

#[test]
fn gs_before_any_isa_is_out_of_order() {
    // The leading segment carries a GS tag but still holds the delimiter
    // characters at the fixed header offsets.
    let input = WELL_FORMED.replace("ISA*00*", "GS**00*");
    let strict = parse(&input).unwrap_err();
    assert_eq!(strict.kind, EdiParseErrorKind::OutOfOrderSegment);
    let relaxed = loose_parse(&input).unwrap_err();
    assert_eq!(relaxed.kind, EdiParseErrorKind::OutOfOrderSegment);
}

#[test]
fn generic_segment_before_transaction_is_out_of_order() {
    let input = WELL_FORMED.replace("~ST*140*100000001*~", "~~");
    let err = parse(&input).unwrap_err();
    assert_eq!(err.kind, EdiParseErrorKind::OutOfOrderSegment);
}

#[test]
fn wrong_se_count_is_envelope_mismatch() {
    let input = WELL_FORMED.replace("SE*3*", "SE*99*");
    let err = parse(&input).unwrap_err();
    assert_eq!(err.kind, EdiParseErrorKind::EnvelopeMismatch);
}

#[test]
fn wrong_se_control_number_is_envelope_mismatch() {
    let input = WELL_FORMED.replace("SE*3*100000001", "SE*3*100000009");
    let err = parse(&input).unwrap_err();
    assert_eq!(err.kind, EdiParseErrorKind::EnvelopeMismatch);
}

#[test]
fn wrong_ge_count_is_envelope_mismatch() {
    let input = WELL_FORMED.replace("GE*1*1", "GE*2*1");
    let err = parse(&input).unwrap_err();
    assert_eq!(err.kind, EdiParseErrorKind::EnvelopeMismatch);
}

#[test]
fn wrong_iea_control_number_is_envelope_mismatch() {
    let input = WELL_FORMED.replace("IEA*1*000000001", "IEA*1*000000002");
    let err = parse(&input).unwrap_err();
    assert_eq!(err.kind, EdiParseErrorKind::EnvelopeMismatch);
}

#[test]
fn non_numeric_se_count_is_envelope_mismatch() {
    let input = WELL_FORMED.replace("SE*3*", "SE*x*");
    let err = parse(&input).unwrap_err();
    assert_eq!(err.kind, EdiParseErrorKind::EnvelopeMismatch);
}

#[test]
fn short_gs_segment_is_malformed() {
    let input = WELL_FORMED.replace(
        "GS*PO*SENDERGS*007326879*20020226*1534*1*X*004010~",
        "GS*PO~",
    );
    let err = parse(&input).unwrap_err();
    assert_eq!(err.kind, EdiParseErrorKind::MalformedSegment);
}

#[test]
fn loose_parse_accepts_mismatched_trailers_and_keeps_the_tree() {
    let broken = WELL_FORMED.replace("SE*3*", "SE*99*");
    let relaxed = loose_parse(&broken).unwrap();
    let strict = parse(WELL_FORMED).unwrap();
    // The tree is identical to the one parsed from the correctly counted
    // document.
    assert_eq!(relaxed, strict);
}

#[test]
fn loose_parse_still_rejects_truncated_and_colliding_input() {
    assert_eq!(
        loose_parse("").unwrap_err().kind,
        EdiParseErrorKind::TruncatedInput
    );
    let collision = WELL_FORMED.replace("*0*T*>~", "*0*T***");
    assert_eq!(
        loose_parse(&collision).unwrap_err().kind,
        EdiParseErrorKind::DelimiterCollision
    );
}

#[test]
fn tokenizer_trims_and_drops_blank_segments() {
    let input = "ISA*00*          *00*          *ZZ*SENDERISA      *14*0073268795005  *020226*1534*U*00401*000000001*0*T*>~\n  GS*PO*SENDERGS*007326879*20020226*1534*1*X*004010  ~\n~\n";
    let result = tokenize(input).unwrap();
    assert_eq!(result.tokens.len(), 2);
    assert_eq!(result.tokens[1][0], "GS");
    assert_eq!(result.tokens[1][8], "004010");
}

#[test]
fn padding_fills_to_width_and_leaves_long_input_alone() {
    assert_eq!(pad_right("ab", 5), "ab   ");
    assert_eq!(pad_right("abcdef", 5), "abcdef");
    assert_eq!(pad_right("", 3), "   ");
}

#[test]
fn newline_delimited_document_round_trips() {
    let input = "ISA*01*0000000000*01*0000000000*ZZ*ABCDEFGHIJKLMNO*ZZ*123456789012345*101127*1719*U*00400*000001320*0*P*>\nGS*IN*4405197800*999999999*20101205*1710*1320*X*004010VICS\nST*810*1004*\nBIG*20101204*217224*20101204*P792940\nSE*3*1004\nGE*1*1320\nIEA*1*000001320";
    let document = parse(input).unwrap();
    assert_eq!(document.segment_delimiter, '\n');
    assert_eq!(document.to_x12_string(), input);
}

#[test]
fn two_interchanges_round_trip() {
    let single = &WELL_FORMED[..WELL_FORMED.len() - 1];
    let doubled = format!("{}~{}", WELL_FORMED, single);
    let document = parse(&doubled).unwrap();
    assert_eq!(document.interchanges.len(), 2);
    assert_eq!(document.to_x12_string(), doubled.replace("~~", "~"));
}

#[test]
fn leading_zero_counts_still_match() {
    // Counts are compared numerically, not textually.
    let input = WELL_FORMED.replace("SE*3*", "SE*03*").replace("GE*1*1", "GE*01*1");
    assert!(parse(&input).is_ok());
}

#[test]
fn se_count_mismatch_reports_expected_and_actual() {
    let input = WELL_FORMED.replace("SE*3*", "SE*99*");
    let err = parse(&input).unwrap_err();
    assert_eq!(err.kind, EdiParseErrorKind::EnvelopeMismatch);
    assert_eq!(
        err.reason,
        "transaction validation failed: incorrect number of segments  --  expected: 99  received: 3"
    );
    assert_eq!(
        err.error_segment,
        Some(vec!["SE".to_string(), "99".to_string(), "100000001".to_string()])
    );
}

#[test]
fn se_id_mismatch_reports_both_control_numbers() {
    let input = WELL_FORMED.replace("SE*3*100000001", "SE*3*100000009");
    let err = parse(&input).unwrap_err();
    assert_eq!(
        err.reason,
        "transaction validation failed: incorrect transaction ID  --  expected: 100000009  received: 100000001"
    );
    assert_eq!(
        err.error_segment,
        Some(vec!["SE".to_string(), "3".to_string(), "100000009".to_string()])
    );
}

#[test]
fn ge_count_mismatch_reports_expected_and_actual() {
    let input = WELL_FORMED.replace("GE*1*1", "GE*2*1");
    let err = parse(&input).unwrap_err();
    assert_eq!(
        err.reason,
        "functional group validation failed: incorrect number of transactions  --  expected: 2  received: 1"
    );
    assert_eq!(
        err.error_segment,
        Some(vec!["GE".to_string(), "2".to_string(), "1".to_string()])
    );
}

#[test]
fn iea_count_mismatch_reports_expected_and_actual() {
    // One interchange holding two functional groups while its IEA
    // declares one.
    let single = &WELL_FORMED[..WELL_FORMED.len() - 1];
    let group_block = "GS*PO*SENDERGS*007326879*20020226*1534*1*X*004010~ST*140*100000001*~BGN*20*TEST_ID*200615*0000~SE*3*100000001~GE*1*1~";
    let input = single.replace("GS*PO*", &format!("{}GS*PO*", group_block));
    let err = parse(&input).unwrap_err();
    assert_eq!(err.kind, EdiParseErrorKind::EnvelopeMismatch);
    assert_eq!(
        err.reason,
        "interchange validation failed: incorrect number of functional groups  --  expected: 1  received: 2"
    );
    assert_eq!(
        err.error_segment,
        Some(vec!["IEA".to_string(), "1".to_string(), "000000001".to_string()])
    );
}

#[test]
fn ordering_failure_identifies_the_offending_segment() {
    let input = WELL_FORMED.replace("ISA*00*", "GS**00*");
    let err = parse(&input).unwrap_err();
    assert_eq!(err.kind, EdiParseErrorKind::OutOfOrderSegment);
    let offending = err.error_segment.unwrap();
    assert_eq!(offending[0], "GS");
}

#[test]
fn header_failures_carry_no_segment() {
    assert_eq!(parse("").unwrap_err().error_segment, None);
    let collision = WELL_FORMED.replace("*0*T*>~", "*0*T***");
    assert_eq!(parse(&collision).unwrap_err().error_segment, None);
}
