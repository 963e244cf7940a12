// Unit tests for the individual components: tokenizer, segment, group,
// interchange and transaction construction and serialization.

use edi::functional_group::FunctionalGroup;
use edi::functional_group_header::FunctionalGroupHeader;
use edi::generic_segment::GenericSegment;
use edi::interchange_control::pad_right;
use edi::interchange_control::InterchangeControl;
use edi::tokenize;
use edi::transaction::Transaction;
use edi::transaction::TransactionNames;
use edi::NameEntry;

fn owned(items: &[&str]) -> Vec<String> {
    items.iter().map(|x| x.to_string()).collect()
}

#[test]
fn basic_segment_tokenize() {
    let test_input = "ISA*00*          *00*          *ZZ*SENDERISA      *14*0073268795005  *020226*1534*U*00401*000000001*0*T*>~
GS*PO*SENDERGS*007326879*20020226*1534*1*X*004010~
ST*850*000000001~
BEG*00*SA*A99999-01**19970214~
REF*VR*54321~
ITD*01*3*1**15**16~
DTM*002*19971219~
DTM*002*19971219~
SE*35*000000001~
GE*1*1~
IEA*1*000000001~";

    let result = tokenize(test_input).unwrap();
    assert_eq!(result.tokens.len(), 11);
    assert_eq!(result.tokens[0].len(), 17)
}

#[test]
fn fail_to_tokenize_no_header() {
    let test_input =
        "00*          *ZZ*SENDERISA      *14*0073268795005  *020226*1534*U*00401*000000001*0*T";
    assert!(tokenize(test_input).is_err());
}

#[test]
fn fail_same_delimiters() {
    let test_input = "ISA*00*          *00*          *ZZ*SENDERISA      *14*0073268795005  *020226*1534*U*00401*000000001*0*T~~~
GS*PO*SENDERGS*007326879*20020226*1534*1*X*004010~
ST*850*000000001~";
    assert!(tokenize(test_input).is_err());
}

#[test]
fn convert_generic_segment_to_string() {
    let segment = GenericSegment {
        segment_abbreviation: "BGN".to_string(),
        elements: owned(&["20", "TEST_ID", "200615", "0000"]),
    };

    assert_eq!(segment.to_x12_string('*'), "BGN*20*TEST_ID*200615*0000");
}

#[test]
fn construct_generic_segment() {
    let test_input = owned(&[
        "GS",
        "PO",
        "SENDERGS",
        "007326879",
        "20020226",
        "1534",
        "1",
        "X",
        "004010",
    ]);

    let expected_result = GenericSegment {
        segment_abbreviation: "GS".to_string(),
        elements: owned(&[
            "PO",
            "SENDERGS",
            "007326879",
            "20020226",
            "1534",
            "1",
            "X",
            "004010",
        ]),
    };

    assert_eq!(
        GenericSegment::parse_from_tokens(test_input).unwrap(),
        expected_result
    );
}

#[test]
fn transaction_to_string() {
    let segments = vec![
        GenericSegment {
            segment_abbreviation: "BGN".to_string(),
            elements: owned(&["20", "TEST_ID", "200615", "0000"]),
        },
        GenericSegment {
            segment_abbreviation: "BGN".to_string(),
            elements: owned(&["15", "OTHER_TEST_ID", "", "", "END"]),
        },
    ];
    let transaction = Transaction {
        transaction_code: "140".to_string(),
        transaction_name: "".to_string(),
        transaction_set_control_number: "100000001".to_string(),
        implementation_convention_reference: None,
        segments,
    };

    assert_eq!(
        transaction.to_x12_string('~', '*'),
        "ST*140*100000001*~BGN*20*TEST_ID*200615*0000~BGN*15*OTHER_TEST_ID***END~SE*4*100000001"
    );
}

#[test]
fn construct_transaction() {
    let names = TransactionNames {
        entries: vec![NameEntry {
            code: "850".to_string(),
            name: "Purchase Order".to_string(),
        }],
    };
    let expected_result = Transaction {
        transaction_code: "850".to_string(),
        transaction_name: "Purchase Order".to_string(),
        transaction_set_control_number: "000000001".to_string(),
        implementation_convention_reference: None,
        segments: Vec::new(),
    };
    let test_input = owned(&["ST", "850", "000000001"]);

    assert_eq!(
        Transaction::parse_from_tokens(test_input, &names).unwrap(),
        expected_result
    );
}

#[test]
fn spot_check_schemas() {
    let mut names = TransactionNames::new();
    names.add("850", "Purchase Order");
    names.add("100", "Insurance Plan Description");
    names.add("999", "Implementation Acknowledgment");

    assert_eq!(names.lookup("850"), "Purchase Order");
    assert_eq!(names.lookup("100"), "Insurance Plan Description");
    assert_eq!(names.lookup("999"), "Implementation Acknowledgment");
}

#[test]
fn functional_group_to_string() {
    let segments = vec![
        GenericSegment {
            segment_abbreviation: "BGN".to_string(),
            elements: owned(&["20", "TEST_ID", "200615", "0000"]),
        },
        GenericSegment {
            segment_abbreviation: "BGN".to_string(),
            elements: owned(&["15", "OTHER_TEST_ID", "", "", "END"]),
        },
    ];
    let transaction = Transaction {
        transaction_code: "140".to_string(),
        transaction_name: "".to_string(),
        transaction_set_control_number: "100000001".to_string(),
        implementation_convention_reference: None,
        segments,
    };

    let functional_group = FunctionalGroup {
        functional_identifier_code: "PO".to_string(),
        application_sender_code: "SENDERGS".to_string(),
        application_receiver_code: "007326879".to_string(),
        date: "20020226".to_string(),
        time: "1534".to_string(),
        group_control_number: "1".to_string(),
        responsible_agency_code: "X".to_string(),
        version: "004010".to_string(),
        transactions: vec![transaction],
    };
    assert_eq!(functional_group.to_x12_string('\n', '*'), "GS*PO*SENDERGS*007326879*20020226*1534*1*X*004010\nST*140*100000001*\nBGN*20*TEST_ID*200615*0000\nBGN*15*OTHER_TEST_ID***END\nSE*4*100000001\nGE*1*1");
}

#[test]
fn construct_functional_group() {
    let expected_result = FunctionalGroup {
        functional_identifier_code: "PO".to_string(),
        application_sender_code: "SENDERGS".to_string(),
        application_receiver_code: "007326879".to_string(),
        date: "20020226".to_string(),
        time: "1534".to_string(),
        group_control_number: "1".to_string(),
        responsible_agency_code: "X".to_string(),
        version: "004010".to_string(),
        transactions: Vec::new(),
    };

    let test_input = owned(&[
        "GS",
        "PO",
        "SENDERGS",
        "007326879",
        "20020226",
        "1534",
        "1",
        "X",
        "004010",
    ]);

    assert_eq!(
        FunctionalGroup::parse_from_tokens(test_input).unwrap(),
        expected_result
    );
}

#[test]
#[allow(non_snake_case)]
fn construct_GS_header() {
    let expected_result = FunctionalGroupHeader {
        functional_identifier_code: "PO".to_string(),
        application_sender_code: "SENDERGS".to_string(),
        application_receiver_code: "007326879".to_string(),
        date: "20020226".to_string(),
        time: "1534".to_string(),
        group_control_number: "1".to_string(),
        responsible_agency_code: "X".to_string(),
        version: "004010".to_string(),
    };

    let test_input = "GS*PO*SENDERGS*007326879*20020226*1534*1*X*004010";

    assert_eq!(
        FunctionalGroupHeader::parse_from_str(test_input, '*').unwrap(),
        expected_result
    );
}

#[test]
fn test_isa_to_string() {
    let segments = vec![
        GenericSegment {
            segment_abbreviation: "BGN".to_string(),
            elements: owned(&["20", "TEST_ID", "200615", "0000"]),
        },
        GenericSegment {
            segment_abbreviation: "BGN".to_string(),
            elements: owned(&["15", "OTHER_TEST_ID", "", "", "END"]),
        },
    ];
    let transaction = Transaction {
        transaction_code: "140".to_string(),
        transaction_name: "".to_string(),
        transaction_set_control_number: "100000001".to_string(),
        implementation_convention_reference: None,
        segments,
    };

    let functional_group = FunctionalGroup {
        functional_identifier_code: "PO".to_string(),
        application_sender_code: "SENDERGS".to_string(),
        application_receiver_code: "007326879".to_string(),
        date: "20020226".to_string(),
        time: "1534".to_string(),
        group_control_number: "1".to_string(),
        responsible_agency_code: "X".to_string(),
        version: "004010".to_string(),
        transactions: vec![transaction],
    };

    let interchange = InterchangeControl {
        authorization_qualifier: "00".to_string(),
        authorization_information: "".to_string(),
        security_qualifier: "00".to_string(),
        security_information: "".to_string(),
        sender_qualifier: "ZZ".to_string(),
        sender_id: "SENDERISA".to_string(),
        receiver_qualifier: "14".to_string(),
        receiver_id: "0073268795005".to_string(),
        date: "020226".to_string(),
        time: "1534".to_string(),
        standards_id: "U".to_string(),
        version: "00401".to_string(),
        interchange_control_number: "000000001".to_string(),
        acknowledgement_requested: "0".to_string(),
        test_indicator: "T".to_string(),
        functional_groups: vec![functional_group],
    };

    assert_eq!(interchange.to_x12_string('~', '*', '>'), "ISA*00*          *00*          *ZZ*SENDERISA      *14*0073268795005  *020226*1534*U*00401*000000001*0*T*>~GS*PO*SENDERGS*007326879*20020226*1534*1*X*004010~ST*140*100000001*~BGN*20*TEST_ID*200615*0000~BGN*15*OTHER_TEST_ID***END~SE*4*100000001~GE*1*1~IEA*1*000000001");
}

#[test]
fn test_pad_right() {
    let input = "a";
    let output = pad_right(input, 10);
    assert_eq!(output.len(), 10);
}

#[test]
fn test_pad_right_2() {
    let input = "abcde";
    let output = pad_right(input, 10);
    assert_eq!(output.len(), 10);
}

#[test]
fn construct_interchange_control() {
    let expected_result = InterchangeControl {
        authorization_qualifier: "00".to_string(),
        authorization_information: "".to_string(),
        security_qualifier: "00".to_string(),
        security_information: "".to_string(),
        sender_qualifier: "ZZ".to_string(),
        sender_id: "SENDERISA".to_string(),
        receiver_qualifier: "14".to_string(),
        receiver_id: "0073268795005".to_string(),
        date: "020226".to_string(),
        time: "1534".to_string(),
        standards_id: "U".to_string(),
        version: "00401".to_string(),
        interchange_control_number: "000000001".to_string(),
        acknowledgement_requested: "0".to_string(),
        test_indicator: "T".to_string(),
        functional_groups: Vec::new(),
    };

    let test_input = owned(&[
        "ISA",
        "00",
        "",
        "00",
        "",
        "ZZ",
        "SENDERISA",
        "14",
        "0073268795005",
        "020226",
        "1534",
        "U",
        "00401",
        "000000001",
        "0",
        "T",
    ]);
    assert_eq!(
        InterchangeControl::parse_from_tokens(test_input).unwrap(),
        expected_result
    );
}
