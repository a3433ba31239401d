use edi::GenericSegment;
use edi::SchemaTable;
use edi::Transaction;

fn sample_schemas() -> SchemaTable {
    let mut t = SchemaTable::new();
    t.insert("850".to_string(), "Purchase Order".to_string());
    t.insert("100".to_string(), "Insurance Plan Description".to_string());
    t.insert("999".to_string(), "Implementation Acknowledgment".to_string());
    t
}

fn strings(tokens: &[&str]) -> Vec<String> {
    tokens.iter().map(|t| t.to_string()).collect()
}

#[test]
fn construct_generic_segment() {
    let test_input = strings(&[
        "GS",
        "PO",
        "SENDERGS",
        "007326879",
        "20020226",
        "1534",
        "1",
        "X",
        "004010",
    ]);

    let expected_result = GenericSegment {
        segment_abbreviation: "GS".to_string(),
        elements: strings(&[
            "PO",
            "SENDERGS",
            "007326879",
            "20020226",
            "1534",
            "1",
            "X",
            "004010",
        ]),
    };

    assert_eq!(
        GenericSegment::parse_from_tokens(&test_input).unwrap(),
        expected_result
    );
}

#[test]
fn construct_transaction() {
    let schemas = sample_schemas();
    let expected_result = Transaction {
        transaction_code: "850".to_string(),
        transaction_name: schemas.resolve("850"), // should be "Purchase Order"
        transaction_set_control_number: "000000001".to_string(),
        implementation_convention_reference: None,
        segments: Vec::new(),
    };
    let test_input = strings(&["ST", "850", "000000001"]);

    assert_eq!(
        Transaction::parse_from_tokens(&test_input, &schemas).unwrap(),
        expected_result
    );
}

#[test]
fn spot_check_schemas() {
    let schemas = sample_schemas();
    assert_eq!(schemas.resolve("850"), "Purchase Order");
    assert_eq!(schemas.resolve("100"), "Insurance Plan Description");
    assert_eq!(schemas.resolve("999"), "Implementation Acknowledgment");
}
