use edi::parse;
use edi::parse_with_delimiters;
use edi::EdiParseError;
use edi::EnvelopeKind;
use edi::GenericSegment;
use edi::SchemaTable;

fn schemas_850() -> SchemaTable {
    let mut t = SchemaTable::new();
    t.insert("850".to_string(), "Purchase Order".to_string());
    t
}

fn wrap_transaction(body: &str) -> String {
    format!(
        "ISA*00*a*00*a*ZZ*sender*14*receiver*020226*1534*U*00401*000000042~GS*PO*sgs*rgs*20020226*1534*7~ST*850*0001~{}SE*3*0001~GE*1*7~IEA*1*000000042~",
        body
    )
}

#[test]
fn balanced_interchanges_parse_one_each() {
    let one = wrap_transaction("BEG*a~");
    let input = format!("{}{}", one, one);
    let doc = parse(&input, &schemas_850()).unwrap();
    assert_eq!(doc.interchanges.len(), 2);
    for interchange in &doc.interchanges {
        assert_eq!(interchange.functional_groups.len(), 1);
        assert_eq!(interchange.functional_groups[0].transactions.len(), 1);
    }
}

#[test]
fn empty_input_is_empty_document() {
    let doc = parse("", &schemas_850()).unwrap();
    assert_eq!(doc.interchanges.len(), 0);
}

#[test]
fn segment_order_is_preserved() {
    let input = wrap_transaction("AAA*1~BBB*2~CCC*3~DDD*4~");
    let doc = parse(&input, &schemas_850()).unwrap();
    let segments = &doc.interchanges[0].functional_groups[0].transactions[0].segments;
    assert_eq!(segments.len(), 4);
    assert_eq!(segments[0].segment_abbreviation, "AAA");
    assert_eq!(segments[1].segment_abbreviation, "BBB");
    assert_eq!(segments[2].segment_abbreviation, "CCC");
    assert_eq!(segments[3].segment_abbreviation, "DDD");
}

#[test]
fn abbreviation_kept_verbatim() {
    let input = wrap_transaction("wEiRdLy CaSeD aNd LoNg AbBrEvIaTiOn*x~");
    let doc = parse(&input, &schemas_850()).unwrap();
    let seg = &doc.interchanges[0].functional_groups[0].transactions[0].segments[0];
    assert_eq!(seg.segment_abbreviation, "wEiRdLy CaSeD aNd LoNg AbBrEvIaTiOn");
    assert_eq!(seg.elements, vec!["x".to_string()]);
}

#[test]
fn five_empty_elements() {
    let input = wrap_transaction("BEG*****~");
    let doc = parse(&input, &schemas_850()).unwrap();
    let seg = &doc.interchanges[0].functional_groups[0].transactions[0].segments[0];
    assert_eq!(seg.elements.len(), 5);
    for element in &seg.elements {
        assert_eq!(element, "");
    }
}

#[test]
fn known_code_resolves_unknown_falls_back() {
    let schemas = schemas_850();
    assert_eq!(schemas.resolve("850"), "Purchase Order");
    assert_eq!(schemas.resolve("999999"), "unidentified");
}

#[test]
fn unknown_transaction_code_named_unidentified() {
    let input = wrap_transaction("BEG*a~").replace("ST*850*", "ST*999999*");
    let doc = parse(&input, &schemas_850()).unwrap();
    assert_eq!(
        doc.interchanges[0].functional_groups[0].transactions[0].transaction_name,
        "unidentified"
    );
}

#[test]
fn transaction_end_without_open_transaction() {
    let input = "ISA*00*a*00*a*ZZ*s*14*r*020226*1534*U*00401*1~GS*PO*s*r*d*t*1~SE*0*0001~";
    let err = parse(input, &schemas_850()).unwrap_err();
    assert_eq!(err, EdiParseError::StructuralError);
}

#[test]
fn unterminated_interchange() {
    let input = "ISA*00*a*00*a*ZZ*s*14*r*020226*1534*U*00401*1~";
    let err = parse(input, &schemas_850()).unwrap_err();
    assert_eq!(
        err,
        EdiParseError::UnterminatedEnvelope(EnvelopeKind::Interchange)
    );
}

#[test]
fn unterminated_group_and_transaction() {
    let base = "ISA*00*a*00*a*ZZ*s*14*r*020226*1534*U*00401*1~GS*PO*s*r*d*t*1~";
    let err = parse(base, &schemas_850()).unwrap_err();
    assert_eq!(
        err,
        EdiParseError::UnterminatedEnvelope(EnvelopeKind::FunctionalGroup)
    );
    let with_txn = format!("{}ST*850*0001~", base);
    let err = parse(&with_txn, &schemas_850()).unwrap_err();
    assert_eq!(
        err,
        EdiParseError::UnterminatedEnvelope(EnvelopeKind::Transaction)
    );
}

#[test]
fn double_open_interchange() {
    let input = "ISA*00*a*00*a*ZZ*s*14*r*020226*1534*U*00401*1~ISA*00*a*00*a*ZZ*s*14*r*020226*1534*U*00401*2~";
    let err = parse(input, &schemas_850()).unwrap_err();
    assert_eq!(err, EdiParseError::StructuralError);
}

#[test]
fn segment_with_no_open_interchange() {
    let err = parse("BEG*a~", &schemas_850()).unwrap_err();
    assert_eq!(err, EdiParseError::StructuralError);
}

#[test]
fn segment_with_no_open_transaction() {
    let input = "ISA*00*a*00*a*ZZ*s*14*r*020226*1534*U*00401*1~GS*PO*s*r*d*t*1~BEG*a~";
    let err = parse(input, &schemas_850()).unwrap_err();
    assert_eq!(err, EdiParseError::StructuralError);
}

#[test]
fn one_token_segment_is_malformed() {
    let input = wrap_transaction("LONESOME~");
    let err = parse(&input, &schemas_850()).unwrap_err();
    assert_eq!(err, EdiParseError::MalformedSegment);
}

#[test]
fn short_transaction_start_is_malformed() {
    let input = "ISA*00*a*00*a*ZZ*s*14*r*020226*1534*U*00401*1~GS*PO*s*r*d*t*1~ST*850~";
    let err = parse(input, &schemas_850()).unwrap_err();
    assert_eq!(err, EdiParseError::MalformedTransactionStart);
}

#[test]
fn short_interchange_start_is_malformed() {
    let err = parse("ISA*00*a~", &schemas_850()).unwrap_err();
    assert_eq!(err, EdiParseError::MalformedSegment);
}

#[test]
fn envelope_headers_are_trimmed() {
    let input = wrap_transaction("BEG*a~").replace("ZZ*sender*", "ZZ*  sender  *");
    let doc = parse(&input, &schemas_850()).unwrap();
    assert_eq!(doc.interchanges[0].sender_id, "sender");
    assert_eq!(doc.interchanges[0].time, "1534");
    assert_eq!(doc.interchanges[0].functional_groups[0].group_control_number, "7");
}

#[test]
fn custom_delimiters() {
    let input = "ISA|00|a|00|a|ZZ|s|14|r|020226|1534|U|00401|77!GS|PO|s|r|d|t|5!ST|850|0001!BEG|a!SE|3|0001!GE|1|5!IEA|1|77!";
    let doc = parse_with_delimiters(input, '!', '|', &schemas_850()).unwrap();
    assert_eq!(doc.interchanges.len(), 1);
    assert_eq!(doc.interchanges[0].interchange_control_number, "77");
    assert_eq!(
        doc.interchanges[0].functional_groups[0].transactions[0].segments[0].segment_abbreviation,
        "BEG"
    );
}

#[test]
fn first_matching_entry_wins() {
    let mut schemas = SchemaTable::new();
    schemas.insert("850".to_string(), "Purchase Order".to_string());
    schemas.insert("850".to_string(), "Shadowed".to_string());
    assert_eq!(schemas.resolve("850"), "Purchase Order");
}

#[test]
fn generic_segment_needs_two_tokens() {
    let err = GenericSegment::parse_from_tokens(&vec!["CTT".to_string()]).unwrap_err();
    assert_eq!(err, EdiParseError::MalformedSegment);
    let seg = GenericSegment::parse_from_tokens(&vec!["CTT".to_string(), " 7 ".to_string()])
        .unwrap();
    assert_eq!(seg.segment_abbreviation, "CTT");
    assert_eq!(seg.elements, vec!["7".to_string()]);
}

#[test]
fn error_descriptions() {
    assert_eq!(EdiParseError::MalformedSegment.describe(), "malformed segment");
    assert_eq!(
        EdiParseError::UnterminatedEnvelope(EnvelopeKind::Transaction).describe(),
        "unterminated transaction"
    );
}

#[test]
fn implementation_convention_reference_kept() {
    let input = wrap_transaction("BEG*a~").replace("ST*850*0001~", "ST*850*0001*CONV~");
    let doc = parse(&input, &schemas_850()).unwrap();
    let txn = &doc.interchanges[0].functional_groups[0].transactions[0];
    assert_eq!(txn.implementation_convention_reference, Some("CONV".to_string()));
    assert_eq!(txn.transaction_set_control_number, "0001");
}
