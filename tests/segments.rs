use rusthl7::typed::msh::MshSegment;
use rusthl7::typed::Segment as TypedSegment;
use rusthl7::{Hl7ParseError, Message, Segment, Separators};

#[test]
fn segments_ensure_numeric_index() {
    let hl7 = "MSH|^~\\&|GHH LAB|ELAB-3|GHH OE|BLDG4|200202150930||ORU^R01|CNTRL-3456|P|2.4\rOBR|segment^sub&segment";
    let msg = Message::parse(hl7).unwrap();
    let x = &msg.segments[1];
    let (f, c, s) = (x.field(1), x.repeat(1, 0), x.component(1, 0, 1));
    assert_eq!(f, "segment^sub&segment");
    assert_eq!(c, f);
    assert_eq!(s, "sub&segment");
}

#[test]
fn ensure_string_query() {
    let hl7 = "MSH|^~\\&|GHH LAB|ELAB-3|GHH OE|BLDG4|200202150930||ORU^R01|CNTRL-3456|P|2.4\rOBR|segment^sub&segment";
    let msg = Message::parse(hl7).unwrap();
    let x = &msg.segments[1];
    let (f, c, s, oob) = (
        x.query("F1"),
        x.query("F1.R1"),
        x.query(&*String::from("F1.R1.C1")),
        String::from(x.query("F10")) + x.query("F1.R10") + x.query("F1.R2.C10"),
    );
    assert_eq!(f, "segment^sub&segment");
    assert_eq!(c, f);
    assert_eq!(s, "segment");
    assert_eq!(oob, "");
}

#[test]
fn segments_ensure_string_index() {
    let hl7 = "MSH|^~\\&|GHH LAB|ELAB-3|GHH OE|BLDG4|200202150930||ORU^R01|CNTRL-3456|P|2.4\rOBR|segment^sub&segment";
    let msg = Message::parse(hl7).unwrap();
    let x = &msg.segments[1];
    let (f, c, s, oob) = (
        x.query("F1"),
        x.query("F1.R1"),
        x.query("F1.R1.C1".to_owned().as_str()),
        x.query("F1.R2.C2"),
    );
    assert_eq!(f, "segment^sub&segment");
    assert_eq!(c, "segment^sub&segment");
    assert_eq!(s, "segment");
    assert_eq!(oob, "");
}

#[test]
fn generic_ensure_numeric_index() {
    let hl7 = "MSH|^~\\&|GHH LAB|ELAB-3|GHH OE|BLDG4|200202150930||ORU^R01|CNTRL-3456|P|2.4\rOBR|segment^sub&segment";
    let msg = Message::parse(hl7).unwrap();
    let typed = TypedSegment::parse(msg.segments[1].as_str(), &msg.get_separators()).unwrap();
    let (f, c, s) = match &typed {
        TypedSegment::Generic(x) => (x.field(1), x.component(1, 1), x.subcomponent(1, 1, 0)),
        _ => ("", "", ""),
    };
    assert_eq!(f, "segment^sub&segment");
    assert_eq!(c, "sub&segment");
    assert_eq!(s, "sub");
}

#[test]
fn ensure_fields_are_added() -> Result<(), Hl7ParseError> {
    let hl7 = "SEG|field 1|field 2|field 3";
    let delims = Separators::default();

    if let TypedSegment::Generic(seg) = TypedSegment::parse(hl7, &delims)? {
        assert_eq!(seg.fields.len(), 4);
    } else {
        assert!(false);
    }
    Ok(())
}

#[test]
fn ensure_msh_is_returned() -> Result<(), Hl7ParseError> {
    let hl7 = "MSH|^~\\&|GHH LAB|ELAB-3|GHH OE|BLDG4|200202150930||ORU^R01|CNTRL-3456|P|2.4";
    let delims = Separators::default();

    if let TypedSegment::MSH(_) = TypedSegment::parse(hl7, &delims)? {
        //all good, fall through to ok
    } else {
        assert!(false);
    }
    Ok(())
}

#[test]
fn ensure_msh_fields_are_populated() -> Result<(), Hl7ParseError> {
    let hl7 = "MSH|^~\\&|GHH LAB|ELAB-3|GHH OE|BLDG4|200202150930||ORU^R01|CNTRL-3456|P|2.4";
    let delims = Separators::default();

    let msh = MshSegment::parse(hl7, &delims)?;

    assert_eq!(msh.msh_1_field_separator, '|');

    let msh3 = msh
        .msh_3_sending_application
        .ok_or(Hl7ParseError::Generic("Parse Error".to_string()))?;
    assert_eq!(msh3.value(), "GHH LAB");

    let msh4 = msh
        .msh_4_sending_facility
        .ok_or(Hl7ParseError::Generic("Parse Error".to_string()))?;
    assert_eq!(msh4.value(), "ELAB-3");

    let msh5 = msh
        .msh_5_receiving_application
        .ok_or(Hl7ParseError::Generic("Parse Error".to_string()))?;
    assert_eq!(msh5.value(), "GHH OE");

    let msh6 = msh
        .msh_6_receiving_facility
        .ok_or(Hl7ParseError::Generic("Parse Error".to_string()))?;
    assert_eq!(msh6.value(), "BLDG4");

    assert_eq!(msh.msh_8_security, None); //blank field check
    assert_eq!(msh.msh_12_version_id.value(), "2.4"); //we got to the end ok
    Ok(())
}

#[test]
fn ensure_msh_converts_to_generic() -> Result<(), Hl7ParseError> {
    let hl7 = "MSH|^~\\&|GHH LAB|ELAB-3|GHH OE|BLDG4|200202150930||ORU^R01|CNTRL-3456|P|2.4";
    let delims = Separators::default();

    let msh = MshSegment::parse(hl7, &delims)?;
    let gen = msh.as_generic().unwrap();
    assert_eq!("ELAB-3", gen.query("F3"));
    Ok(())
}

#[test]
fn ensure_msh_clones_correctly() -> Result<(), Hl7ParseError> {
    let hl7 = "MSH|^~\\&|GHH LAB|ELAB-3|GHH OE|BLDG4|200202150930||ORU^R01|CNTRL-3456|P|2.4";
    let delims = Separators::default();

    let msh = MshSegment::parse(hl7, &delims)?;
    let dolly = msh.clone();
    assert_eq!(msh, dolly);
    Ok(())
}

#[test]
fn msh_missing_mandatory_field() {
    let delims = Separators::default();
    match MshSegment::parse("MSH|^~\\&|A|B|C|D|20200101", &delims) {
        Err(Hl7ParseError::MissingRequiredValue()) => {}
        _ => panic!("field 9 is mandatory"),
    }
    match MshSegment::parse("PID|^~\\&|A", &delims) {
        Err(Hl7ParseError::MshHeaderMalformed(_)) => {}
        _ => panic!("a header starts with MSH"),
    }
    match TypedSegment::parse("MSH|^~\\&|A", &delims) {
        Err(Hl7ParseError::MissingRequiredValue()) => {}
        _ => panic!("field 7 is mandatory"),
    }
}

#[test]
fn msh_optional_fields_past_the_end() {
    let delims = Separators::default();
    let msh = MshSegment::parse("MSH|^~\\&||||||||||", &delims).unwrap();
    assert_eq!(msh.msh_3_sending_application, None);
    assert_eq!(msh.msh_7_date_time_of_message.value(), "");
    assert_eq!(msh.msh_13_sequence_number, None);
    assert_eq!(msh.msh_19_principal_language_of_message, None);
    assert_eq!(msh.msh_2_encoding_characters, delims);
    assert_eq!(msh.as_str(), "MSH|^~\\&||||||||||");
}

#[test]
fn segment_identifier_and_header_fields() {
    let delims = Separators::default();
    let seg = Segment::parse("MSH|^~\\&|GHH LAB|ELAB-3", &delims).unwrap();
    assert_eq!(seg.identifier(), "MSH");
    assert_eq!(seg.query("F1"), "|");
    assert_eq!(seg.query("F2"), "^~\\&");
    assert_eq!(seg.query("F3"), "GHH LAB");
    assert_eq!(seg.query("F4"), "ELAB-3");
    assert_eq!(seg.query("F5"), "");
    assert_eq!(seg.field_by_number(3), "GHH LAB");
    assert_eq!(seg.to_string(), "MSH|^~\\&|GHH LAB|ELAB-3");
    let obr = Segment::parse("OBR|field1|field2", &delims).unwrap();
    assert_eq!(obr.identifier(), "OBR");
    assert_eq!(obr.query("F2"), "field2");
    assert_eq!(obr.field_by_number(0), "");
    assert_eq!(obr.field(0), "OBR");
}
