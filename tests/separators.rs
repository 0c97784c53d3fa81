use rusthl7::{Hl7ParseError, Separators};

#[test]
fn ensure_separators_load_correctly() -> Result<(), Hl7ParseError> {
    let expected = Separators::default();
    let actual = Separators::new("MSH|^~\\&|CATH|StJohn|AcmeHIS|StJohn|20061019172719||ACK^O01|MSGID12349876|P|2.3\rMSA|AA|MSGID12349876")?;

    assert_eq!(expected.component, actual.component);
    assert_eq!(expected.escape_char, actual.escape_char);
    assert_eq!(expected.field, actual.field);
    assert_eq!(expected.repeat, actual.repeat);
    assert_eq!(expected.segment, actual.segment);
    assert_eq!(expected.subcomponent, actual.subcomponent);

    Ok(())
}

#[test]
fn ensure_separators_load_from_string() -> Result<(), Hl7ParseError> {
    let expected = Separators::default();
    let actual = str::parse::<Separators>("MSH|^~\\&|CATH|StJohn|AcmeHIS|StJohn|20061019172719||ACK^O01|MSGID12349876|P|2.3\rMSA|AA|MSGID12349876")?;

    assert_eq!(expected.component, actual.component);
    assert_eq!(expected.escape_char, actual.escape_char);
    assert_eq!(expected.field, actual.field);
    assert_eq!(expected.repeat, actual.repeat);
    assert_eq!(expected.segment, actual.segment);
    assert_eq!(expected.subcomponent, actual.subcomponent);

    Ok(())
}

#[test]
fn ensure_missing_msh_causes_error() {
    //note the missing M
    let result = Separators::new("SH|^~\\&|CATH|StJohn|AcmeHIS|StJohn|20061019172719||ACK^O01|MSGID12349876|P|2.3\rMSA|AA|MSGID12349876");
    assert!(result.is_err());
}

#[test]
fn ensure_separators_to_string() {
    assert_eq!("^~\\&", Separators::default().to_string());
}

#[test]
fn separators_from_custom_header() {
    let seps = Separators::new("MSH^!@#$^x").unwrap();
    assert_eq!(seps.field, '^');
    assert_eq!(seps.component, '!');
    assert_eq!(seps.repeat, '@');
    assert_eq!(seps.escape_char, '#');
    assert_eq!(seps.subcomponent, '$');
    assert_eq!(seps.segment, '\r');
    assert_eq!(seps.to_string(), "!@#$");
}

#[test]
fn separators_reject_short_header() {
    match Separators::new("MSH|^~\\") {
        Err(Hl7ParseError::MshHeaderMalformed(_)) => {}
        _ => panic!("a header of seven characters must be refused"),
    }
    assert!(Separators::new("MSH|^~\\&").is_ok());
}

#[test]
fn error_descriptions() {
    assert_eq!(
        Hl7ParseError::Generic("Parse Error".to_string()).to_string(),
        "Unexpected error: Parse Error"
    );
    assert_eq!(
        Hl7ParseError::MissingRequiredValue().to_string(),
        "Required value missing"
    );
    assert_eq!(
        Hl7ParseError::MshHeaderMalformed("x".to_string()).to_string(),
        "Failure parsing MSH1/MSH2 while discovering separator chars: x"
    );
}
