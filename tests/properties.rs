use rusthl7::{EscapeSequence, Field, Hl7ParseError, Message, Separators};

const SAMPLE: &str = "MSH|^~\\&|GHH LAB|ELAB-3|GHH OE|BLDG4|200202150930||ORU^R01|CNTRL-3456|P|2.4\rPID|||555-44-4444||EVERYWOMAN^EVE^E^^^^L|JONES|19620320|F|||153 FERNWOOD DR.^^STATESVILLE^OH^35292||(206)3345232|(206)752-121||||AC555444444||67-A4335^OH^20030520\rOBR|1|845439^GHH OE|1045813^GHH LAB|15545^GLUCOSE|||200202150730|||||||||555-55-5555^PRIMARY^PATRICIA P^^^^MD^^|||||||||F||||||444-44-4444^HIPPOCRATES^HOWARD H^^^^MD\rOBX|1|SN|1554-5^GLUCOSE^POST 12H CFST:MCNC:PT:SER/PLAS:QN||^182|mg/dl|70_105|H|||F\r";

#[test]
fn header_only_message_scenario() {
    let m = Message::parse(
        "MSH|^~\\&|GHH LAB|ELAB-3|GHH OE|BLDG4|200202150930||ORU^R01|CNTRL-3456|P|2.4",
    )
    .unwrap();
    assert_eq!(m.query("MSH.F3"), "GHH LAB");
    assert_eq!(m.query("MSH.F9"), "ORU^R01");
    assert_eq!(m.query("MSH.F9.C2"), "R01");
    assert_eq!(m.query("MSH.F12"), "2.4");
    assert_eq!(m.get_separators(), Separators::default());
}

#[test]
fn patient_segment_scenario() {
    let m = Message::parse(SAMPLE).unwrap();
    assert_eq!(m.query("PID.F3"), "555-44-4444");
    assert_eq!(m.query("PID.F11.C5"), "35292");
    assert_eq!(m.query("PID.F11.C2"), "");
    assert_eq!(m.query("PID.F5.C2"), "EVE");
    assert_eq!(m.query("OBR.F16.C3"), "PATRICIA P");
    assert_eq!(m.segments.len(), 5);
}

#[test]
fn missing_paths_scenario() {
    let m = Message::parse(SAMPLE).unwrap();
    assert_eq!(m.query("NOPE.F1"), "");
    assert_eq!(m.query("PID.F99"), "");
    assert_eq!(m.query(""), "");
    assert_eq!(m.query("PID.Fx"), "");
    assert_eq!(m.query("PID.F3.R2"), "");
}

#[test]
fn missing_msh_scenario() {
    match Message::parse("SH|^~\\&|GHH LAB|ELAB-3") {
        Err(Hl7ParseError::MshHeaderMalformed(_)) => {}
        _ => panic!("a message must start with MSH"),
    }
}

#[test]
fn header_special_case_default_separators() {
    let m = Message::parse(SAMPLE).unwrap();
    assert_eq!(m.query("MSH.F1"), "|");
    assert_eq!(m.query("MSH.F2"), "^~\\&");
    assert_eq!(m.query("MSH.F2.R2"), "\\&");
}

#[test]
fn header_special_case_custom_separators() {
    let m = Message::parse("MSH^!@#$^A^B").unwrap();
    assert_eq!(m.query("MSH.F1"), "^");
    assert_eq!(m.query("MSH.F2"), "!@#$");
    assert_eq!(m.query("MSH.F3"), "A");
    assert_eq!(m.query("MSH.F4"), "B");
}

#[test]
fn delimiter_round_trip_concrete() {
    let m = Message::parse("MSH*abcd*x").unwrap();
    let s = m.get_separators();
    assert_eq!(
        (s.field, s.component, s.repeat, s.escape_char, s.subcomponent, s.segment),
        ('*', 'a', 'b', 'c', 'd', '\r')
    );
}

#[test]
fn field_concatenation_concrete() {
    let m = Message::parse(SAMPLE).unwrap();
    let seps = m.get_separators();
    for seg in &m.segments {
        let fields: Vec<&str> = seg.fields.iter().map(|f| f.as_str()).collect();
        assert_eq!(fields.join("|"), seg.as_str());
        for f in &seg.fields {
            assert_eq!(f.components.join("^"), f.source);
            for (c, subs) in f.components.iter().zip(f.subcomponents.iter()) {
                assert_eq!(&subs.join("&"), c);
            }
        }
    }
    let joined: Vec<&str> = m.segments.iter().map(|s| s.as_str()).collect();
    assert_eq!(joined.join(&seps.segment.to_string()), SAMPLE);
}

#[test]
fn empty_preservation_concrete() {
    let d = Separators::default();
    let f = Field::parse("a^^b", &d).unwrap();
    assert_eq!(f.components, vec!["a", "", "b"]);
    let g = Field::parse("a&&b", &d).unwrap();
    assert_eq!(g.subcomponents, vec![vec!["a", "", "b"]]);
}

#[test]
fn default_repeat_and_component_concrete() {
    let m = Message::parse(SAMPLE).unwrap();
    assert_eq!(m.query("PID.F3"), m.query("PID.F3.R1"));
    assert_eq!(m.query("PID.F3.R1"), m.query("PID.F3.R1.C1"));
    assert_eq!(m.query("OBX.F3.R1"), "1554-5^GLUCOSE^POST 12H CFST:MCNC:PT:SER/PLAS:QN");
    assert_eq!(m.query("OBX.F3.C1"), "1554-5");
    assert_eq!(m.query("OBX.F3.R1.C1"), "1554-5");
}

#[test]
fn decoder_scenarios() {
    let m = Message::parse("MSH|^~\\&|A\rNTE|Joes Obs \\T\\ Gynae").unwrap();
    let raw = m.query("NTE.F1");
    assert_eq!(raw, "Joes Obs \\T\\ Gynae");
    let decoder = EscapeSequence::new(m.get_separators());
    assert_eq!(decoder.decode(raw).as_str(), "Joes Obs & Gynae");

    let custom = EscapeSequence::new(Separators::new("MSH^!@#$").unwrap());
    assert_eq!(
        custom.decode("Escape this #F# please").as_str(),
        "Escape this ^ please"
    );
}
