use rusthl7::escape_sequence::Decoded;
use rusthl7::{EscapeSequence, Separators};
use std::str::FromStr;

#[test]
fn mod_test_decode_does_nothing_if_not_required() {
    let delims = Separators::default();
    let escaper = EscapeSequence::new(delims);

    let input = r#"There are no escape sequences here/there/."#;
    let output = escaper.decode(input);
    assert_eq!(output.as_str(), input);
}

#[test]
fn mod_test_decode_does_nothing_if_backslash_is_not_escape_sequence() {
    let delims = Separators::default();
    let escaper = EscapeSequence::new(delims);

    let input = r#"There are no escape sequences here\there."#;
    let output = escaper.decode(input);
    assert_eq!(output.as_str(), input);
}

#[test]
fn mod_test_decode_handles_field_sequence() {
    let delims = Separators::default();
    let escaper = EscapeSequence::new(delims);

    let input = r#"Escape this \F\ please"#;
    let output = escaper.decode(input);
    assert_eq!(output.as_str(), "Escape this | please");
}

#[test]
fn mod_ensure_decode_does_not_eat_chars_it_shouldnt() {
    let delims = Separators::default();
    let escaper = EscapeSequence::new(delims);

    let input = r#"Escape this \F please"#;
    let output = escaper.decode(input);
    assert_eq!(output.as_str(), input);
}

#[test]
fn mod_ensure_decode_handles_custom_delims() {
    let delims = Separators::from_str("MSH^!@#$").unwrap();
    let escaper = EscapeSequence::new(delims);

    let input = r#"Escape this #F# please"#;
    let output = escaper.decode(input);
    assert_eq!(output.as_str(), "Escape this ^ please");
}

#[test]
fn mod_test_decode_handles_repeat_sequence() {
    let delims = Separators::default();
    let escaper = EscapeSequence::new(delims);

    let input = r#"Escape this \R\ please"#;
    let output = escaper.decode(input);
    assert_eq!(output.as_str(), "Escape this ~ please");
}

#[test]
fn mod_test_decode_handles_component_sequence() {
    let delims = Separators::default();
    let escaper = EscapeSequence::new(delims);

    let input = r#"Escape this \S\ please"#;
    let output = escaper.decode(input);
    assert_eq!(output.as_str(), "Escape this ^ please");
}

#[test]
fn mod_ensure_decode_ignores_highlighting_sequence() {
    let delims = Separators::default();
    let escaper = EscapeSequence::new(delims);

    let input = r#"Don't escape this \H\highlighted text\N\ please"#;
    let output = escaper.decode(input);
    assert_eq!(output.as_str(), input);
}

#[test]
fn mod_ensure_decode_handles_eescape_sequence() {
    let delims = Separators::default();
    let escaper = EscapeSequence::new(delims);

    let input = r#"Escape this \E\ please"#;
    let output = escaper.decode(input);
    assert_eq!(output.as_str(), r#"Escape this \ please"#);

    let input = r#"Escape this \E\ pretty \F\ please"#;
    let output = escaper.decode(input);
    assert_eq!(output.as_str(), r#"Escape this \ pretty | please"#);
}

#[test]
fn mod_test_decode_handles_subcomponent_sequence() {
    let delims = Separators::default();
    let escaper = EscapeSequence::new(delims);

    let input = r#"Escape this \T\ please"#;
    let output = escaper.decode(input);
    assert_eq!(output.as_str(), "Escape this & please");
}

#[test]
fn escape_sequence_test_decode_does_nothing_if_not_required() {
    let delims = Separators::default();
    let escaper = EscapeSequence::new(delims);

    let input = r#"There are no escape sequences here/there/."#;
    let output = escaper.decode(input);
    assert_eq!(output.as_str(), input);
}

#[test]
fn escape_sequence_test_decode_does_nothing_if_backslash_is_not_escape_sequence() {
    let delims = Separators::default();
    let escaper = EscapeSequence::new(delims);

    let input = r#"There are no escape sequences here\there."#;
    let output = escaper.decode(input);
    assert_eq!(output.as_str(), input);
}

#[test]
fn escape_sequence_test_decode_handles_field_sequence() {
    let delims = Separators::default();
    let escaper = EscapeSequence::new(delims);

    let input = r#"Escape this \F\ please"#;
    let output = escaper.decode(input);
    assert_eq!(output.as_str(), "Escape this | please");
}

#[test]
fn escape_sequence_ensure_decode_does_not_eat_chars_it_shouldnt() {
    let delims = Separators::default();
    let escaper = EscapeSequence::new(delims);

    let input = r#"Escape this \F please"#;
    let output = escaper.decode(input);
    assert_eq!(output.as_str(), input);
}

#[test]
fn escape_sequence_ensure_decode_handles_custom_delims() {
    let delims = Separators::from_str("MSH^!@#$").unwrap();
    let escaper = EscapeSequence::new(delims);

    let input = r#"Escape this #F# please"#;
    let output = escaper.decode(input);
    assert_eq!(output.as_str(), "Escape this ^ please");
}

#[test]
fn escape_sequence_test_decode_handles_repeat_sequence() {
    let delims = Separators::default();
    let escaper = EscapeSequence::new(delims);

    let input = r#"Escape this \R\ please"#;
    let output = escaper.decode(input);
    assert_eq!(output.as_str(), "Escape this ~ please");
}

#[test]
fn escape_sequence_test_decode_handles_component_sequence() {
    let delims = Separators::default();
    let escaper = EscapeSequence::new(delims);

    let input = r#"Escape this \S\ please"#;
    let output = escaper.decode(input);
    assert_eq!(output.as_str(), "Escape this ^ please");
}

#[test]
fn escape_sequence_ensure_decode_ignores_highlighting_sequence() {
    let delims = Separators::default();
    let escaper = EscapeSequence::new(delims);

    let input = r#"Don't escape this \H\highlighted text\N\ please"#;
    let output = escaper.decode(input);
    assert_eq!(output.as_str(), input);
}

#[test]
fn escape_sequence_ensure_decode_handles_eescape_sequence() {
    let delims = Separators::default();
    let escaper = EscapeSequence::new(delims);

    let input = r#"Escape this \E\ please"#;
    let output = escaper.decode(input);
    assert_eq!(output.as_str(), r#"Escape this \ please"#);

    let input = r#"Escape this \E\ pretty \F\ please"#;
    let output = escaper.decode(input);
    assert_eq!(output.as_str(), r#"Escape this \ pretty | please"#);
}

#[test]
fn escape_sequence_test_decode_handles_subcomponent_sequence() {
    let delims = Separators::default();
    let escaper = EscapeSequence::new(delims);

    let input = r#"Obstetrician \T\ Gynaecologist"#;
    let output = escaper.decode(input);
    assert_eq!(output.as_str(), "Obstetrician & Gynaecologist");
}

#[test]
fn ensure_decode_ignores_custom_sequence() {
    let delims = Separators::default();
    let escaper = EscapeSequence::new(delims);

    let input = r#"Don't escape this custom sequence \Z1234\ please"#;
    let output = escaper.decode(input);
    assert_eq!(output.as_str(), input);
}

#[test]
fn decode_without_escape_borrows_input() {
    let escaper = EscapeSequence::new(Separators::default());
    let input = "plain value";
    match escaper.decode(input) {
        Decoded::Borrowed(s) => assert!(std::ptr::eq(s, input)),
        Decoded::Owned(_) => panic!("nothing to decode, nothing to allocate"),
    }
}

#[test]
fn decode_single_escape_is_unchanged() {
    let escaper = EscapeSequence::new(Separators::default());
    assert_eq!(escaper.decode("abc\\def").as_str(), "abc\\def");
    assert_eq!(escaper.decode("\\").as_str(), "\\");
    assert_eq!(escaper.decode("x\\").as_str(), "x\\");
}

#[test]
fn decode_substitution_law_scenarios() {
    let escaper = EscapeSequence::new(Separators::default());
    assert_eq!(escaper.decode("a\\F\\b").as_str(), "a|b");
    assert_eq!(escaper.decode("a\\T\\b").as_str(), "a&b");
    assert_eq!(escaper.decode("a\\E\\b").as_str(), "a\\b");
    assert_eq!(escaper.decode("a\\R\\b").as_str(), "a~b");
    assert_eq!(escaper.decode("a\\S\\b").as_str(), "a^b");
}

#[test]
fn decode_keeps_highlighting_and_custom() {
    let escaper = EscapeSequence::new(Separators::default());
    assert_eq!(escaper.decode("x\\H\\y\\N\\z").as_str(), "x\\H\\y\\N\\z");
    assert_eq!(escaper.decode("x\\Z1234\\y").as_str(), "x\\Z1234\\y");
}

#[test]
fn decode_unknown_and_local_sequences_verbatim() {
    let escaper = EscapeSequence::new(Separators::default());
    assert_eq!(escaper.decode("a\\XY\\b").as_str(), "a\\XY\\b");
    assert_eq!(escaper.decode("\\FF\\").as_str(), "\\FF\\");
    assert_eq!(escaper.decode("\\C2842\\").as_str(), "\\C2842\\");
    assert_eq!(escaper.decode("\\\\").as_str(), "\\\\");
    assert_eq!(escaper.decode("\\F\\\\S\\").as_str(), "|^");
    assert_eq!(escaper.decode("a\\X\\F\\b").as_str(), "a\\X\\F\\b");
}

#[test]
fn decode_joes_obs_scenario() {
    let msg = rusthl7::Message::parse("MSH|^~\\&|A\rOBX|1|Joes Obs \\T\\ Gynae").unwrap();
    let raw = msg.query("OBX.F2");
    assert_eq!(raw, "Joes Obs \\T\\ Gynae");
    let escaper = EscapeSequence::new(msg.get_separators());
    assert_eq!(escaper.decode(raw).as_str(), "Joes Obs & Gynae");
}

#[test]
fn decode_with_custom_header_delimiters() {
    let msg = rusthl7::Message::parse("MSH^!@#$^A\rZZZ^Escape this #F# please").unwrap();
    let raw = msg.query("ZZZ.F1");
    assert_eq!(raw, "Escape this #F# please");
    let escaper = EscapeSequence::new(msg.get_separators());
    assert_eq!(escaper.decode(raw).as_str(), "Escape this ^ please");
    assert_eq!(escaper.decode("#E##R##S##T#").as_str(), "#@!$");
}
