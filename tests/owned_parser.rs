use rusthl7::owned_parser::field_parser::FieldParser;
use rusthl7::owned_parser::message_parser::MessageParser;
use rusthl7::owned_parser::segment_parser::SegmentParser;
use rusthl7::owned_parser::{Field, Message, Repeat, Segment};
use rusthl7::Separators;

#[test]
fn test_component_splitting() {
    let mut result = FieldParser::get_components("test", &Separators::default());
    assert_eq!(["test"], result.as_slice());

    result = FieldParser::get_components("test value", &Separators::default());
    assert_eq!(["test value"], result.as_slice());

    result = FieldParser::get_components("test^value", &Separators::default());
    assert_eq!(["test", "value"], result.as_slice());

    result = FieldParser::get_components("test^^value", &Separators::default());
    assert_eq!(["test", "", "value"], result.as_slice());

    result = FieldParser::get_components("test^^value^", &Separators::default());
    assert_eq!(["test", "", "value", ""], result.as_slice());

    result =
        FieldParser::get_components("PO BOX 23523^WELLINGTON^ON^98111", &Separators::default());
    assert_eq!(
        ["PO BOX 23523", "WELLINGTON", "ON", "98111"],
        result.as_slice()
    );

    result = FieldParser::get_components("", &Separators::default());
    assert_eq!([] as [&str; 0], result.as_slice());
}

#[test]
fn test_repeat_splitting() {
    let mut result = FieldParser::get_repeats("test", &Separators::default());
    assert_eq!(["test"], result.as_slice());

    result = FieldParser::get_repeats("test value", &Separators::default());
    assert_eq!(["test value"], result.as_slice());

    result = FieldParser::get_repeats("test~value", &Separators::default());
    assert_eq!(["test", "value"], result.as_slice());

    result = FieldParser::get_repeats("test^value~another^^value^", &Separators::default());
    assert_eq!(["test^value", "another^^value^"], result.as_slice());

    result = FieldParser::get_repeats("", &Separators::default());
    assert_eq!([] as [&str; 0], result.as_slice());
}

#[test]
fn build_simple_field() {
    let input = "Test Value";
    let expected = Field {
        repeats: vec![Repeat {
            components: vec!["Test Value".to_string()],
        }],
    };

    let actual = FieldParser::parse_field(input, &Separators::default());
    assert_eq!(expected, actual);
}

#[test]
fn build_simple_field_with_repeats() {
    let input = "Test Value~another Value";
    let expected = Field {
        repeats: vec![
            Repeat {
                components: vec!["Test Value".to_string()],
            },
            Repeat {
                components: vec!["another Value".to_string()],
            },
        ],
    };

    let actual = FieldParser::parse_field(input, &Separators::default());
    assert_eq!(expected, actual);
}

#[test]
fn build_actual_field_with_repeats_and_subcomponents() {
    let input = "260 GOODWIN CREST DRIVE^^BIRMINGHAM^AL^35 209^^M~NICKELL’S PICKLES^10000 W 100TH AVE^BIRMINGHAM^AL^35200^^O";
    let expected = Field {
        repeats: vec![
            Repeat {
                components: vec![
                    "260 GOODWIN CREST DRIVE".to_string(),
                    "".to_string(),
                    "BIRMINGHAM".to_string(),
                    "AL".to_string(),
                    "35 209".to_string(),
                    "".to_string(),
                    "M".to_string(),
                ],
            },
            Repeat {
                components: vec![
                    "NICKELL’S PICKLES".to_string(),
                    "10000 W 100TH AVE".to_string(),
                    "BIRMINGHAM".to_string(),
                    "AL".to_string(),
                    "35200".to_string(),
                    "".to_string(),
                    "O".to_string(),
                ],
            },
        ],
    };

    let actual = FieldParser::parse_field(input, &Separators::default());
    assert_eq!(expected, actual);
}

fn simple(value: &str) -> Field {
    Field {
        repeats: vec![Repeat {
            components: vec![value.to_string()],
        }],
    }
}

#[test]
fn test_basic_field_construction() {
    let input = "Test|Value";
    let expected = Segment {
        fields: vec![simple("Test"), simple("Value")],
    };

    let actual = SegmentParser::parse_segment(input, &Separators::default());
    assert_eq!(expected, actual);
}

#[test]
fn test_real_field_construction() {
    let input = "OBR|1|20061019172719||76770^Ultrasound: retroperitoneal^C4|||12349876";
    let expected = Segment {
        fields: vec![
            simple("OBR"),
            simple("1"),
            simple("20061019172719"),
            Field { repeats: vec![] },
            Field {
                repeats: vec![Repeat {
                    components: vec![
                        "76770".to_string(),
                        "Ultrasound: retroperitoneal".to_string(),
                        "C4".to_string(),
                    ],
                }],
            },
            Field { repeats: vec![] },
            Field { repeats: vec![] },
            simple("12349876"),
        ],
    };

    let actual = SegmentParser::parse_segment(input, &Separators::default());
    assert_eq!(expected, actual);
}

#[test]
fn segment_parser_trims_whitespace() {
    let actual = SegmentParser::parse_segment("  PID|x \n", &Separators::default());
    assert_eq!(
        actual,
        Segment {
            fields: vec![simple("PID"), simple("x")],
        }
    );
}

fn expected_message(input: &str) -> Message {
    Message {
        input: input.to_string(),
        segments: vec![
            Segment {
                fields: vec![
                    simple("MSH"),
                    Field {
                        repeats: vec![
                            Repeat {
                                components: vec!["".to_string(), "".to_string()],
                            },
                            Repeat {
                                components: vec!["\\&".to_string()],
                            },
                        ],
                    },
                    simple("fields"),
                ],
            },
            Segment {
                fields: vec![simple("another"), simple("segment")],
            },
        ],
    }
}

#[test]
fn message_parser_test_basic_message() {
    let result = MessageParser::parse_message("MSH|^~\\&|fields\ranother|segment".to_string());
    let expected = expected_message("MSH|^~\\&|fields\ranother|segment");
    assert_eq!(expected, result);
}

#[test]
fn message_parser_test_message_with_final_delimiter() {
    let result = MessageParser::parse_message("MSH|^~\\&|fields\ranother|segment\r".to_string()); //note the trailing \r
    let expected = expected_message("MSH|^~\\&|fields\ranother|segment\r");
    assert_eq!(expected, result);
}

#[test]
fn message_parser_test_message_with_message_delimiter_included() {
    let result = MessageParser::parse_message("MSH|^~\\&|fields\ranother|segment\r\r".to_string()); //note the trailing \r\r
    let expected = expected_message("MSH|^~\\&|fields\ranother|segment\r\r");
    assert_eq!(expected, result);
}
