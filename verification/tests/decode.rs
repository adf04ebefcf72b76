use gcode_trace::instruction::{DecodeError, Instruction};
use gcode_trace::line::Line;
use gcode_trace::numbers::parse_u32;
use gcode_trace::program::{parse_string, strip_comment};
use gcode_trace::tokenize::{pairwise, tokenize};

#[test]
fn tokenize_is_lossless() {
    let input = "N10 G01 X1.000 Y2.000";
    let toks = tokenize(input);
    let rebuilt: String = toks.concat();
    assert_eq!(rebuilt, input);
}

#[test]
fn tokenize_segments_alternate() {
    let toks = tokenize("N10 G01");
    assert_eq!(toks, vec!["", "N", "10 ", "G", "01"]);
}

#[test]
fn tokenize_empty_line() {
    assert_eq!(tokenize(""), vec![""]);
}

#[test]
fn tokenize_groups_letter_runs() {
    let toks = tokenize("1AB2");
    assert_eq!(toks, vec!["1", "AB", "2"]);
}

#[test]
fn pairwise_groups_in_order() {
    let toks = vec![
        "N".to_string(),
        "10 ".to_string(),
        "G".to_string(),
        "01".to_string(),
    ];
    let pairs = pairwise(&toks);
    assert_eq!(
        pairs,
        vec![
            ("N".to_string(), "10 ".to_string()),
            ("G".to_string(), "01".to_string())
        ]
    );
}

#[test]
fn parse_u32_tolerates_whitespace() {
    assert_eq!(parse_u32("10 "), Some(10));
    assert_eq!(parse_u32(" 7"), Some(7));
    assert_eq!(parse_u32("+42"), Some(42));
    assert_eq!(parse_u32("0"), Some(0));
}

#[test]
fn parse_u32_rejects_malformed() {
    assert_eq!(parse_u32(""), None);
    assert_eq!(parse_u32("+"), None);
    assert_eq!(parse_u32("1 0"), None);
    assert_eq!(parse_u32("-3"), None);
    assert_eq!(parse_u32("12a"), None);
}

#[test]
fn parse_u32_bounds() {
    assert_eq!(parse_u32("4294967295"), Some(u32::MAX));
    assert_eq!(parse_u32("4294967296"), None);
    assert_eq!(parse_u32("99999999999999999999"), None);
}

#[test]
fn decode_integer_codes() {
    assert_eq!(
        Instruction::from_pair("G", "01"),
        Ok(Some(Instruction::G(1)))
    );
    assert_eq!(Instruction::from_pair("T", "3"), Ok(Some(Instruction::T(3))));
    assert_eq!(Instruction::from_pair("M", "30"), Ok(Some(Instruction::M(30))));
    assert_eq!(
        Instruction::from_pair("S", "1200"),
        Ok(Some(Instruction::S(1200)))
    );
}

#[test]
fn decode_float_codes_keep_value_text() {
    assert_eq!(
        Instruction::from_pair("X", "1.000 "),
        Ok(Some(Instruction::X("1.000".to_string())))
    );
    assert_eq!(
        Instruction::from_pair("F", "-2.5"),
        Ok(Some(Instruction::F("-2.5".to_string())))
    );
    assert_eq!(
        Instruction::from_pair("K", ".5"),
        Ok(Some(Instruction::K(".5".to_string())))
    );
    assert_eq!(
        Instruction::from_pair("I", "1e3"),
        Ok(Some(Instruction::I("1e3".to_string())))
    );
    assert_eq!(
        Instruction::from_pair("J", "2."),
        Ok(Some(Instruction::J("2.".to_string())))
    );
}

#[test]
fn decode_r_aliases_to_f() {
    assert_eq!(
        Instruction::from_pair("R", "4.0"),
        Ok(Some(Instruction::F("4.0".to_string())))
    );
}

#[test]
fn decode_unrecognized_code_is_skipped() {
    assert_eq!(Instruction::from_pair("Q", "5"), Ok(None));
    assert_eq!(Instruction::from_pair("AB", "5"), Ok(None));
}

#[test]
fn decode_malformed_value_is_fatal() {
    assert_eq!(
        Instruction::from_pair("G", "x"),
        Err(DecodeError::MalformedValue)
    );
    assert_eq!(
        Instruction::from_pair("X", ""),
        Err(DecodeError::MalformedValue)
    );
    assert_eq!(
        Instruction::from_pair("X", "1 0"),
        Err(DecodeError::MalformedValue)
    );
    assert_eq!(
        Instruction::from_pair("X", "1e"),
        Err(DecodeError::MalformedValue)
    );
}

#[test]
fn decoded_float_payload_recovers_value() {
    // Decoding then re-reading the numeric payload recovers the value.
    match Instruction::from_pair("X", " 1.000 ") {
        Ok(Some(Instruction::X(v))) => {
            let back: f32 = v.parse().unwrap();
            assert!((back - 1.0).abs() < 1e-6);
        }
        other => panic!("unexpected decode result: {:?}", other),
    }
}

#[test]
fn line_example_with_number() {
    // "N10 G01 X1.000 Y2.000" decodes to number 10 and [G(1), X(1.0), Y(2.0)].
    let line = Line::from_str("N10 G01 X1.000 Y2.000").unwrap();
    assert_eq!(line.number, Some(10));
    assert_eq!(
        line.instructions,
        vec![
            Instruction::G(1),
            Instruction::X("1.000".to_string()),
            Instruction::Y("2.000".to_string())
        ]
    );
    let x: f32 = match &line.instructions[1] {
        Instruction::X(v) => v.parse().unwrap(),
        _ => unreachable!(),
    };
    assert!((x - 1.0).abs() < 1e-6);
}

#[test]
fn line_repeated_axis_keeps_both() {
    let line = Line::from_str("X5.0 X7.0").unwrap();
    assert_eq!(
        line.instructions,
        vec![
            Instruction::X("5.0".to_string()),
            Instruction::X("7.0".to_string())
        ]
    );
}

#[test]
fn line_unrecognized_code_does_not_stop_the_line() {
    let line = Line::from_str("G1 Q5 X2.0").unwrap();
    assert_eq!(
        line.instructions,
        vec![Instruction::G(1), Instruction::X("2.0".to_string())]
    );
    assert_eq!(line.number, None);
}

#[test]
fn line_repeated_number_last_wins() {
    let line = Line::from_str("N1 N2 G3").unwrap();
    assert_eq!(line.number, Some(2));
}

#[test]
fn line_bare_code_is_malformed() {
    // "X" leaves the code with an empty value text.
    let err = Line::from_str("X").unwrap_err();
    assert!(
        err == DecodeError::MalformedValue || err == DecodeError::MalformedTokenStream
    );
}

#[test]
fn line_not_starting_with_code_is_malformed() {
    assert_eq!(
        Line::from_str("1X2"),
        Err(DecodeError::MalformedTokenStream)
    );
    assert_eq!(
        Line::from_str(" X1.0"),
        Err(DecodeError::MalformedTokenStream)
    );
}

#[test]
fn strip_comment_takes_prefix() {
    assert_eq!(strip_comment("G1 X2.0 (move)"), "G1 X2.0 ");
    assert_eq!(strip_comment("(all comment)"), "");
    assert_eq!(strip_comment("G1"), "G1");
}

#[test]
fn strip_comment_is_idempotent() {
    let once = strip_comment("G1 (a (nested) comment)");
    let twice = strip_comment(once.as_str());
    assert_eq!(once, twice);
}

#[test]
fn parse_string_skips_empty_and_comment_lines() {
    let program = parse_string("G1 (rapid)\n(comment only)\n\nG2\n").unwrap();
    assert_eq!(program.lines.len(), 2);
    assert_eq!(program.lines[0].instructions, vec![Instruction::G(1)]);
    assert_eq!(program.lines[1].instructions, vec![Instruction::G(2)]);
}

#[test]
fn parse_string_handles_crlf() {
    let program = parse_string("G1\r\nG2\r\n").unwrap();
    assert_eq!(program.lines.len(), 2);
    assert_eq!(program.lines[1].instructions, vec![Instruction::G(2)]);
}

#[test]
fn parse_string_reports_the_offending_line() {
    let err = parse_string("G1\nX1.2.3\nG2").unwrap_err();
    assert_eq!(err.line, "X1.2.3");
    assert_eq!(err.kind, DecodeError::MalformedValue);
}

#[test]
fn parse_string_empty_source() {
    let program = parse_string("").unwrap();
    assert_eq!(program.lines.len(), 0);
}

#[test]
fn rendered_integer_parses_back() {
    for n in [0u32, 1, 9, 10, 12345, u32::MAX] {
        assert_eq!(parse_u32(&n.to_string()), Some(n));
    }
}
