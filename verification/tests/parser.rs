use bf_parser::ast::{to_source, Bf};
use bf_parser::parser::{parse_bf, ParseError};

#[test]
fn parse_single() {
    assert_eq!(parse_bf(">"), Ok(vec![Bf::NextCell]));
    assert_eq!(parse_bf("<"), Ok(vec![Bf::PrevCell]));
    assert_eq!(parse_bf("+"), Ok(vec![Bf::Incr]));
    assert_eq!(parse_bf("-"), Ok(vec![Bf::Decr]));
    assert_eq!(parse_bf("."), Ok(vec![Bf::Out]));
    assert_eq!(parse_bf(","), Ok(vec![Bf::In]));
}

#[test]
fn parse_empty_loop() {
    assert_eq!(parse_bf("[]"), Ok(vec![Bf::Loop(vec![])]));
}

#[test]
fn parse_simple_loop() {
    assert_eq!(parse_bf("[-]"), Ok(vec![Bf::Loop(vec![Bf::Decr])]));
}

#[test]
fn parse_square_prog() {
    assert_eq!(
        parse_bf(",[>+>+<<-]>[>[>+<<<+>>-]>[<+>-]<<-]<."),
        Ok(vec![
            // Read value
            Bf::In, // cell 0
            // Move value to cells 1 and 2
            Bf::Loop(vec![
                Bf::NextCell,
                Bf::Incr, // cell 1
                Bf::NextCell,
                Bf::Incr, // cell 2
                Bf::PrevCell,
                Bf::PrevCell,
                Bf::Decr, // cell 0
            ]),
            // Multiply cells 1 and 2 with result in cell 0, using cell 3 as tmp
            Bf::NextCell,
            Bf::Loop(vec![
                // Move cell 2 to cells 3 and 0
                Bf::NextCell,
                Bf::Loop(vec![
                    Bf::NextCell,
                    Bf::Incr, // cell 3
                    Bf::PrevCell,
                    Bf::PrevCell,
                    Bf::PrevCell,
                    Bf::Incr, // cell 0
                    Bf::NextCell,
                    Bf::NextCell,
                    Bf::Decr, // cell 2
                ]),
                // Move cell 3 to cell 2
                Bf::NextCell,
                Bf::Loop(vec![
                    Bf::PrevCell,
                    Bf::Incr, // cell 2
                    Bf::NextCell,
                    Bf::Decr, // cell 3
                ]),
                Bf::PrevCell,
                Bf::PrevCell,
                Bf::Decr, // cell 1
            ]),
            Bf::PrevCell,
            Bf::Out, // cell 0
        ])
    );
}

#[test]
fn bad_char() {
    assert!(matches!(parse_bf("a"), Err(..)));
}

#[test]
fn bad_char_in_loop() {
    assert!(matches!(parse_bf("[a]"), Err(..)));
}

#[test]
fn unmatched_loop() {
    assert!(matches!(parse_bf("["), Err(..)));
    assert!(matches!(parse_bf("[[]"), Err(..)));
    assert!(matches!(parse_bf("[]["), Err(..)));
    assert!(matches!(parse_bf("[]]"), Err(..)));
    assert!(matches!(parse_bf("[]][[]"), Err(..)));
}

#[test]
fn empty_program() {
    assert_eq!(parse_bf(""), Ok(vec![]));
}

#[test]
fn invalid_character_kind() {
    assert_eq!(parse_bf("a"), Err(ParseError::InvalidCharacter));
    assert_eq!(parse_bf("[a]"), Err(ParseError::InvalidCharacter));
    // whitespace is invalid, never ignored
    assert_eq!(parse_bf(" "), Err(ParseError::InvalidCharacter));
    assert_eq!(parse_bf("+ +"), Err(ParseError::InvalidCharacter));
    assert_eq!(parse_bf("\n"), Err(ParseError::InvalidCharacter));
}

#[test]
fn unterminated_loop_kind() {
    assert_eq!(parse_bf("["), Err(ParseError::UnterminatedLoop));
    assert_eq!(parse_bf("[[]"), Err(ParseError::UnterminatedLoop));
    assert_eq!(parse_bf("[]["), Err(ParseError::UnterminatedLoop));
    assert_eq!(parse_bf("[+"), Err(ParseError::UnterminatedLoop));
}

#[test]
fn stray_close_kind() {
    assert_eq!(parse_bf("]"), Err(ParseError::InvalidCharacter));
    assert_eq!(parse_bf("]["), Err(ParseError::InvalidCharacter));
    assert_eq!(parse_bf("[]]"), Err(ParseError::InvalidCharacter));
    assert_eq!(parse_bf("[]][[]"), Err(ParseError::InvalidCharacter));
}

#[test]
fn render_simple_loop() {
    let prog = parse_bf("[-]").unwrap();
    assert_eq!(to_source(&prog), "[-]");
}

#[test]
fn render_empty_program() {
    let prog = parse_bf("").unwrap();
    assert_eq!(to_source(&prog), "");
}

#[test]
fn round_trip_square_prog() {
    let text = ",[>+>+<<-]>[>[>+<<<+>>-]>[<+>-]<<-]<.";
    let prog = parse_bf(text).unwrap();
    let rendered = to_source(&prog);
    assert_eq!(rendered, text);
    let again = parse_bf(&rendered).unwrap();
    assert_eq!(prog, again);
}

#[test]
fn round_trip_nested_loops() {
    let text = "[[][[]]]+[-]";
    let prog = parse_bf(text).unwrap();
    let rendered = to_source(&prog);
    assert_eq!(rendered, text);
    let again = parse_bf(&rendered).unwrap();
    assert_eq!(prog, again);
}
