use matrix_calc::lexer::{lexer, ParseError, Token};
use matrix_calc::parser::{parse_input, parser};

#[test]
fn lexer_splits_three_tokens() {
    let toks = lexer("define A 2x2").unwrap();
    assert_eq!(toks.len(), 3);
    assert_eq!(toks[0], Token::Command("define".to_string()));
    assert_eq!(toks[1], Token::MatrixName("A".to_string()));
    assert_eq!(toks[2], Token::Args("2x2".to_string()));
}

#[test]
fn lexer_empty_line_is_missing_command() {
    assert_eq!(lexer(""), Err(ParseError::MissingCommand));
    assert_eq!(lexer("   \t  "), Err(ParseError::MissingCommand));
}

#[test]
fn lexer_single_segment_is_missing_matrix() {
    assert_eq!(lexer("show"), Err(ParseError::MissingMatrix));
    assert_eq!(lexer("  show  "), Err(ParseError::MissingMatrix));
}

#[test]
fn lexer_rejoins_args_with_single_spaces() {
    let toks = lexer("fill A  [[1,2]   [3,4]] ").unwrap();
    assert_eq!(toks[2], Token::Args("[[1,2] [3,4]]".to_string()));
}

#[test]
fn lexer_no_args_is_empty_text() {
    let toks = lexer("show A").unwrap();
    assert_eq!(toks[2], Token::Args(String::new()));
}

#[test]
fn parser_accepts_single_uppercase_name() {
    let toks = lexer("define A 2x2").unwrap();
    let pc = parser(toks).unwrap();
    assert_eq!(pc.command, "define");
    assert_eq!(pc.matrix_name, "A");
    assert_eq!(pc.args, "2x2");
}

#[test]
fn parser_rejects_bad_name_shapes() {
    for line in ["define a 2x2", "define AB 2x2", "define 1 2x2", "define + 2x2"] {
        assert_eq!(parse_input(line).unwrap_err(), ParseError::InvalidFormat);
    }
}

#[test]
fn parser_too_few_tokens_is_invalid_format() {
    assert_eq!(parser(Vec::new()).unwrap_err(), ParseError::InvalidFormat);
    let one = vec![Token::Command("show".to_string())];
    assert_eq!(parser(one).unwrap_err(), ParseError::InvalidFormat);
}

#[test]
fn well_formed_lines_yield_single_uppercase_names() {
    // Lexing then parsing any line of two or more segments either yields a
    // one-letter uppercase name or fails with InvalidFormat.
    for line in ["show Z", "def B 3x3", "add A B", "frobnicate Q xs ys"] {
        let pc = parse_input(line).unwrap();
        assert_eq!(pc.matrix_name.len(), 1);
        assert!(pc.matrix_name.chars().all(|c| c.is_ascii_uppercase()));
    }
    assert_eq!(parse_input("show bb").unwrap_err(), ParseError::InvalidFormat);
}

#[test]
fn parse_input_propagates_lexer_errors() {
    assert_eq!(parse_input("").unwrap_err(), ParseError::MissingCommand);
    assert_eq!(parse_input("echo").unwrap_err(), ParseError::MissingMatrix);
}
