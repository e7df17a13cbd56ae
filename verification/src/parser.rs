//! Syntactic and semantic validation of the token sequence into a command
//! record.
//!
//! The record's invariant: its matrix name is exactly one uppercase ASCII
//! letter. Any other name shape, and any unexpected token shape, is an
//! `InvalidFormat` failure.

use vstd::prelude::*;
use crate::lexer::{args_text, lexer, segments_of, ParseError, Token};
use vstd::string::StrSliceExecFns;

verus! {

/// The validated, structured representation of one user instruction.
#[derive(Debug)]
pub struct ParsedCommand {
    pub command: String,
    pub matrix_name: String,
    pub args: String,
}

/// A valid matrix name: exactly one uppercase ASCII letter.
pub open spec fn valid_name(n: Seq<char>) -> bool {
    n.len() == 1 && 65 <= n[0] as int <= 90
}

/// The argument text the parser extracts from a token sequence: the payload
/// of a third `Args` token, or empty text.
pub open spec fn args_of_tokens(toks: Seq<Token>) -> Seq<char> {
    if toks.len() > 2 && toks[2] is Args {
        toks[2]->Args_0@
    } else {
        Seq::empty()
    }
}

/// Checks that a string is exactly one uppercase ASCII letter.
pub(crate) fn check_name(n: &str) -> (r: bool)
    ensures
        r == valid_name(n@),
{
    if n.unicode_len() != 1 {
        return false;
    }
    let c = n.get_char(0);
    let u = c as u32;
    65 <= u && u <= 90
}

/// Validates a token sequence into a command record, enforcing the
/// matrix-name shape rule.
pub fn parser(tokens: Vec<Token>) -> (r: Result<ParsedCommand, ParseError>)
    ensures
        r is Ok <==> tokens@.len() >= 2 && tokens@[0] is Command && (tokens@[1] matches
            Token::MatrixName(m) && valid_name(m@)),
        r matches Ok(pc) ==> {
            &&& tokens@[0] matches Token::Command(c) && pc.command@ == c@
            &&& tokens@[1] matches Token::MatrixName(m) && pc.matrix_name@ == m@
            &&& valid_name(pc.matrix_name@)
            &&& pc.args@ == args_of_tokens(tokens@)
        },
        r is Err ==> r == Err::<ParsedCommand, ParseError>(ParseError::InvalidFormat),
{
    if tokens.len() < 2 {
        return Err(ParseError::InvalidFormat);
    }
    let command = match &tokens[0] {
        Token::Command(cmd) => cmd.clone(),
        _ => {
            return Err(ParseError::InvalidFormat);
        },
    };
    let matrix_name = match &tokens[1] {
        Token::MatrixName(name) => {
            if check_name(name.as_str()) {
                name.clone()
            } else {
                return Err(ParseError::InvalidFormat);
            }
        },
        _ => {
            return Err(ParseError::InvalidFormat);
        },
    };
    let args = if tokens.len() > 2 {
        match &tokens[2] {
            Token::Args(arg) => arg.clone(),
            _ => String::new(),
        }
    } else {
        String::new()
    };
    Ok(ParsedCommand { command, matrix_name, args })
}

/// Lexes and parses one raw line: the convenience entry point, propagating
/// either stage's failure unchanged.
pub fn parse_input(input: &str) -> (r: Result<ParsedCommand, ParseError>)
    ensures
        r is Ok <==> segments_of(input@).len() >= 2 && valid_name(segments_of(input@)[1]),
        r matches Ok(pc) ==> {
            &&& pc.command@ == segments_of(input@)[0]
            &&& pc.matrix_name@ == segments_of(input@)[1]
            &&& valid_name(pc.matrix_name@)
            &&& pc.args@ == args_text(segments_of(input@))
        },
        r == Err::<ParsedCommand, ParseError>(ParseError::MissingCommand) <==> segments_of(
            input@,
        ).len() == 0,
        r == Err::<ParsedCommand, ParseError>(ParseError::MissingMatrix) <==> segments_of(
            input@,
        ).len() == 1,
        r == Err::<ParsedCommand, ParseError>(ParseError::InvalidFormat) <==> segments_of(
            input@,
        ).len() >= 2 && !valid_name(segments_of(input@)[1]),
{
    let tokens = match lexer(input) {
        Ok(toks) => toks,
        Err(e) => {
            return Err(e);
        },
    };
    parser(tokens)
}

} // verus!
