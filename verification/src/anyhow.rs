use vstd::prelude::*;

use crate::error::{Error, ErrorCode};
use crate::parser::Parser;

verus! {

/// The adaptation shim for callers that do not want to pattern-match on a
/// parser's structured outcome: the remaining input is dropped, a success
/// keeps only the output value, and a failure is reported as a terminal
/// [`Error`], whose `message` renders it readable.
pub trait ParseAnyhow: Parser {
    /// Run the parser on `input` and keep only the output value.
    fn parse_anyhow(&self, input: &[u8]) -> (r: Result<Vec<u8>, Error>)
        ensures
            r is Ok <==> self.ok(input@),
            r matches Ok(v) ==> v@ == self.output(input@),
            r matches Err(e) ==> e == (Error { pos: 0usize, code: ErrorCode::ItemFailed }),
    ;
}

impl<P: Parser> ParseAnyhow for P {
    fn parse_anyhow(&self, input: &[u8]) -> (r: Result<Vec<u8>, Error>) {
        match self.parse(input) {
            Some((_, out)) => Ok(out),
            None => Err(Error { pos: 0, code: ErrorCode::ItemFailed }),
        }
    }
}

} // verus!
