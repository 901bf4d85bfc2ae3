use vstd::prelude::*;

use crate::ast::AST;
use crate::error::CalcError;
use crate::parser::{parse_line, parse_line_never_internal, result_view, Parser};

verus! {

/// Evaluates one line of arithmetic. The library builds the expression tree;
/// reducing it to a floating-point number is left to the caller.
pub struct Evaluator {
    parser: Parser,
}

impl Evaluator {
    /// The line to evaluate.
    pub closed spec fn text(&self) -> Seq<char> {
        self.parser.text()
    }

    pub closed spec fn wf(&self) -> bool {
        self.parser.wf()
    }

    /// An evaluator for `inp_expr`, with a fresh tokenizer and tree builder.
    pub fn new_evaluator(inp_expr: &str) -> (r: Self)
        ensures
            r.wf(),
            r.text() == inp_expr@,
    {
        Evaluator { parser: Parser::new_parser(inp_expr) }
    }

    /// The complete expression tree of the line, ready to evaluate, or the
    /// first error that the line holds.
    pub fn tree(&self) -> (r: Result<AST, CalcError>)
        requires
            self.wf(),
        ensures
            result_view(r) == parse_line(self.text()),
            r != Err::<AST, CalcError>(CalcError::Internal),
    {
        proof {
            parse_line_never_internal(self.text());
        }
        self.parser.parse()
    }
}

} // verus!
