//! Errors that end the compilation, and the recording of syntax errors.

use vstd::prelude::*;

use crate::ast::Span;
use crate::semantic::diagnosis::{spec_expected, Diagnosis, DiagnosisNode, ExpectedTokens};

verus! {

/// Records a syntax error at `span`: the token kind found and the kinds the
/// parser expected there, as `ExpectedTokens::new` reduces them.
pub fn yyerror(diagnosis: &mut Vec<DiagnosisNode>, span: Span, found: usize, expected: &Vec<usize>)
    ensures
        final(diagnosis)@.len() == old(diagnosis)@.len() + 1,
        final(diagnosis)@.drop_last() == old(diagnosis)@,
        final(diagnosis)@.last().span == span,
        match final(diagnosis)@.last().inner {
            Diagnosis::SyntaxError { found: f, expected: e } => f == found && e.wf() && e.view() == spec_expected(
                found,
                expected@,
            ),
            _ => false,
        },
{
    let inner = Diagnosis::SyntaxError { found, expected: ExpectedTokens::new(found, expected) };
    diagnosis.push(DiagnosisNode::new(inner, span));
    proof {
        assert(diagnosis@.drop_last() =~= old(diagnosis)@);
    }
}

/// The column where the caret under a reported span ends, on a line of
/// `line_len` characters.
pub fn caret_end(span: Span, line_len: usize) -> (c: usize)
    ensures
        c == if span.start.line == span.end.line {
            if span.end.col >= span.start.col { span.end.col } else { span.start.col }
        } else {
            if line_len >= span.start.col { line_len } else { span.start.col }
        },
{
    if span.start.line == span.end.line {
        if span.end.col >= span.start.col { span.end.col } else { span.start.col }
    } else {
        if line_len >= span.start.col { line_len } else { span.start.col }
    }
}

/// An error that stops the compiler: a failed read or write, with its
/// message, or a syntax error at a file, line and column.
#[derive(Debug)]
pub enum CCError {
    Io(String),
    SyntaxError(String, usize, usize, String),
}

impl CCError {
    /// The syntax error `msg` at `file_name`, line `line_no`, column `col_no`.
    pub fn error<R>(file_name: String, line_no: usize, col_no: usize, msg: String) -> (r: Result<R, Self>)
        ensures
            r matches Err(CCError::SyntaxError(f, l, c, m)) && f@ == file_name@ && l == line_no && c == col_no
                && m@ == msg@,
    {
        Err(CCError::SyntaxError(file_name, line_no, col_no, msg))
    }
}

} // verus!
