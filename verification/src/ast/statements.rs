//! The `print` statement.
use vstd::prelude::*;

use super::parser::{ParseError, Parser};
use super::{consumed, progressed, Expr};
use super::grammar::{err_view, so_expr, view_expr, ErrV, ExprV};

verus! {

/// "print" (expression)
#[derive(Debug, PartialEq, Eq)]
pub struct Print {
    pub expression: Expr,
}

impl Print {
    /// Parses a print statement whose keyword is the current token.
    pub fn parse(parser: &mut Parser) -> (r: Result<Print, ParseError>)
        requires
            old(parser).wf(),
        ensures
            progressed(old(parser), final(parser)),
            r is Ok ==> consumed(old(parser), final(parser)),
            ({
                let (e, j) = so_expr(old(parser).stream@, old(parser).index@ + 1);
                &&& final(parser).index@ == j
                &&& match r {
                    Ok(p) => e == Ok::<ExprV, ErrV>(view_expr(p.expression)),
                    Err(err) => e == Err::<ExprV, ErrV>(err_view(err)),
                }
            }),
    {
        parser.step();
        let expression = Expr::parse(parser)?;
        Ok(Print { expression })
    }
}

} // verus!
