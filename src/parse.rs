//! Query text to expression trees, through the `prometheus_parser` crate.
use vstd::prelude::*;

use prometheus_parser as pp;

use crate::duration::Duration;
use crate::selector::{Expr, LabelMatcher, MatchOp, SubqueryWindow, VectorSelector};

verus! {

#[verifier::external_type_specification]
#[verifier::external_body]
pub struct ExParsedExpression(prometheus_parser::Expression);

#[verifier::external_type_specification]
#[verifier::external_body]
pub struct ExParsedSelector(prometheus_parser::Selector);

#[verifier::external_type_specification]
#[verifier::external_body]
pub struct ExParsedLabelOp(pp::LabelOp);

#[verifier::external_type_specification]
#[verifier::external_body]
pub struct ExParsedDuration(pp::PromDuration);

/// The expression tree the query parser builds from a text, or `None` where
/// the text is not a valid expression.
pub uninterp spec fn parsed_expression(text: Seq<char>) -> Option<Expr>;

/// Relies on `prometheus_parser::parse_expr`: parses a query; the tree (or
/// the failure) depends on the text alone. The error carries the parser's message.
#[verifier::external_body]
pub(crate) fn parse_expression(text: &str) -> (r: Result<Expr, String>)
    ensures
        r is Ok <==> parsed_expression(text@) is Some,
        r is Ok ==> r->Ok_0 == parsed_expression(text@)->0,
{
    match pp::parse_expr(text) {
        Ok(e) => Ok(expression_from(&e)),
        Err(e) => Err(e.to_string()),
    }
}

/// Converts the parser's tree node by node (part of `parse_expression`).
#[verifier::external_body]
fn expression_from(e: &pp::Expression) -> Expr {
    match e {
        pp::Expression::Float(_) => Expr::Number,
        pp::Expression::String(s) => Expr::Str(s.clone()),
        pp::Expression::Selector(s) => Expr::Selector(selector_from(s)),
        pp::Expression::Group(g) => Expr::Group(Box::new(expression_from(&g.expression))),
        pp::Expression::Function(f) => Expr::Function {
            name: f.name.clone(),
            args: f.args.iter().map(|a| expression_from(a)).collect(),
        },
        pp::Expression::Operator(o) => Expr::Operator {
            lhs: Box::new(expression_from(&o.lhs)),
            rhs: Box::new(expression_from(&o.rhs)),
        },
    }
}

/// Converts the parser's selector field by field (part of `parse_expression`).
#[verifier::external_body]
fn selector_from(s: &pp::Selector) -> VectorSelector {
    VectorSelector {
        metric: s.metric.clone(),
        labels: s.labels.iter().map(
            |l| LabelMatcher { key: l.key.clone(), op: label_op_from(l.op), value: l.value.clone() },
        ).collect(),
        range: s.range.map(duration_from),
        offset: s.offset.map(duration_from),
        subquery: s.subquery.as_ref().map(
            |q| SubqueryWindow { range: duration_from(q.range), resolution: q.resolution.map(duration_from) },
        ),
    }
}

/// Converts the parser's matcher operator (part of `parse_expression`).
#[verifier::external_body]
fn label_op_from(op: pp::LabelOp) -> MatchOp {
    match op {
        pp::LabelOp::Equal => MatchOp::Equal,
        pp::LabelOp::NotEqual => MatchOp::NotEqual,
        pp::LabelOp::RegexEqual => MatchOp::RegexEqual,
        pp::LabelOp::RegexNotEqual => MatchOp::RegexNotEqual,
    }
}

/// Converts the parser's duration (part of `parse_expression`).
#[verifier::external_body]
fn duration_from(d: pp::PromDuration) -> Duration {
    match d {
        pp::PromDuration::Seconds(v) => Duration::Seconds(v),
        pp::PromDuration::Minutes(v) => Duration::Minutes(v),
        pp::PromDuration::Hours(v) => Duration::Hours(v),
        pp::PromDuration::Days(v) => Duration::Days(v),
        pp::PromDuration::Weeks(v) => Duration::Weeks(v),
        pp::PromDuration::Years(v) => Duration::Years(v),
    }
}

/// Parses a query text into an expression tree; the error carries the
/// parser's message.
pub fn parse_query(text: &str) -> (r: Result<Expr, String>)
    ensures
        r is Ok <==> parsed_expression(text@) is Some,
        r is Ok ==> r->Ok_0 == parsed_expression(text@)->0,
{
    parse_expression(text)
}

} // verus!
