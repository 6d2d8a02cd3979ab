//! Selectors and query expressions, the canonical text of a selector and the
//! traversal that collects every selector an expression reads.
use vstd::prelude::*;

use crate::duration::{duration_text, Duration};
use crate::text::{push_str, string_of};

verus! {

/// How a label matcher compares the label's value.
#[derive(Clone, Copy, Debug, PartialEq, Eq, Structural)]
pub enum MatchOp {
    Equal,
    NotEqual,
    RegexEqual,
    RegexNotEqual,
}

/// One label constraint of a selector, such as `job="api"`.
#[derive(Clone, Debug, PartialEq, Eq)]
pub struct LabelMatcher {
    pub key: String,
    pub op: MatchOp,
    pub value: String,
}

/// A subquery window, `[<range>:<resolution>]`, the resolution optional.
#[derive(Clone, Copy, Debug, PartialEq, Eq, Structural)]
pub struct SubqueryWindow {
    pub range: Duration,
    pub resolution: Option<Duration>,
}

/// A time-series selector: optional metric name, label matchers in the order
/// they were written, optional range, optional offset and optional subquery.
#[derive(Clone, Debug, PartialEq, Eq)]
pub struct VectorSelector {
    pub metric: Option<String>,
    pub labels: Vec<LabelMatcher>,
    pub range: Option<Duration>,
    pub offset: Option<Duration>,
    pub subquery: Option<SubqueryWindow>,
}

/// A query expression tree.
#[derive(Debug)]
pub enum Expr {
    /// A numeric literal.
    Number,
    /// A string literal.
    Str(String),
    Selector(VectorSelector),
    /// A parenthesized expression.
    Group(Box<Expr>),
    Function { name: String, args: Vec<Expr> },
    Operator { lhs: Box<Expr>, rhs: Box<Expr> },
    /// A comparison with the `bool` modifier.
    BoolOperator { lhs: Box<Expr>, rhs: Box<Expr> },
}

pub struct LabelMatcherView {
    pub key: Seq<char>,
    pub op: MatchOp,
    pub value: Seq<char>,
}

pub struct VectorSelectorView {
    pub metric: Option<Seq<char>>,
    pub labels: Seq<LabelMatcherView>,
    pub range: Option<Duration>,
    pub offset: Option<Duration>,
    pub subquery: Option<SubqueryWindow>,
}

impl View for LabelMatcher {
    type V = LabelMatcherView;

    open spec fn view(&self) -> LabelMatcherView {
        LabelMatcherView { key: self.key@, op: self.op, value: self.value@ }
    }
}

impl View for VectorSelector {
    type V = VectorSelectorView;

    open spec fn view(&self) -> VectorSelectorView {
        VectorSelectorView {
            metric: match self.metric {
                Some(m) => Some(m@),
                None => None,
            },
            labels: label_views(self.labels@),
            range: self.range,
            offset: self.offset,
            subquery: self.subquery,
        }
    }
}

pub open spec fn label_views(s: Seq<LabelMatcher>) -> Seq<LabelMatcherView> {
    s.map_values(|x: LabelMatcher| x@)
}

pub open spec fn selector_views(s: Seq<VectorSelector>) -> Seq<VectorSelectorView> {
    s.map_values(|x: VectorSelector| x@)
}

/// Appends the bracketed range, if any, to `out`.
fn push_range_text(r: &Option<Duration>, out: &mut Vec<char>)
    ensures
        final(out)@ == old(out)@ + range_text(*r),
{
    if let Some(r) = r {
        out.push('[');
        r.push_text(out);
        out.push(']');
    }
    assert(out@ =~= old(out)@ + range_text(*r));
}

/// Appends the offset clause, if any, to `out`.
fn push_offset_text(o: &Option<Duration>, out: &mut Vec<char>)
    ensures
        final(out)@ == old(out)@ + offset_text(*o),
{
    if let Some(o) = o {
        push_str(out, " offset ");
        o.push_text(out);
    }
    assert(out@ =~= old(out)@ + offset_text(*o));
}

/// Appends the subquery window, if any, to `out`.
fn push_subquery_text(q: &Option<SubqueryWindow>, out: &mut Vec<char>)
    ensures
        final(out)@ == old(out)@ + subquery_text(*q),
{
    if let Some(q) = q {
        out.push('[');
        q.range.push_text(out);
        out.push(':');
        if let Some(r) = &q.resolution {
            r.push_text(out);
        }
        out.push(']');
    }
    assert(out@ =~= old(out)@ + subquery_text(*q));
}

/// Appends the braced, comma-separated matchers to `out` (nothing when there are none).
fn push_labels_block(labels: &Vec<LabelMatcher>, out: &mut Vec<char>)
    ensures
        final(out)@ == old(out)@ + (if labels@.len() == 0 {
            Seq::empty()
        } else {
            seq!['{'] + labels_text(label_views(labels@)) + seq!['}']
        }),
{
    let n = labels.len();
    if n == 0 {
        assert(out@ =~= old(out)@ + Seq::<char>::empty());
        return;
    }
    out.push('{');
    let ghost open = out@;
    let ghost all = label_views(labels@);
    let mut i: usize = 0;
    while i < n
        invariant
            n == labels.len(),
            all == label_views(labels@),
            i <= n,
            out@ == open + labels_text(all.subrange(0, i as int)),
        decreases n - i,
    {
        let ghost before = out@;
        if i > 0 {
            out.push(',');
        }
        labels[i].push_text(out);
        i = i + 1;
        proof {
            let ls = all.subrange(0, i as int);
            assert(ls.drop_last() =~= all.subrange(0, i - 1 as int));
            assert(ls.last() == labels@[i - 1]@);
            if i == 1 {
                assert(labels_text(all.subrange(0, 0)) =~= Seq::<char>::empty());
            }
            assert(out@ =~= open + labels_text(ls));
        }
    }
    out.push('}');
    assert(all.subrange(0, n as int) =~= all);
    assert(out@ =~= old(out)@ + (seq!['{'] + labels_text(all) + seq!['}']));
}

/// Every selector the expression reads, left operand before right, arguments
/// in order, duplicates kept.
pub open spec fn selectors_of(e: Expr) -> Seq<VectorSelectorView>
    decreases e, 0nat,
{
    match e {
        Expr::Number => Seq::empty(),
        Expr::Str(_) => Seq::empty(),
        Expr::Selector(s) => seq![s@],
        Expr::Group(inner) => selectors_of(*inner),
        Expr::Function { name, args } => selectors_of_args(args@, args@.len()),
        Expr::Operator { lhs, rhs } => selectors_of(*lhs) + selectors_of(*rhs),
        Expr::BoolOperator { lhs, rhs } => selectors_of(*lhs) + selectors_of(*rhs),
    }
}

/// The selectors of the first `n` arguments, in order.
pub open spec fn selectors_of_args(args: Seq<Expr>, n: nat) -> Seq<VectorSelectorView>
    decreases args, n,
{
    if n == 0 || n > args.len() {
        Seq::empty()
    } else {
        selectors_of_args(args, (n - 1) as nat) + selectors_of(args[n - 1])
    }
}

/// The query-language symbol of a matcher operator.
pub open spec fn op_symbol(op: MatchOp) -> Seq<char> {
    match op {
        MatchOp::Equal => seq!['='],
        MatchOp::NotEqual => seq!['!', '='],
        MatchOp::RegexEqual => seq!['=', '~'],
        MatchOp::RegexNotEqual => seq!['!', '~'],
    }
}

/// The quoted, escaped form of a label value, as Rust's `Debug` writes a string.
pub uninterp spec fn quoted_of(s: Seq<char>) -> Seq<char>;

pub open spec fn label_text(l: LabelMatcherView) -> Seq<char> {
    l.key + op_symbol(l.op) + quoted_of(l.value)
}

/// The matchers' texts joined by commas.
pub open spec fn labels_text(ls: Seq<LabelMatcherView>) -> Seq<char>
    decreases ls.len(),
{
    if ls.len() == 0 {
        Seq::empty()
    } else if ls.len() == 1 {
        label_text(ls[0])
    } else {
        labels_text(ls.drop_last()) + seq![','] + label_text(ls.last())
    }
}

pub open spec fn metric_text(s: VectorSelectorView) -> Seq<char> {
    match s.metric {
        Some(m) => m,
        None => Seq::empty(),
    }
}

pub open spec fn labels_block(s: VectorSelectorView) -> Seq<char> {
    if s.labels.len() == 0 {
        Seq::empty()
    } else {
        seq!['{'] + labels_text(s.labels) + seq!['}']
    }
}

pub open spec fn range_block(s: VectorSelectorView) -> Seq<char> {
    range_text(s.range)
}

pub open spec fn range_text(r: Option<Duration>) -> Seq<char> {
    match r {
        Some(r) => seq!['['] + duration_text(r) + seq![']'],
        None => Seq::empty(),
    }
}

pub open spec fn offset_block(s: VectorSelectorView) -> Seq<char> {
    offset_text(s.offset)
}

pub open spec fn offset_text(o: Option<Duration>) -> Seq<char> {
    match o {
        Some(o) => " offset "@ + duration_text(o),
        None => Seq::empty(),
    }
}

pub open spec fn subquery_block(s: VectorSelectorView) -> Seq<char> {
    subquery_text(s.subquery)
}

pub open spec fn subquery_text(q: Option<SubqueryWindow>) -> Seq<char> {
    match q {
        Some(q) => seq!['['] + duration_text(q.range) + seq![':'] + match q.resolution {
            Some(r) => duration_text(r),
            None => Seq::empty(),
        } + seq![']'],
        None => Seq::empty(),
    }
}

/// The selector written out in query syntax; its canonical key.
pub open spec fn selector_text(s: VectorSelectorView) -> Seq<char> {
    metric_text(s) + labels_block(s) + range_block(s) + offset_block(s) + subquery_block(s)
}

/// Relies on the `Debug` formatting of `str`: the value quoted and escaped.
#[verifier::external_body]
fn debug_quoted(s: &str) -> (r: String)
    ensures
        r@ == quoted_of(s@),
{
    format!("{:?}", s)
}

impl LabelMatcher {
    /// A copy with the same contents.
    pub fn duplicate(&self) -> (r: LabelMatcher)
        ensures
            r@ == self@,
    {
        LabelMatcher { key: self.key.clone(), op: self.op, value: self.value.clone() }
    }

    /// Appends the matcher's query text to `out`.
    pub fn push_text(&self, out: &mut Vec<char>)
        ensures
            final(out)@ == old(out)@ + label_text(self@),
    {
        push_str(out, self.key.as_str());
        match self.op {
            MatchOp::Equal => {
                out.push('=');
            },
            MatchOp::NotEqual => {
                out.push('!');
                out.push('=');
            },
            MatchOp::RegexEqual => {
                out.push('=');
                out.push('~');
            },
            MatchOp::RegexNotEqual => {
                out.push('!');
                out.push('~');
            },
        }
        let q = debug_quoted(self.value.as_str());
        push_str(out, q.as_str());
        assert(out@ =~= old(out)@ + label_text(self@));
    }
}

impl VectorSelector {
    /// A copy with the same contents.
    pub fn duplicate(&self) -> (r: VectorSelector)
        ensures
            r@ == self@,
    {
        let metric = match &self.metric {
            Some(m) => Some(m.clone()),
            None => None,
        };
        let mut labels: Vec<LabelMatcher> = Vec::new();
        let mut i: usize = 0;
        while i < self.labels.len()
            invariant
                i <= self.labels.len(),
                label_views(labels@) =~= label_views(self.labels@.subrange(0, i as int)),
            decreases self.labels.len() - i,
        {
            let ghost prev = labels@;
            let d = self.labels[i].duplicate();
            labels.push(d);
            i = i + 1;
            assert(self.labels@.subrange(0, i as int) =~= self.labels@.subrange(0, i - 1 as int).push(
                self.labels@[i - 1],
            ));
            assert(label_views(labels@) =~= label_views(prev).push(d@));
        }
        let r = VectorSelector {
            metric,
            labels,
            range: self.range,
            offset: self.offset,
            subquery: self.subquery,
        };
        assert(self.labels@.subrange(0, i as int) =~= self.labels@);
        assert(r@.labels =~= self@.labels);
        r
    }

    /// Appends the selector's query text to `out`.
    #[verifier::spinoff_prover]
    pub fn push_text(&self, out: &mut Vec<char>)
        ensures
            final(out)@ == old(out)@ + selector_text(self@),
    {
        let ghost start = out@;
        if let Some(m) = &self.metric {
            push_str(out, m.as_str());
        }
        assert(out@ =~= start + metric_text(self@));
        let ghost s1 = out@;
        push_labels_block(&self.labels, out);
        assert(out@ =~= s1 + labels_block(self@));
        let ghost s2 = out@;
        push_range_text(&self.range, out);
        assert(out@ =~= s2 + range_block(self@));
        let ghost s3 = out@;
        push_offset_text(&self.offset, out);
        assert(out@ =~= s3 + offset_block(self@));
        let ghost s4 = out@;
        push_subquery_text(&self.subquery, out);
        assert(out@ =~= s4 + subquery_block(self@));
        assert(out@ =~= start + selector_text(self@));
    }

    /// The canonical key: the selector's query text.
    pub fn to_text(&self) -> (r: String)
        ensures
            r@ == selector_text(self@),
    {
        let mut out: Vec<char> = Vec::new();
        self.push_text(&mut out);
        assert(out@ =~= selector_text(self@));
        string_of(&out)
    }
}

/// Every selector the expression reads, left operand before right, function
/// arguments in order, duplicates kept.
pub fn get_selectors_from_expression(expr: &Expr) -> (r: Vec<VectorSelector>)
    ensures
        selector_views(r@) == selectors_of(*expr),
    decreases expr,
{
    match expr {
        Expr::Number => {
            let r: Vec<VectorSelector> = Vec::new();
            assert(selector_views(r@) =~= selectors_of(*expr));
            r
        },
        Expr::Str(_) => {
            let r: Vec<VectorSelector> = Vec::new();
            assert(selector_views(r@) =~= selectors_of(*expr));
            r
        },
        Expr::Selector(s) => {
            let r = vec![s.duplicate()];
            assert(selector_views(r@) =~= selectors_of(*expr));
            r
        },
        Expr::Group(inner) => get_selectors_from_expression(inner),
        Expr::Function { name, args } => {
            let mut r: Vec<VectorSelector> = Vec::new();
            let mut i: usize = 0;
            while i < args.len()
                invariant
                    i <= args.len(),
                    *expr == (Expr::Function { name: *name, args: *args }),
                    selector_views(r@) == selectors_of_args(args@, i as nat),
                decreases args.len() - i,
            {
                proof {
                    broadcast use vstd::std_specs::vec::axiom_vec_index_decreases;
                    broadcast use vstd::std_specs::vec::axiom_vec_decreases_to_view;
                    assert(decreases_to!(args => args[i as int]));
                    assert(decreases_to!(*expr => (*expr)->Function_args));
                    assert(decreases_to!(args => args@));
                    assert(decreases_to!(args@ => args@[i as int]));
                    assert(decreases_to!(*expr => args@[i as int]));
                }
                let mut more = get_selectors_from_expression(&args[i]);
                let ghost prev = r@;
                r.append(&mut more);
                i = i + 1;
                assert(selector_views(r@) =~= selector_views(prev) + selectors_of(args@[i - 1]));
            }
            r
        },
        Expr::Operator { lhs, rhs } => {
            let mut r = get_selectors_from_expression(lhs);
            let mut more = get_selectors_from_expression(rhs);
            let ghost prev = r@;
            r.append(&mut more);
            assert(selector_views(r@) =~= selector_views(prev) + selectors_of(**rhs));
            r
        },
        Expr::BoolOperator { lhs, rhs } => {
            let mut r = get_selectors_from_expression(lhs);
            let mut more = get_selectors_from_expression(rhs);
            let ghost prev = r@;
            r.append(&mut more);
            assert(selector_views(r@) =~= selector_views(prev) + selectors_of(**rhs));
            r
        },
    }
}

} // verus!
