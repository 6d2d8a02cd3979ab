//! Rules read from rule files, the selector occurrences found in them, and
//! the "data is missing" alert rule synthesized for each selector.
use vstd::prelude::*;

use crate::duration::{
    chosen_for, duration_text, for_of, merge_for_texts, opt_text, parse_for, parsed_for, shortest,
    Duration,
};
use crate::naming::{absent_call, alert_name, build_absent_selector_alert_name, wrap_selector_in_absent};
use crate::parse::{parse_expression, parsed_expression};
use crate::selector::{
    get_selectors_from_expression, selector_text, selector_views, selectors_of, Expr,
    VectorSelector, VectorSelectorView,
};
use crate::text::{push_str, string_of};

verus! {

/// The name of the tool written into every generated rule's description.
pub const TOOL_NAME: &'static str = "prometheus-absent-data-alert-rule-generator";

/// A rule as declared in a rules file: its expression and the declared
/// fields the generator reads (`for`, and `record` for recording rules).
#[derive(Clone, Debug)]
pub struct PrometheusRule {
    pub expr: String,
    pub for_value: Option<String>,
    pub record: Option<String>,
}

pub struct RuleView {
    pub expr: Seq<char>,
    pub for_value: Option<Seq<char>>,
    pub record: Option<Seq<char>>,
}

impl View for PrometheusRule {
    type V = RuleView;

    open spec fn view(&self) -> RuleView {
        RuleView {
            expr: self.expr@,
            for_value: opt_text(self.for_value),
            record: opt_text(self.record),
        }
    }
}

fn clone_opt(t: &Option<String>) -> (r: Option<String>)
    ensures
        opt_text(r) == opt_text(*t),
{
    match t {
        Some(s) => Some(s.clone()),
        None => None,
    }
}

impl PrometheusRule {
    /// A copy with the same contents.
    pub fn duplicate(&self) -> (r: PrometheusRule)
        ensures
            r@ == self@,
    {
        PrometheusRule {
            expr: self.expr.clone(),
            for_value: clone_opt(&self.for_value),
            record: clone_opt(&self.record),
        }
    }
}

/// A selector together with the rule it was found in.
#[derive(Clone, Debug)]
pub struct SelectorWithOriginRule {
    pub selector: VectorSelector,
    pub rule: PrometheusRule,
}

pub struct OccurrenceView {
    pub selector: VectorSelectorView,
    pub rule: RuleView,
}

impl View for SelectorWithOriginRule {
    type V = OccurrenceView;

    open spec fn view(&self) -> OccurrenceView {
        OccurrenceView { selector: self.selector@, rule: self.rule@ }
    }
}

pub open spec fn occurrence_views(s: Seq<SelectorWithOriginRule>) -> Seq<OccurrenceView> {
    s.map_values(|o: SelectorWithOriginRule| o@)
}

/// The canonical key of an occurrence: its selector's query text.
#[verifier::opaque]
pub open spec fn key_of(o: OccurrenceView) -> Seq<char> {
    selector_text(o.selector)
}

impl SelectorWithOriginRule {
    /// A copy with the same contents.
    pub fn duplicate(&self) -> (r: SelectorWithOriginRule)
        ensures
            r@ == self@,
    {
        SelectorWithOriginRule { selector: self.selector.duplicate(), rule: self.rule.duplicate() }
    }

    /// The key occurrences are sorted and grouped by.
    pub fn sort_key(&self) -> (r: String)
        ensures
            r@ == key_of(self@),
    {
        proof {
            reveal(key_of);
        }
        self.selector.to_text()
    }
}

/// What went wrong with one rule.
#[derive(Clone, Copy, Debug, PartialEq, Eq, Structural)]
pub enum RuleErrorKind {
    /// The rule's expression does not parse.
    InvalidExpression,
    /// The rule's `record` name parses, but not as a bare selector.
    RecordNotSelector,
    /// The rule's `record` name does not parse.
    InvalidRecord,
    /// The rule's `for` text is not a duration.
    MalformedFor,
    /// A selector of the rule has no metric name.
    MissingMetric,
}

/// A problem found in a rule, with the offending text.
#[derive(Clone, Debug)]
pub struct RuleError {
    pub kind: RuleErrorKind,
    pub text: String,
    pub message: String,
}

pub open spec fn ok_of(r: Result<Expr, String>) -> Option<Expr> {
    match r {
        Ok(e) => Some(e),
        Err(_) => None,
    }
}

pub open spec fn record_of(r: Option<Result<Expr, String>>) -> Option<Option<Expr>> {
    match r {
        Some(p) => Some(ok_of(p)),
        None => None,
    }
}

pub open spec fn tagged(sels: Seq<VectorSelectorView>, rule: RuleView) -> Seq<OccurrenceView> {
    sels.map_values(|s: VectorSelectorView| OccurrenceView { selector: s, rule })
}

/// The occurrences one rule contributes, given what its expression and its
/// `record` name (if it has one) parsed to: the expression's selectors, then
/// the record name where it is a bare selector; nothing when the expression
/// does not parse.
pub open spec fn rule_occurrences(
    rule: RuleView,
    expr: Option<Expr>,
    record: Option<Option<Expr>>,
) -> Seq<OccurrenceView> {
    match expr {
        None => Seq::empty(),
        Some(e) => tagged(selectors_of(e), rule) + match record {
            Some(Some(Expr::Selector(s))) => seq![OccurrenceView { selector: s@, rule }],
            _ => Seq::empty(),
        },
    }
}

/// The parse problems of one rule, given the same parse results.
pub open spec fn parse_error_kinds(expr: Option<Expr>, record: Option<Option<Expr>>) -> Seq<
    RuleErrorKind,
> {
    match expr {
        None => seq![RuleErrorKind::InvalidExpression],
        Some(_) => match record {
            None => Seq::empty(),
            Some(None) => seq![RuleErrorKind::InvalidRecord],
            Some(Some(Expr::Selector(_))) => Seq::empty(),
            Some(Some(_)) => seq![RuleErrorKind::RecordNotSelector],
        },
    }
}

/// A problem for a `for` text that is present but is not a duration.
pub open spec fn for_error_kinds(rule: RuleView) -> Seq<RuleErrorKind> {
    match rule.for_value {
        Some(t) => if parsed_for(t) is None {
            seq![RuleErrorKind::MalformedFor]
        } else {
            Seq::empty()
        },
        None => Seq::empty(),
    }
}

/// One problem for each occurrence whose selector has no metric name.
pub open spec fn missing_metric_kinds(os: Seq<OccurrenceView>) -> Seq<RuleErrorKind>
    decreases os.len(),
{
    if os.len() == 0 {
        Seq::empty()
    } else {
        missing_metric_kinds(os.drop_last()) + if os.last().selector.metric is None {
            seq![RuleErrorKind::MissingMetric]
        } else {
            Seq::empty()
        }
    }
}

/// The problems found in one rule, given what its expression and its
/// `record` name parsed to: a malformed `for`, the parse problems, then a
/// missing metric name for each selector found.
pub open spec fn rule_error_kinds(
    rule: RuleView,
    expr: Option<Expr>,
    record: Option<Option<Expr>>,
) -> Seq<RuleErrorKind> {
    for_error_kinds(rule) + parse_error_kinds(expr, record) + missing_metric_kinds(
        rule_occurrences(rule, expr, record),
    )
}

pub open spec fn error_kinds(es: Seq<RuleError>) -> Seq<RuleErrorKind> {
    es.map_values(|e: RuleError| e.kind)
}

fn opt_string_or_empty(t: &Option<String>) -> String {
    match t {
        Some(s) => s.clone(),
        None => String::new(),
    }
}

/// The occurrences and problems of one rule, from what its expression and
/// its `record` name parsed to.
pub fn selectors_for_rule(
    rule: &PrometheusRule,
    expr: Result<Expr, String>,
    record: Option<Result<Expr, String>>,
) -> (r: (Vec<SelectorWithOriginRule>, Vec<RuleError>))
    ensures
        occurrence_views(r.0@) == rule_occurrences(rule@, ok_of(expr), record_of(record)),
        error_kinds(r.1@) == rule_error_kinds(rule@, ok_of(expr), record_of(record)),
{
    let mut occs: Vec<SelectorWithOriginRule> = Vec::new();
    let mut errs: Vec<RuleError> = Vec::new();
    if let Some(t) = &rule.for_value {
        if parse_for(t.as_str()).is_none() {
            errs.push(RuleError { kind: RuleErrorKind::MalformedFor, text: t.clone(), message: String::new() });
        }
    }
    assert(error_kinds(errs@) =~= for_error_kinds(rule@));
    let ghost for_errs = errs@;
    let e = match expr {
        Ok(e) => e,
        Err(message) => {
            errs.push(RuleError { kind: RuleErrorKind::InvalidExpression, text: rule.expr.clone(), message });
            assert(occurrence_views(occs@) =~= Seq::<OccurrenceView>::empty());
            assert(missing_metric_kinds(Seq::<OccurrenceView>::empty()) =~= Seq::<RuleErrorKind>::empty());
            assert(error_kinds(errs@) =~= error_kinds(for_errs) + seq![RuleErrorKind::InvalidExpression]);
            assert(error_kinds(errs@) =~= rule_error_kinds(rule@, ok_of(expr), record_of(record)));
            return (occs, errs);
        },
    };
    let sels = get_selectors_from_expression(&e);
    let ghost all = tagged(selectors_of(e), rule@);
    let mut i: usize = 0;
    while i < sels.len()
        invariant
            i <= sels.len(),
            selector_views(sels@) == selectors_of(e),
            all == tagged(selectors_of(e), rule@),
            occurrence_views(occs@) =~= all.subrange(0, i as int),
            errs@ == for_errs,
        decreases sels.len() - i,
    {
        let o = SelectorWithOriginRule { selector: sels[i].duplicate(), rule: rule.duplicate() };
        let ghost prev = occs@;
        occs.push(o);
        i = i + 1;
        assert(occurrence_views(occs@) =~= occurrence_views(prev).push(o@));
        assert(all.subrange(0, i as int) =~= all.subrange(0, i - 1 as int).push(all[i - 1]));
        assert(sels@[i - 1]@ == selector_views(sels@)[i - 1]);
    }
    assert(all.subrange(0, i as int) =~= all);
    let ghost before_record = occs@;
    match record {
        Some(Ok(Expr::Selector(s))) => {
            let o = SelectorWithOriginRule { selector: s, rule: rule.duplicate() };
            occs.push(o);
            assert(occurrence_views(occs@) =~= occurrence_views(before_record).push(o@));
        },
        Some(Ok(_)) => {
            errs.push(RuleError {
                kind: RuleErrorKind::RecordNotSelector,
                text: opt_string_or_empty(&rule.record),
                message: String::new(),
            });
        },
        Some(Err(message)) => {
            errs.push(RuleError {
                kind: RuleErrorKind::InvalidRecord,
                text: opt_string_or_empty(&rule.record),
                message,
            });
        },
        None => {},
    }
    assert(occurrence_views(occs@) =~= rule_occurrences(rule@, ok_of(expr), record_of(record)));
    assert(error_kinds(errs@) =~= for_error_kinds(rule@) + parse_error_kinds(ok_of(expr), record_of(record)));
    let ghost head = errs@;
    let mut k: usize = 0;
    while k < occs.len()
        invariant
            k <= occs.len(),
            error_kinds(errs@) == error_kinds(head) + missing_metric_kinds(
                occurrence_views(occs@).subrange(0, k as int),
            ),
        decreases occs.len() - k,
    {
        let ghost before = errs@;
        if occs[k].selector.metric.is_none() {
            errs.push(RuleError {
                kind: RuleErrorKind::MissingMetric,
                text: occs[k].selector.to_text(),
                message: String::new(),
            });
            assert(error_kinds(errs@) =~= error_kinds(before) + seq![RuleErrorKind::MissingMetric]);
        } else {
            assert(error_kinds(errs@) =~= error_kinds(before) + Seq::<RuleErrorKind>::empty());
        }
        k = k + 1;
        proof {
            let sub = occurrence_views(occs@).subrange(0, k as int);
            assert(sub.drop_last() =~= occurrence_views(occs@).subrange(0, k - 1 as int));
            assert(sub.last() == occs@[k - 1]@);
            assert(error_kinds(errs@) =~= error_kinds(head) + missing_metric_kinds(sub));
        }
    }
    assert(occurrence_views(occs@).subrange(0, k as int) =~= occurrence_views(occs@));
    assert(error_kinds(errs@) =~= rule_error_kinds(rule@, ok_of(expr), record_of(record)));
    (occs, errs)
}

pub open spec fn rule_views(rules: Seq<PrometheusRule>) -> Seq<RuleView> {
    rules.map_values(|r: PrometheusRule| r@)
}

/// What a rule's `record` name parses to, where it has one.
pub open spec fn record_parsed(rule: RuleView) -> Option<Option<Expr>> {
    match rule.record {
        Some(t) => Some(parsed_expression(t)),
        None => None,
    }
}

/// The occurrences contributed by a list of rules, rule by rule.
pub open spec fn rules_occurrences(rules: Seq<RuleView>) -> Seq<OccurrenceView>
    decreases rules.len(),
{
    if rules.len() == 0 {
        Seq::empty()
    } else {
        rules_occurrences(rules.drop_last()) + rule_occurrences(
            rules.last(),
            parsed_expression(rules.last().expr),
            record_parsed(rules.last()),
        )
    }
}

/// The problems found in a list of rules, rule by rule.
pub open spec fn rules_error_kinds(rules: Seq<RuleView>) -> Seq<RuleErrorKind>
    decreases rules.len(),
{
    if rules.len() == 0 {
        Seq::empty()
    } else {
        rules_error_kinds(rules.drop_last()) + rule_error_kinds(
            rules.last(),
            parsed_expression(rules.last().expr),
            record_parsed(rules.last()),
        )
    }
}

/// Collects the selectors of every rule of a file, each tagged with its rule.
/// Succeeds exactly when every expression parses and every `record` name is a
/// bare selector; otherwise returns every problem found.
pub fn get_selectors_in_rules(rules: &Vec<PrometheusRule>) -> (r: Result<
    Vec<SelectorWithOriginRule>,
    Vec<RuleError>,
>)
    ensures
        r is Ok <==> rules_error_kinds(rule_views(rules@)).len() == 0,
        r is Ok ==> occurrence_views(r->Ok_0@) == rules_occurrences(rule_views(rules@)),
        r is Err ==> error_kinds(r->Err_0@) == rules_error_kinds(rule_views(rules@)),
{
    let ghost views = rule_views(rules@);
    let mut occs: Vec<SelectorWithOriginRule> = Vec::new();
    let mut errs: Vec<RuleError> = Vec::new();
    let mut i: usize = 0;
    while i < rules.len()
        invariant
            i <= rules.len(),
            views == rule_views(rules@),
            occurrence_views(occs@) == rules_occurrences(views.subrange(0, i as int)),
            error_kinds(errs@) == rules_error_kinds(views.subrange(0, i as int)),
        decreases rules.len() - i,
    {
        let rule = &rules[i];
        let expr = parse_expression(rule.expr.as_str());
        let record = match &rule.record {
            Some(t) => Some(parse_expression(t.as_str())),
            None => None,
        };
        assert(ok_of(expr) == parsed_expression(rule@.expr));
        assert(record_of(record) == record_parsed(rule@));
        let (mut more, mut more_errs) = selectors_for_rule(rule, expr, record);
        let ghost prev = occs@;
        let ghost prev_errs = errs@;
        let ghost added = more@;
        let ghost added_errs = more_errs@;
        occs.append(&mut more);
        errs.append(&mut more_errs);
        i = i + 1;
        proof {
            let sub = views.subrange(0, i as int);
            assert(sub.drop_last() =~= views.subrange(0, i - 1 as int));
            assert(sub.last() == rule@);
            assert(occurrence_views(occs@) =~= occurrence_views(prev) + occurrence_views(added));
            assert(error_kinds(errs@) =~= error_kinds(prev_errs) + error_kinds(added_errs));
        }
    }
    assert(views.subrange(0, i as int) =~= views);
    if errs.len() == 0 {
        Ok(occs)
    } else {
        Err(errs)
    }
}

/// A synthesized alert rule, as it is written to the output rules file.
#[derive(Clone, Debug, PartialEq, Eq)]
pub struct AlertRule {
    pub alert: String,
    pub expr: String,
    pub for_text: String,
    /// Labels, ordered by key.
    pub labels: Vec<(String, String)>,
    /// Annotations, ordered by key.
    pub annotations: Vec<(String, String)>,
}

pub struct AlertRuleView {
    pub alert: Seq<char>,
    pub expr: Seq<char>,
    pub for_text: Seq<char>,
    pub labels: Seq<(Seq<char>, Seq<char>)>,
    pub annotations: Seq<(Seq<char>, Seq<char>)>,
}

pub open spec fn pair_views(v: Seq<(String, String)>) -> Seq<(Seq<char>, Seq<char>)> {
    v.map_values(|p: (String, String)| (p.0@, p.1@))
}

impl View for AlertRule {
    type V = AlertRuleView;

    open spec fn view(&self) -> AlertRuleView {
        AlertRuleView {
            alert: self.alert@,
            expr: self.expr@,
            for_text: self.for_text@,
            labels: pair_views(self.labels@),
            annotations: pair_views(self.annotations@),
        }
    }
}

/// An alert on one absent selector, before it takes the shape of a rule.
pub struct PrometheusAbsentSelectorAlertRule {
    pub name: String,
    pub expr: String,
    pub selector_expr: String,
    pub for_duration: Duration,
    pub labels: Vec<(String, String)>,
}

pub open spec fn summary_text(selector: Seq<char>) -> Seq<char> {
    "No data for '"@ + selector + "'"@
}

pub open spec fn description_text(selector: Seq<char>) -> Seq<char> {
    "No data for '"@ + selector + "'. This alert rule was generated by "@ + TOOL_NAME@ + "."@
}

/// The annotations of the alert on a selector, ordered by key.
pub open spec fn annotations_for(selector: Seq<char>) -> Seq<(Seq<char>, Seq<char>)> {
    seq![("description"@, description_text(selector)), ("summary"@, summary_text(selector))]
}

/// The labels of every synthesized alert, ordered by key, with the playbook
/// link where one is configured.
pub open spec fn alert_labels(playbook: Option<Seq<char>>) -> Seq<(Seq<char>, Seq<char>)> {
    match playbook {
        Some(p) => seq![
            ("how_much_should_you_panic"@, "Not much (1/3)"@),
            ("playbook"@, p),
            ("severity"@, "business_hours_page"@),
        ],
        None => seq![
            ("how_much_should_you_panic"@, "Not much (1/3)"@),
            ("severity"@, "business_hours_page"@),
        ],
    }
}

fn text_of_parts(a: &str, b: &str, c: &str) -> (r: String)
    ensures
        r@ == a@ + b@ + c@,
{
    let mut out: Vec<char> = Vec::new();
    push_str(&mut out, a);
    push_str(&mut out, b);
    push_str(&mut out, c);
    assert(out@ =~= a@ + b@ + c@);
    string_of(&out)
}

impl PrometheusAbsentSelectorAlertRule {
    /// The rule as written out: alert name, expression, `for` text, labels,
    /// and the summary and description annotations naming the selector.
    pub fn into_rule(self) -> (r: AlertRule)
        ensures
            r@ == (AlertRuleView {
                alert: self.name@,
                expr: self.expr@,
                for_text: duration_text(self.for_duration),
                labels: pair_views(self.labels@),
                annotations: annotations_for(self.selector_expr@),
            }),
    {
        let sel = self.selector_expr.as_str();
        let summary = text_of_parts("No data for '", sel, "'");
        let head = text_of_parts("No data for '", sel, "'. This alert rule was generated by ");
        let description = text_of_parts(head.as_str(), TOOL_NAME, ".");
        let annotations = vec![
            ("description".to_owned(), description),
            ("summary".to_owned(), summary),
        ];
        let r = AlertRule {
            alert: self.name,
            expr: self.expr,
            for_text: self.for_duration.to_text(),
            labels: self.labels,
            annotations,
        };
        assert(pair_views(r.annotations@) =~= annotations_for(self.selector_expr@));
        r
    }
}

/// The `for` duration chosen for a group of occurrences.
pub open spec fn merged_for(occs: Seq<OccurrenceView>) -> Duration {
    chosen_for(shortest(occs.map_values(|o: OccurrenceView| for_of(o.rule.for_value))))
}

/// The alert rule synthesized for a group of occurrences of one selector.
pub open spec fn merged_rule(occs: Seq<OccurrenceView>, playbook: Option<Seq<char>>) -> AlertRuleView {
    let s = occs[0].selector;
    AlertRuleView {
        alert: alert_name(s),
        expr: absent_call(s),
        for_text: duration_text(merged_for(occs)),
        labels: alert_labels(playbook),
        annotations: annotations_for(selector_text(s)),
    }
}

/// Merges the occurrences of one selector into its alert rule: named and
/// wrapped after the first occurrence's selector, with the shortest `for` of
/// the origin rules raised to an hour (an hour where none parses).
pub fn merge_selectors_into_rule(
    selectors: &Vec<SelectorWithOriginRule>,
    playbook_link: Option<String>,
) -> (r: AlertRule)
    requires
        selectors.len() > 0,
    ensures
        r@ == merged_rule(occurrence_views(selectors@), opt_text(playbook_link)),
{
    let ghost occs = occurrence_views(selectors@);
    let first = &selectors[0].selector;
    let name = build_absent_selector_alert_name(first);
    let function = wrap_selector_in_absent(first);
    let mut texts: Vec<Option<String>> = Vec::new();
    let mut i: usize = 0;
    while i < selectors.len()
        invariant
            i <= selectors.len(),
            occs == occurrence_views(selectors@),
            texts@.len() == i,
            forall|j: int| 0 <= j < i ==> opt_text(#[trigger] texts@[j]) == occs[j].rule.for_value,
        decreases selectors.len() - i,
    {
        texts.push(clone_opt(&selectors[i].rule.for_value));
        i = i + 1;
    }
    let chosen = merge_for_texts(&texts);
    assert(texts@.map_values(|t: Option<String>| for_of(opt_text(t))) =~= occs.map_values(
        |o: OccurrenceView| for_of(o.rule.for_value),
    ));
    let mut labels: Vec<(String, String)> = Vec::new();
    labels.push(("how_much_should_you_panic".to_owned(), "Not much (1/3)".to_owned()));
    if let Some(link) = playbook_link {
        labels.push(("playbook".to_owned(), link));
    }
    labels.push(("severity".to_owned(), "business_hours_page".to_owned()));
    assert(pair_views(labels@) =~= alert_labels(opt_text(playbook_link)));
    let rule = PrometheusAbsentSelectorAlertRule {
        name,
        expr: function,
        selector_expr: first.to_text(),
        for_duration: chosen,
        labels,
    };
    rule.into_rule()
}

} // verus!
