use absent_alert_rules::duration::{merge_for_texts, parse_for, Duration};
use absent_alert_rules::grouping::{files_to_read, generate_absent_rules, group_selectors, FileSelectors};
use absent_alert_rules::ignore::parse_ignore_list;
use absent_alert_rules::naming::{build_absent_selector_alert_name, wrap_selector_in_absent};
use absent_alert_rules::parse::parse_query;
use absent_alert_rules::rules::{
    get_selectors_in_rules, selectors_for_rule, PrometheusRule, RuleErrorKind,
};
use absent_alert_rules::selector::{
    get_selectors_from_expression, Expr, LabelMatcher, MatchOp, SubqueryWindow, VectorSelector,
};
use absent_alert_rules::text::is_text_less;

fn texts(v: &[Option<&str>]) -> Vec<Option<String>> {
    v.iter().map(|t| t.map(|s| s.to_string())).collect()
}

fn rule(expr: &str) -> PrometheusRule {
    PrometheusRule { expr: expr.to_string(), for_value: None, record: None }
}

fn is_identifier(name: &str) -> bool {
    let mut cs = name.chars();
    match cs.next() {
        Some(c) if c.is_ascii_alphabetic() || c == '_' => {}
        _ => return false,
    }
    cs.all(|c| c.is_ascii_alphanumeric() || c == '_')
}

#[test]
fn extraction_keeps_order_and_duplicates() {
    let e = parse_query(r#"up{job="x"} == 1 unless down{job="y"}"#).unwrap();
    let found: Vec<String> = get_selectors_from_expression(&e).iter().map(|s| s.to_text()).collect();
    assert_eq!(found, vec![r#"up{job="x"}"#, r#"down{job="y"}"#]);
    let e = parse_query("rate(a[5m]) + rate(a[5m]) / b").unwrap();
    let found: Vec<String> = get_selectors_from_expression(&e).iter().map(|s| s.to_text()).collect();
    assert_eq!(found, vec!["a[5m]", "a[5m]", "b"]);
}

#[test]
fn extraction_of_literals_is_empty() {
    let e = parse_query("42").unwrap();
    assert!(get_selectors_from_expression(&e).is_empty());
    assert!(get_selectors_from_expression(&Expr::Str("x".to_string())).is_empty());
}

#[test]
fn duration_merge_examples() {
    assert_eq!(merge_for_texts(&texts(&[Some("1h"), Some("5h")])), Duration::Hours(1));
    assert_eq!(merge_for_texts(&texts(&[Some("1m"), Some("30s")])), Duration::Hours(1));
    assert_eq!(merge_for_texts(&texts(&[None, Some("x"), Some("5"), Some("3q")])), Duration::Hours(1));
    assert_eq!(merge_for_texts(&texts(&[])), Duration::Hours(1));
    assert_eq!(merge_for_texts(&texts(&[Some("5h"), Some("2h"), Some("3d")])), Duration::Hours(2));
    assert_eq!(merge_for_texts(&texts(&[Some("1w"), Some("120m")])), Duration::Minutes(120));
}

#[test]
fn duration_parse_and_text() {
    assert_eq!(parse_for("5h"), Some(Duration::Hours(5)));
    assert_eq!(parse_for("30s"), Some(Duration::Seconds(30)));
    assert_eq!(parse_for("2y"), Some(Duration::Years(2)));
    assert_eq!(parse_for("h"), None);
    assert_eq!(parse_for(""), None);
    assert_eq!(parse_for("5x"), None);
    assert_eq!(parse_for("a5h"), None);
    assert_eq!(parse_for("99999999999999999999h"), None);
    assert_eq!(parse_for("18446744073709551615s"), Some(Duration::Seconds(u64::MAX)));
    assert_eq!(Duration::Minutes(90).to_text(), "90m");
    assert_eq!(Duration::Weeks(0).to_text(), "0w");
    assert_eq!(Duration::Days(1234567).seconds(), 1234567u128 * 86400);
}

#[test]
fn name_synthesis_examples() {
    let s = match parse_query(r#"foo{level=~"error|fatal"}[15m]"#).unwrap() {
        Expr::Selector(s) => s,
        _ => panic!("not a selector"),
    };
    let name = build_absent_selector_alert_name(&s);
    assert!(name.contains("_regexequal_"));
    assert!(name.ends_with("_15m"));
    assert!(is_identifier(&name));
    let with_offset = VectorSelector {
        metric: Some("m".to_string()),
        labels: vec![LabelMatcher { key: "k".to_string(), op: MatchOp::RegexNotEqual, value: "a.b-c".to_string() }],
        range: Some(Duration::Minutes(5)),
        offset: Some(Duration::Hours(1)),
        subquery: None,
    };
    assert_eq!(build_absent_selector_alert_name(&with_offset), "absent_m_k_regexnotequal_a_b_c_5m_offset_1h");
    let no_metric = VectorSelector { metric: None, labels: vec![], range: None, offset: None, subquery: None };
    assert_eq!(build_absent_selector_alert_name(&no_metric), "absent_");
}

#[test]
fn canonical_text_quotes_values() {
    let s = VectorSelector {
        metric: Some("m".to_string()),
        labels: vec![
            LabelMatcher { key: "a".to_string(), op: MatchOp::Equal, value: "x\"y\\z".to_string() },
            LabelMatcher { key: "b".to_string(), op: MatchOp::NotEqual, value: "".to_string() },
        ],
        range: None,
        offset: Some(Duration::Minutes(5)),
        subquery: None,
    };
    assert_eq!(s.to_text(), r#"m{a="x\"y\\z",b!=""} offset 5m"#);
}

#[test]
fn wrapping_policy() {
    let ranged = VectorSelector { metric: Some("m".to_string()), labels: vec![], range: Some(Duration::Minutes(5)), offset: None, subquery: None };
    let plain = VectorSelector { metric: Some("m".to_string()), labels: vec![], range: None, offset: None, subquery: None };
    let w = wrap_selector_in_absent(&ranged);
    assert_eq!(w, "absent_over_time(m[5m])");
    assert_eq!(wrap_selector_in_absent(&plain), "absent(m)");
    match parse_query(&w).unwrap() {
        Expr::Function { name, args } => {
            assert_eq!(name, "absent_over_time");
            assert_eq!(args.len(), 1);
            match &args[0] {
                Expr::Selector(s) => assert_eq!(s, &ranged),
                _ => panic!("argument is not a selector"),
            }
        }
        _ => panic!("not a function call"),
    }
}

#[test]
fn grouping_merges_across_files_and_sorts() {
    let a = get_selectors_in_rules(&vec![rule("b_metric + a_metric")]).unwrap();
    let b = get_selectors_in_rules(&vec![rule("a_metric * 2")]).unwrap();
    let mut all = a;
    all.extend(b);
    let groups = group_selectors(all, &vec![]);
    let keys: Vec<&str> = groups.iter().map(|g| g.0.as_str()).collect();
    assert_eq!(keys, vec!["a_metric", "b_metric"]);
    assert_eq!(groups[0].1.len(), 2);
    assert_eq!(groups[0].1[0].rule.expr, "b_metric + a_metric");
    assert_eq!(groups[0].1[1].rule.expr, "a_metric * 2");
    assert_eq!(groups[1].1.len(), 1);
}

#[test]
fn ignore_filtering() {
    let files: Vec<FileSelectors> = vec![
        get_selectors_in_rules(&vec![rule(r#"up{job="x"} == 0"#), rule(r#"sum(up{job="x"})"#)]),
        get_selectors_in_rules(&vec![rule("kept_metric")]),
    ];
    let ignore = parse_ignore_list("# comment\nup{job=\"x\"}\n");
    let rules = generate_absent_rules(&files, &ignore, &None).unwrap();
    assert_eq!(rules.len(), 1);
    assert_eq!(rules[0].alert, "absent_kept_metric");
}

#[test]
fn failure_containment() {
    let files: Vec<FileSelectors> = vec![
        get_selectors_in_rules(&vec![rule("good_metric")]),
        get_selectors_in_rules(&vec![rule("sum(")]),
    ];
    assert!(files[0].is_ok());
    match &files[1] {
        Err(errors) => {
            assert_eq!(errors.len(), 1);
            assert_eq!(errors[0].kind, RuleErrorKind::InvalidExpression);
            assert_eq!(errors[0].text, "sum(");
        }
        Ok(_) => panic!("a broken expression must be reported"),
    }
    assert!(generate_absent_rules(&files, &vec![], &None).is_none());
}

#[test]
fn record_names_must_be_selectors() {
    let r = PrometheusRule { expr: "a + b".to_string(), for_value: None, record: Some("a + b".to_string()) };
    let (occs, errs) = selectors_for_rule(&r, parse_query("a + b"), Some(parse_query("a + b")));
    assert_eq!(occs.len(), 2);
    assert_eq!(errs.len(), 1);
    assert_eq!(errs[0].kind, RuleErrorKind::RecordNotSelector);
    let (occs, errs) = selectors_for_rule(&r, parse_query("a + b"), Some(parse_query("((")));
    assert_eq!(occs.len(), 2);
    assert_eq!(errs[0].kind, RuleErrorKind::InvalidRecord);
    let (occs, errs) = selectors_for_rule(&r, parse_query("(("), Some(parse_query("a")));
    assert!(occs.is_empty());
    assert_eq!(errs[0].kind, RuleErrorKind::InvalidExpression);
    let (occs, errs) = selectors_for_rule(&r, parse_query("a"), Some(parse_query("rec:x")));
    assert_eq!(occs.len(), 2);
    assert_eq!(occs[1].selector.to_text(), "rec:x");
    assert!(errs.is_empty());
}

#[test]
fn ignore_list_lines() {
    let entries = parse_ignore_list("a\r\n  # note\n\nb{x=\"1\"}\n#c");
    assert_eq!(entries, vec!["a".to_string(), "".to_string(), "b{x=\"1\"}".to_string()]);
    assert!(parse_ignore_list("").is_empty());
    assert_eq!(parse_ignore_list("\u{2003}#x\nkeep"), vec!["keep".to_string()]);
}

#[test]
fn text_order_is_string_order() {
    assert!(is_text_less("a", "b"));
    assert!(is_text_less("a", "ab"));
    assert!(!is_text_less("ab", "ab"));
    assert!(!is_text_less("b", "a{"));
    assert!(is_text_less("Z", "a"));
}

#[test]
fn run_rule_fields() {
    let files: Vec<FileSelectors> = vec![get_selectors_in_rules(&vec![PrometheusRule {
        expr: "rate(x[5m]) > 0".to_string(),
        for_value: Some("3h".to_string()),
        record: None,
    }])];
    let rules = generate_absent_rules(&files, &vec![], &Some("http://p".to_string())).unwrap();
    assert_eq!(rules.len(), 1);
    assert_eq!(rules[0].expr, "absent_over_time(x[5m])");
    assert_eq!(rules[0].for_text, "3h");
    assert_eq!(rules[0].alert, "absent_x_5m");
    assert_eq!(rules[0].labels[1], ("playbook".to_string(), "http://p".to_string()));
    assert_eq!(rules[0].annotations[1], ("summary".to_string(), "No data for 'x[5m]'".to_string()));
}

#[test]
fn malformed_for_fails_the_file() {
    let rules = vec![PrometheusRule { expr: "up".to_string(), for_value: Some("5x".to_string()), record: None }];
    match get_selectors_in_rules(&rules) {
        Err(errors) => {
            assert_eq!(errors.len(), 1);
            assert_eq!(errors[0].kind, RuleErrorKind::MalformedFor);
            assert_eq!(errors[0].text, "5x");
        }
        Ok(_) => panic!("a malformed for must be reported"),
    }
    let files: Vec<FileSelectors> = vec![
        get_selectors_in_rules(&vec![rule("good_metric")]),
        get_selectors_in_rules(&rules),
    ];
    assert!(generate_absent_rules(&files, &vec![], &None).is_none());
    let fine = vec![PrometheusRule { expr: "up".to_string(), for_value: Some("10m".to_string()), record: None }];
    assert!(get_selectors_in_rules(&fine).is_ok());
}

#[test]
fn selector_without_metric_fails_the_file() {
    let rules = vec![rule(r#"{job="x"} == 0"#)];
    match get_selectors_in_rules(&rules) {
        Err(errors) => {
            assert_eq!(errors.len(), 1);
            assert_eq!(errors[0].kind, RuleErrorKind::MissingMetric);
            assert_eq!(errors[0].text, r#"{job="x"}"#);
        }
        Ok(_) => panic!("a selector without a metric must be reported"),
    }
}

#[test]
fn subquery_is_kept() {
    let s = match parse_query("foo[5m:1m]").unwrap() {
        Expr::Selector(s) => s,
        _ => panic!("not a selector"),
    };
    assert_eq!(
        s.subquery,
        Some(SubqueryWindow { range: Duration::Minutes(5), resolution: Some(Duration::Minutes(1)) })
    );
    assert_eq!(s.to_text(), "foo[5m:1m]");
    assert_eq!(wrap_selector_in_absent(&s), "absent(foo[5m:1m])");
    assert_eq!(build_absent_selector_alert_name(&s), "absent_foo");
    let plain = match parse_query("foo").unwrap() {
        Expr::Selector(s) => s,
        _ => panic!("not a selector"),
    };
    assert_ne!(plain.to_text(), s.to_text());
}

#[test]
fn ignore_list_keeps_final_carriage_return() {
    assert_eq!(parse_ignore_list("a\r\nb\r"), vec!["a".to_string(), "b\r".to_string()]);
}

#[test]
fn output_file_is_not_read() {
    let paths = vec![Some("/r/a.rules.yml".to_string()), Some("/r/absent.rules.yml".to_string())];
    let (read, failed) = files_to_read(&paths, &Some(Some("/r/absent.rules.yml".to_string())));
    assert_eq!(read, vec![true, false]);
    assert!(!failed);
    let (read, failed) = files_to_read(&paths, &None);
    assert_eq!(read, vec![true, true]);
    assert!(!failed);
    let (read, failed) = files_to_read(&vec![None], &Some(Some("/r/x".to_string())));
    assert_eq!(read, vec![true]);
    assert!(failed);
}
