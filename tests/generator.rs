use absent_alert_rules::duration::Duration;
use absent_alert_rules::grouping::{generate_absent_rules, FileSelectors};
use absent_alert_rules::naming::{build_absent_selector_alert_name, wrap_selector_in_absent};
use absent_alert_rules::parse::parse_query;
use absent_alert_rules::rules::{
    get_selectors_in_rules, merge_selectors_into_rule, AlertRule, PrometheusAbsentSelectorAlertRule,
    PrometheusRule, SelectorWithOriginRule,
};
use absent_alert_rules::selector::{get_selectors_from_expression, Expr, VectorSelector};

fn parse_selector(text: &str) -> VectorSelector {
    match parse_query(text).expect("failed to parse expression") {
        Expr::Selector(s) => s,
        _ => panic!("Expressions must be a selector"),
    }
}

fn pairs(items: &[(&str, &str)]) -> Vec<(String, String)> {
    items.iter().map(|(k, v)| (k.to_string(), v.to_string())).collect()
}

fn bare_selector(metric: &str) -> VectorSelector {
    VectorSelector { metric: Some(metric.to_string()), labels: vec![], range: None, offset: None, subquery: None }
}

fn rule_with_for(expr: &str, for_value: &str) -> PrometheusRule {
    PrometheusRule { expr: expr.to_string(), for_value: Some(for_value.to_string()), record: None }
}

#[test]
fn test_wrap_selector_in_absent() {
    let expr_and_expected = vec![
        (
            "stack:public_http_errors_5xx_non_L3:rate1m_sum",
            "absent(stack:public_http_errors_5xx_non_L3:rate1m_sum)",
        ),
        (
            r#"publicapi_http_errors_5xx_count{is_load_shedding!="true",slo="L1"}[30s]"#,
            r#"absent_over_time(publicapi_http_errors_5xx_count{is_load_shedding!="true",slo="L1"}[30s])"#,
        ),
    ];
    for (expr, expected_expr) in expr_and_expected {
        let selector = parse_selector(expr);
        let wrapped_in_absent = wrap_selector_in_absent(&selector);
        // Make sure it produces valid syntax.
        parse_query(&wrapped_in_absent).expect("wrap_in_absent produce an invalid expression");
        assert_eq!(wrapped_in_absent, expected_expr);
    }
}

#[test]
fn test_get_selectors_from_file() {
    let rules = vec![
        PrometheusRule {
            expr: r#"node_load1{box_type="data-warehouse"} > 10"#.to_string(),
            for_value: Some("5m".to_string()),
            record: None,
        },
        PrometheusRule {
            expr: r#"rate(node_cpu_seconds_total{mode!="idle"}[1m])"#.to_string(),
            for_value: None,
            record: Some("a_recording:cpu".to_string()),
        },
    ];
    let mut actual_selectors: Vec<String> = get_selectors_in_rules(&rules)
        .expect("failed to get selectors from file")
        .iter()
        .map(|it| it.selector.to_text())
        .collect();
    actual_selectors.sort();
    let mut expected_selectors = vec![
        r#"node_load1{box_type="data-warehouse"}"#,
        "a_recording:cpu",
        r#"node_cpu_seconds_total{mode!="idle"}[1m]"#,
    ];
    expected_selectors.sort_unstable();
    assert_eq!(actual_selectors, expected_selectors);
}

#[test]
fn test_get_selectors_from_expression() {
    let expr_and_expected = vec![
        (
            "stack:public_http_errors_5xx_non_L3:rate1m_sum",
            vec!["stack:public_http_errors_5xx_non_L3:rate1m_sum"],
        ),
        (
            r#"publicapi_http_errors_5xx_count{is_load_shedding!="true",slo="L1"}[30s]"#,
            vec![r#"publicapi_http_errors_5xx_count{is_load_shedding!="true",slo="L1"}[30s]"#],
        ),
        (
            r#"count(max by(stack_id) (up{job="rabbitmq"} == 1))"#,
            vec![r#"up{job="rabbitmq"}"#],
        ),
        (
            r#"up{job="aws_rds"} == 1 unless aws_rds_free_storage_space_minimum{dbinstance_identifier=~"live-db-.\\d"}"#,
            vec![
                r#"up{job="aws_rds"}"#,
                r#"aws_rds_free_storage_space_minimum{dbinstance_identifier=~"live-db-.\\d"}"#,
            ],
        ),
        (
            r#"sum(irate(publicapi_http_request_count[30s])) by (stack_id, slo, route, method) and on(stack_id) slb_live_stack_number{slb="prod"} == 1"#,
            vec![
                "publicapi_http_request_count[30s]",
                r#"slb_live_stack_number{slb="prod"}"#,
            ],
        ),
    ];
    for (expr, expected_selectors) in expr_and_expected {
        let parsed = parse_query(expr).expect("failed to parse expression");
        let selectors: Vec<String> =
            get_selectors_from_expression(&parsed).iter().map(|s| s.to_text()).collect();
        assert_eq!(selectors, expected_selectors);
    }
    // `(month() > bool 9) + (month() < bool 4)`: the parser release available
    // here has no `bool` modifier, so the tree is written out.
    let month = || Expr::Function { name: "month".to_string(), args: vec![] };
    let bool_expr = Expr::Operator {
        lhs: Box::new(Expr::Group(Box::new(Expr::BoolOperator {
            lhs: Box::new(month()),
            rhs: Box::new(Expr::Number),
        }))),
        rhs: Box::new(Expr::Group(Box::new(Expr::BoolOperator {
            lhs: Box::new(month()),
            rhs: Box::new(Expr::Number),
        }))),
    };
    let expected: Vec<String> = vec![];
    let selectors: Vec<String> =
        get_selectors_from_expression(&bool_expr).iter().map(|s| s.to_text()).collect();
    assert_eq!(selectors, expected);
}

#[test]
fn test_build_absent_selector_alert_name() {
    let expr_and_expected = vec![
        ("stile_log_messages_logged_count{level=~\"error|fatal\",client_sent!=\"true\"}[15m]", "absent_stile_log_messages_logged_count_level_regexequal_error_fatal_client_sent_notequal_true_15m"),
        ("stack:error_log:rate15m_sum", "absent_stack:error_log:rate15m_sum"),
        ("publicapi_http_errors_5xx_count{is_load_shedding!=\"true\",is_internal_admin=\"false\",slo!=\"L3\"}[1m]", "absent_publicapi_http_errors_5xx_count_is_load_shedding_notequal_true_is_internal_admin_equal_false_slo_notequal_L3_1m"),
        ("publicapi_http_response_time_bucket[1m]", "absent_publicapi_http_response_time_bucket_1m"),
        (r#"aws_elasticache_evictions_maximum{cache_cluster_id=~"prod-redis-shard-.*"}"#, "absent_aws_elasticache_evictions_maximum_cache_cluster_id_regexequal_prod_redis_shard___"),
    ];
    for (expr, expected_name) in expr_and_expected {
        let selector = parse_selector(expr);
        let name = build_absent_selector_alert_name(&selector);
        assert_eq!(name, expected_name);
    }
}

#[test]
fn test_merge_selectors_into_rule() {
    let selectors = vec![
        SelectorWithOriginRule { selector: bare_selector("some_metric"), rule: rule_with_for("some_metric", "1h") },
        SelectorWithOriginRule { selector: bare_selector("some_metric"), rule: rule_with_for("some_metric", "5h") },
    ];
    let expected_rule: AlertRule = PrometheusAbsentSelectorAlertRule {
        name: "absent_some_metric".into(),
        expr: "absent(some_metric)".into(),
        selector_expr: "some_metric".into(),
        for_duration: Duration::Hours(1),
        labels: pairs(&[
            ("how_much_should_you_panic", "Not much (1/3)"),
            ("severity", "business_hours_page"),
        ]),
    }
    .into_rule();
    let actual_rule = merge_selectors_into_rule(&selectors, None);
    assert_eq!(actual_rule, expected_rule);
}

#[test]
fn test_merge_selectors_into_rule_min_1h() {
    let playbook_link = "test".to_string();
    let selectors = vec![
        SelectorWithOriginRule { selector: bare_selector("some_metric"), rule: rule_with_for("some_metric", "1m") },
        SelectorWithOriginRule { selector: bare_selector("some_metric"), rule: rule_with_for("some_metric", "30s") },
    ];
    let expected_rule: AlertRule = PrometheusAbsentSelectorAlertRule {
        name: "absent_some_metric".into(),
        expr: "absent(some_metric)".into(),
        selector_expr: "some_metric".into(),
        for_duration: Duration::Hours(1),
        labels: pairs(&[
            ("how_much_should_you_panic", "Not much (1/3)"),
            ("playbook", "test"),
            ("severity", "business_hours_page"),
        ]),
    }
    .into_rule();
    let actual_rule = merge_selectors_into_rule(&selectors, Some(playbook_link));
    assert_eq!(actual_rule, expected_rule);
}

#[test]
fn test_prometheus_rule_from_prometheus_absent_selector_alert_rule() {
    let rule: AlertRule = PrometheusAbsentSelectorAlertRule {
        expr: "absent(some_expr)".into(),
        for_duration: Duration::Hours(1),
        name: "this_thing".into(),
        selector_expr: "some_expr".into(),
        labels: pairs(&[
            ("how_much_should_you_panic", "Not much (1/3)"),
            ("severity", "business_hours_page"),
        ]),
    }
    .into_rule();
    let annotations = pairs(&[
        ("description", "No data for 'some_expr'. This alert rule was generated by prometheus-absent-data-alert-rule-generator."),
        ("summary", "No data for 'some_expr'"),
    ]);
    let labels = pairs(&[
        ("how_much_should_you_panic", "Not much (1/3)"),
        ("severity", "business_hours_page"),
    ]);
    let expected_rule = AlertRule {
        alert: "this_thing".into(),
        expr: "absent(some_expr)".into(),
        for_text: "1h".into(),
        labels,
        annotations,
    };
    assert_eq!(rule, expected_rule);
}

fn fixture_files() -> Vec<FileSelectors> {
    let first = vec![
        rule_with_for(r#"up{job="api"} == 0"#, "5m"),
        rule_with_for(r#"rate(http_requests_total{code=~"5.."}[5m]) > 1 and up{job="api"}"#, "2h"),
    ];
    let second = vec![rule_with_for("node_load1 > 4", "10m")];
    vec![get_selectors_in_rules(&first), get_selectors_in_rules(&second)]
}

#[test]
fn outputs_rules_in_the_same_order() {
    let ignore: Vec<String> = vec![];
    let first = generate_absent_rules(&fixture_files(), &ignore, &None).expect("failed to process fixtures");
    let second = generate_absent_rules(&fixture_files(), &ignore, &None).expect("failed to process fixtures");
    assert_eq!(first, second);
    let names: Vec<&str> = first.iter().map(|r| r.alert.as_str()).collect();
    assert_eq!(
        names,
        vec![
            "absent_http_requests_total_code_regexequal_5___5m",
            "absent_node_load1",
            "absent_up_job_equal_api",
        ]
    );
}
