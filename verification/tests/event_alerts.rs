use starforge::event_monitoring::{
    dedup_records,
    event_matches_pattern, event_search_text, parse_rate_alert_rule, severity_rank, AlertEngine,
    EventAlert, EventAnalytics, EventRouter, EventStore, EventTrigger, PersistedEvent,
    SorobanEvent,
};

fn sample_event() -> SorobanEvent {
    SorobanEvent {
        event_type: "contract".to_string(),
        ledger: 42,
        id: "0000000042-0000000001".to_string(),
        topic: vec!["swap".to_string(), "admin".to_string()],
        value: r#"{"amount":100,"asset":"XLM"}"#.to_string(),
    }
}

fn event_at(ledger: u32, topic: &str) -> SorobanEvent {
    SorobanEvent {
        event_type: "contract".to_string(),
        ledger,
        id: format!("{:010}-0000000001", ledger),
        topic: vec![topic.to_string()],
        value: r#"{"amount":5}"#.to_string(),
    }
}

#[test]
fn patterns_match_topics_and_values() {
    let event = sample_event();
    assert!(event_matches_pattern(&event, "swap"));
    assert!(event_matches_pattern(&event, "xlm"));
    assert!(!event_matches_pattern(&event, "missing"));
}

#[test]
fn routes_are_parsed_and_applied() {
    let router = EventRouter::from_specs(&["dex=swap".to_string()]).unwrap();
    assert_eq!(router.route(&sample_event()), vec!["dex".to_string()]);
}

#[test]
fn alerts_are_parsed_and_applied() {
    let mut engine = AlertEngine::from_specs(&["critical:admin:admin event".to_string()]).unwrap();
    let alerts = engine.evaluate(&sample_event());
    assert_eq!(alerts.len(), 1);
    assert_eq!(alerts[0].severity, "critical");
    assert_eq!(alerts[0].message, "admin event");
}

#[test]
fn analytics_dashboard_includes_counts_and_recent_events() {
    let event = sample_event();
    let persisted = PersistedEvent::new(
        "testnet",
        "C123",
        event,
        vec!["dex".to_string()],
        vec![EventAlert {
            rule_id: "alert-1".to_string(),
            severity: "critical".to_string(),
            message: "admin event".to_string(),
        }],
    );
    let analytics = EventAnalytics::from_events(&[persisted]);
    let dashboard = analytics.render_dashboard();
    assert!(dashboard.contains("Event Analytics Dashboard"));
    assert!(dashboard.contains("Total events : 1"));
    assert!(dashboard.contains("Alerts fired : 1"));
    assert!(dashboard.contains("By route:"));
    assert!(dashboard.contains("Recent events:"));
}

#[test]
fn pattern_expressions_support_scopes_and_boolean_logic() {
    let event = sample_event();
    assert!(event_matches_pattern(&event, "topic~swap"));
    assert!(!event_matches_pattern(&event, "topic~xlm"));
    assert!(event_matches_pattern(&event, "value~xlm"));
    assert!(event_matches_pattern(&event, "type~contract & topic~admin"));
    assert!(!event_matches_pattern(&event, "topic~swap & !topic~admin"));
    assert!(event_matches_pattern(&event, "topic~mint | topic~swap"));
    assert!(event_matches_pattern(&event, "ledger>=42 & ledger<43"));
    assert!(!event_matches_pattern(&event, "ledger>42"));
}

#[test]
fn rate_alert_spec_parsing() {
    let rule = parse_rate_alert_rule("critical:topic~transfer:3/10:transfer burst", 0).unwrap();
    assert_eq!(rule.severity, "critical");
    assert_eq!(rule.pattern, "topic~transfer");
    assert_eq!(rule.count, 3);
    assert_eq!(rule.window_ledgers, 10);
    assert_eq!(rule.message, "transfer burst");

    let rule = parse_rate_alert_rule("mint:2/5", 1).unwrap();
    assert_eq!(rule.severity, "high");
    assert_eq!(rule.id, "rate-alert-2");

    assert!(parse_rate_alert_rule("critical:transfer", 0).is_err());
    assert!(parse_rate_alert_rule("critical:transfer:0/5", 0).is_err());
}

#[test]
fn rate_alerts_fire_on_bursts_and_respect_cooldown() {
    let mut engine =
        AlertEngine::from_all_specs(&[], &["critical:transfer:3/10:burst".to_string()]).unwrap();
    assert!(engine.evaluate(&event_at(100, "transfer")).is_empty());
    assert!(engine.evaluate(&event_at(101, "mint")).is_empty());
    assert!(engine.evaluate(&event_at(102, "transfer")).is_empty());
    let fired = engine.evaluate(&event_at(104, "transfer"));
    assert_eq!(fired.len(), 1);
    assert_eq!(fired[0].severity, "critical");
    assert!(fired[0].message.starts_with("burst"));

    assert!(engine.evaluate(&event_at(105, "transfer")).is_empty());
    let mut sparse = AlertEngine::from_all_specs(&[], &["transfer:3/10".to_string()]).unwrap();
    for ledger in [100, 120, 140] {
        assert!(sparse.evaluate(&event_at(ledger, "transfer")).is_empty());
    }
}

#[test]
fn dashboard_reports_rate_and_top_topics() {
    let events: Vec<PersistedEvent> = [(10, "swap"), (11, "swap"), (12, "mint")]
        .iter()
        .map(|(ledger, topic)| {
            PersistedEvent::new("testnet", "C123", event_at(*ledger, topic), Vec::new(), Vec::new())
        })
        .collect();
    let analytics = EventAnalytics::from_events(&events);
    // the events-per-ledger rate, from the recorded range
    let span = (analytics.last_ledger.unwrap() - analytics.first_ledger.unwrap() + 1) as f64;
    assert_eq!(Some(analytics.total_events as f64 / span), Some(1.0));
    assert_eq!(analytics.top_topics(1), vec![("swap".to_string(), 2usize)]);
    let dashboard = analytics.render_dashboard();
    assert!(dashboard.contains("Event rate   : 1.00 events/ledger"));
    assert!(dashboard.contains("Top topics:"));
}

#[test]
fn severity_rank_orders_levels() {
    assert!(severity_rank("critical") > severity_rank("high"));
    assert!(severity_rank("high") > severity_rank("medium"));
    assert!(severity_rank("low") > severity_rank("info"));
}

#[test]
fn replay_range_filters_and_orders_in_memory() {
    let store = EventStore::new("events.jsonl".to_string());
    let events: Vec<PersistedEvent> = [30, 10, 20]
        .iter()
        .map(|l| PersistedEvent::new("testnet", "C123", event_at(*l, "swap"), Vec::new(), Vec::new()))
        .collect();
    let all = store.replay_range(events.clone(), None, None).unwrap();
    let ledgers: Vec<u32> = all.iter().map(|e| e.event.ledger).collect();
    assert_eq!(ledgers, vec![10, 20, 30]);
    let ranged = store.replay_range(events.clone(), Some(15), Some(30)).unwrap();
    let ledgers: Vec<u32> = ranged.iter().map(|e| e.event.ledger).collect();
    assert_eq!(ledgers, vec![20, 30]);
    assert_eq!(
        store.replay_range(events, Some(40), Some(10)).unwrap_err(),
        "invalid replay range: --from-ledger 40 is after --to-ledger 10"
    );
    assert_eq!(store.path(), "events.jsonl");
}

#[test]
fn identity_and_search_text() {
    let p = PersistedEvent::new("testnet", "C123", sample_event(), Vec::new(), Vec::new());
    assert_eq!(p.identity(), "testnet:C123:0000000042-0000000001");
    assert_eq!(
        event_search_text(&sample_event()),
        r#"contract 42 0000000042-0000000001 swap admin {"amount":100,"asset":"XLM"}"#
    );
}

#[test]
fn route_and_trigger_errors() {
    assert_eq!(
        EventRouter::from_specs(&["nope".to_string()]).unwrap_err(),
        "invalid route 'nope'; expected name=pattern (example: swaps=swap)"
    );
    assert_eq!(
        EventRouter::from_specs(&["a= ".to_string()]).unwrap_err(),
        "invalid route 'a= '; name and pattern cannot be empty"
    );
    let t = EventTrigger::from_specs(&["mint = ./on-mint.sh".to_string()]).unwrap();
    assert_eq!(t[0].pattern, "mint");
    assert_eq!(t[0].command, "./on-mint.sh");
    assert!(t[0].matches(&event_at(1, "mint")));
    assert!(EventTrigger::from_specs(&["=x".to_string()]).is_err());
}

#[test]
fn alert_rule_defaults() {
    let engine = AlertEngine::from_specs(&["swap".to_string(), "bogus:a:b".to_string()]).unwrap();
    assert_eq!(engine.rule_count(), 2);
    let mut engine = engine;
    let alerts = engine.evaluate(&sample_event());
    assert_eq!(alerts.len(), 1);
    assert_eq!(alerts[0].rule_id, "alert-1");
    assert_eq!(alerts[0].severity, "high");
    assert_eq!(alerts[0].message, "matched event pattern 'swap'");
}

#[test]
fn star_and_empty_patterns_match_everything() {
    let e = sample_event();
    assert!(event_matches_pattern(&e, "*"));
    assert!(event_matches_pattern(&e, "   "));
    assert!(event_matches_pattern(&e, "LEDGER=42"));
    assert!(event_matches_pattern(&e, "id~0042"));
    assert!(!event_matches_pattern(&e, " & "));
}

#[test]
fn analytics_counts_are_sorted_and_recent_is_bounded() {
    let mut a = EventAnalytics::new();
    for l in 0..12u32 {
        let topic = if l % 2 == 0 { "b" } else { "a" };
        let p = PersistedEvent::new("n", "c", event_at(l, topic), vec!["r".to_string()], Vec::new());
        a.record(&p);
    }
    assert_eq!(a.total_events, 12);
    assert_eq!(a.recent.len(), 10);
    assert_eq!(a.by_topic, vec![("a".to_string(), 6), ("b".to_string(), 6)]);
    assert_eq!(a.top_topics(5), vec![("a".to_string(), 6), ("b".to_string(), 6)]);
    assert_eq!(a.first_ledger, Some(0));
    assert_eq!(a.last_ledger, Some(11));
}

#[test]
fn replay_range_keeps_order_within_a_ledger() {
    let store = EventStore::new("events.jsonl".to_string());
    let events: Vec<PersistedEvent> = [(20, "a"), (10, "b"), (20, "c"), (10, "d")]
        .iter()
        .map(|(l, t)| PersistedEvent::new("testnet", "C123", event_at(*l, t), Vec::new(), Vec::new()))
        .collect();
    let all = store.replay_range(events, None, None).unwrap();
    let order: Vec<(u32, String)> =
        all.iter().map(|e| (e.event.ledger, e.event.topic[0].clone())).collect();
    assert_eq!(
        order,
        vec![
            (10, "b".to_string()),
            (10, "d".to_string()),
            (20, "a".to_string()),
            (20, "c".to_string()),
        ]
    );
}

#[test]
fn analytics_counts_do_not_depend_on_event_order() {
    let make = |l: u32, t: &str, route: &str| {
        PersistedEvent::new("testnet", "C123", event_at(l, t), vec![route.to_string()], Vec::new())
    };
    let events = vec![
        make(30, "swap", "webhook"),
        make(10, "mint", "log"),
        make(20, "swap", "log"),
        make(15, "burn", "webhook"),
    ];
    let mut reversed = events.clone();
    reversed.reverse();
    let a = EventAnalytics::from_events(&events);
    let b = EventAnalytics::from_events(&reversed);
    assert_eq!(a.total_events, b.total_events);
    assert_eq!(a.alert_count, b.alert_count);
    assert_eq!((a.first_ledger, a.last_ledger), (Some(10), Some(30)));
    assert_eq!((b.first_ledger, b.last_ledger), (Some(10), Some(30)));
    assert_eq!(a.by_type, b.by_type);
    assert_eq!(a.by_route, b.by_route);
    assert_eq!(a.by_topic, b.by_topic);
    assert_eq!(a.by_alert_severity, b.by_alert_severity);
    assert_eq!(
        a.by_topic,
        vec![("burn".to_string(), 1), ("mint".to_string(), 1), ("swap".to_string(), 2)]
    );
    assert_eq!(a.by_route, vec![("log".to_string(), 2), ("webhook".to_string(), 2)]);
}

#[test]
fn replayed_records_keep_the_first_of_each_identity() {
    let a = PersistedEvent::new("testnet", "C123", event_at(10, "first"), Vec::new(), Vec::new());
    let b = PersistedEvent::new("testnet", "C123", event_at(10, "again"), Vec::new(), Vec::new());
    let c = PersistedEvent::new("testnet", "C123", event_at(11, "other"), Vec::new(), Vec::new());
    let kept = dedup_records(vec![a, b, c]);
    let topics: Vec<String> = kept.iter().map(|e| e.event.topic[0].clone()).collect();
    assert_eq!(topics, vec!["first".to_string(), "other".to_string()]);
}
