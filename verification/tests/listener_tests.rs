use sonic_supervisord_utilities::policy::{ConfigDBTrait, FatalConfig, PolicyCache, PolicyFailure};
use sonic_supervisord_utilities::supervisor_proc_exit_listener::{
    alert_priority, alert_status, crash_event_params, declared_payload_len,
    generate_alerting_message, get_group_and_process_list, namespace_of, AlertKind, ListenerCore,
    NotificationOutcome, ALERTING_INTERVAL_SECS,
};

struct FakeDb {
    features: Vec<(String, Vec<(String, String)>)>,
    heartbeats: Vec<(String, Vec<(String, String)>)>,
    fail: bool,
}

impl FakeDb {
    fn with_autorestart(container: &str, state: &str) -> FakeDb {
        FakeDb {
            features: vec![(
                container.to_string(),
                vec![("auto_restart".to_string(), state.to_string())],
            )],
            heartbeats: vec![],
            fail: false,
        }
    }
}

impl ConfigDBTrait for FakeDb {
    fn get_table(&self, table: &str) -> Result<Vec<(String, Vec<(String, String)>)>, String> {
        if self.fail {
            return Err("store unreachable".to_string());
        }
        if table == "FEATURE" {
            Ok(self.features.clone())
        } else if table == "HEARTBEAT" {
            Ok(self.heartbeats.clone())
        } else {
            Ok(vec![])
        }
    }
}

fn core_with_critical(container: &str, process: &str) -> ListenerCore {
    ListenerCore::new(
        container.to_string(),
        vec![],
        vec![process.to_string()],
        vec![],
    )
}

const EXIT_LINE: &str = "ver:3.0 server:supervisor serial:1 pool:supervisor poolserial:1 eventname:PROCESS_STATE_EXITED len:47";
const EXIT_PAYLOAD: &str = "processname:cat groupname:cat from_state:RUNNING expected:0\n";

#[test]
fn test_disabled_policy_creates_record_and_first_alert_after_interval() {
    let db = FakeDb::with_autorestart("mycontainer", "disabled");
    let mut core = core_with_critical("mycontainer", "cat");
    let t0: u64 = 10_000;

    let outcome = core.handle_notification(&db, EXIT_LINE, EXIT_PAYLOAD, t0);
    assert!(matches!(outcome, NotificationOutcome::Acknowledge));
    assert_eq!(core.process_under_alerting.entries.len(), 1);
    assert_eq!(core.process_under_alerting.entries[0].0, "cat");
    assert_eq!(core.process_under_alerting.entries[0].1.last_alerted_ms, t0);
    assert_eq!(core.process_under_alerting.entries[0].1.dead_minutes, 0);

    // No alert fires before one full interval has elapsed.
    let alerts = core.check_dead_alerts(t0 + ALERTING_INTERVAL_SECS * 1000 - 1);
    assert!(alerts.is_empty());
    assert_eq!(core.process_under_alerting.entries[0].1.dead_minutes, 0);

    // After the interval, exactly one alert fires and a whole minute is charged.
    let t1 = t0 + ALERTING_INTERVAL_SECS * 1000;
    let alerts = core.check_dead_alerts(t1);
    assert_eq!(alerts.len(), 1);
    assert_eq!(alerts[0].process_name, "cat");
    assert_eq!(alerts[0].minutes, 1);
    assert!(matches!(alerts[0].kind, AlertKind::NotRunning));
    assert_eq!(core.process_under_alerting.entries[0].1.dead_minutes, 1);
    assert_eq!(core.process_under_alerting.entries[0].1.last_alerted_ms, t1);

    // The counter never decreases across further ticks.
    let alerts = core.check_dead_alerts(t1 + 30_000);
    assert!(alerts.is_empty());
    assert_eq!(core.process_under_alerting.entries[0].1.dead_minutes, 1);
    let alerts = core.check_dead_alerts(t1 + 120_000);
    assert_eq!(alerts.len(), 1);
    assert_eq!(alerts[0].minutes, 3);
    assert_eq!(core.process_under_alerting.entries[0].1.dead_minutes, 3);
}

#[test]
fn test_enabled_policy_decides_termination_and_keeps_no_record() {
    let db = FakeDb::with_autorestart("mycontainer", "enabled");
    let mut core = core_with_critical("mycontainer", "cat");

    let outcome = core.handle_notification(&db, EXIT_LINE, EXIT_PAYLOAD, 5_000);
    match outcome {
        NotificationOutcome::Terminate { process_name, container_name } => {
            assert_eq!(process_name, "cat");
            assert_eq!(container_name, "mycontainer");
        },
        other => panic!("expected a termination decision, got {:?}", other),
    }
    assert!(core.process_under_alerting.entries.is_empty());
}

#[test]
fn test_end_to_end_exit_notification() {
    // The full path of one notification: declared length first, then
    // dispatch, then the decision the loop must act on.
    let db = FakeDb::with_autorestart("mycontainer", "enabled");
    let mut core = core_with_critical("mycontainer", "cat");

    assert_eq!(declared_payload_len(EXIT_LINE), Some(47));
    let outcome = core.handle_notification(&db, EXIT_LINE, EXIT_PAYLOAD, 1_000);
    let (process_name, container_name) = match outcome {
        NotificationOutcome::Terminate { process_name, container_name } => {
            (process_name, container_name)
        },
        other => panic!("expected a termination decision, got {:?}", other),
    };
    let params = crash_event_params(&process_name, &container_name);
    assert_eq!(params.len(), 2);
    assert_eq!(params[0], ("process_name".to_string(), "cat".to_string()));
    assert_eq!(params[1], ("ctr_name".to_string(), "mycontainer".to_string()));
    assert!(core.process_under_alerting.entries.is_empty());
}

#[test]
fn test_missing_len_header_is_dropped() {
    let line = "ver:3.0 server:supervisor serial:1 eventname:PROCESS_STATE_EXITED";
    assert_eq!(declared_payload_len(line), None);
    assert_eq!(
        declared_payload_len("ver:3.0 eventname:PROCESS_STATE_EXITED len:junk"),
        Some(0)
    );
}

#[test]
fn test_running_event_clears_record_and_silences_alerts() {
    let db = FakeDb::with_autorestart("mycontainer", "disabled");
    let mut core = core_with_critical("mycontainer", "cat");

    core.handle_notification(&db, EXIT_LINE, EXIT_PAYLOAD, 0);
    assert_eq!(core.process_under_alerting.entries.len(), 1);

    let running_line = "ver:3.0 eventname:PROCESS_STATE_RUNNING len:40";
    let running_payload = "processname:cat groupname:cat from_state:STARTING expected:1\n";
    let outcome = core.handle_notification(&db, running_line, running_payload, 1_000);
    assert!(matches!(outcome, NotificationOutcome::Acknowledge));
    assert!(core.process_under_alerting.entries.is_empty());

    let alerts = core.check_dead_alerts(10 * 60 * 1000);
    assert!(alerts.is_empty());
}

#[test]
fn test_expected_exit_and_noncritical_exit_do_nothing() {
    let db = FakeDb::with_autorestart("mycontainer", "enabled");
    let mut core = core_with_critical("mycontainer", "cat");

    let expected_payload = "processname:cat groupname:cat from_state:RUNNING expected:1\n";
    let outcome = core.handle_notification(&db, EXIT_LINE, expected_payload, 0);
    assert!(matches!(outcome, NotificationOutcome::Acknowledge));
    assert!(core.process_under_alerting.entries.is_empty());

    let other_payload = "processname:dog groupname:dog from_state:RUNNING expected:0\n";
    let outcome = core.handle_notification(&db, EXIT_LINE, other_payload, 0);
    assert!(matches!(outcome, NotificationOutcome::Acknowledge));
    assert!(core.process_under_alerting.entries.is_empty());
}

#[test]
fn test_critical_group_membership_counts() {
    let db = FakeDb::with_autorestart("mycontainer", "enabled");
    let mut core = ListenerCore::new(
        "mycontainer".to_string(),
        vec!["cat".to_string()],
        vec![],
        vec![],
    );
    let outcome = core.handle_notification(&db, EXIT_LINE, EXIT_PAYLOAD, 0);
    assert!(matches!(outcome, NotificationOutcome::Terminate { .. }));
}

#[test]
fn test_store_failure_still_acknowledges() {
    let mut db = FakeDb::with_autorestart("mycontainer", "enabled");
    db.fail = true;
    let mut core = core_with_critical("mycontainer", "cat");
    let outcome = core.handle_notification(&db, EXIT_LINE, EXIT_PAYLOAD, 0);
    assert!(matches!(outcome, NotificationOutcome::Acknowledge));
    assert!(core.process_under_alerting.entries.is_empty());
}

#[test]
fn test_store_failure_outcome_leaves_existing_records() {
    // A pending record survives a policy read that failed at the store,
    // and the notification is still acknowledged.
    let db = FakeDb::with_autorestart("mycontainer", "disabled");
    let mut core = core_with_critical("mycontainer", "cat");
    core.handle_notification(&db, EXIT_LINE, EXIT_PAYLOAD, 0);
    assert_eq!(core.process_under_alerting.entries.len(), 1);

    let outcome = core.apply_policy_outcome(
        &"dog".to_string(),
        Err(PolicyFailure::Store("store unreachable".to_string())),
        1_000,
    );
    assert!(matches!(outcome, NotificationOutcome::Acknowledge));
    assert_eq!(core.process_under_alerting.entries.len(), 1);
    assert_eq!(core.process_under_alerting.entries[0].0, "cat");

    let outcome = core.apply_policy_outcome(
        &"dog".to_string(),
        Err(PolicyFailure::Fatal(FatalConfig::EmptyFeatureTable)),
        2_000,
    );
    assert!(matches!(
        outcome,
        NotificationOutcome::Fatal(FatalConfig::EmptyFeatureTable)
    ));
    assert_eq!(core.process_under_alerting.entries.len(), 1);
}

#[test]
fn test_missing_feature_is_fatal() {
    let db = FakeDb::with_autorestart("othercontainer", "enabled");
    let mut core = core_with_critical("mycontainer", "cat");
    let outcome = core.handle_notification(&db, EXIT_LINE, EXIT_PAYLOAD, 0);
    assert!(matches!(
        outcome,
        NotificationOutcome::Fatal(FatalConfig::MissingFeature)
    ));
}

#[test]
fn test_unknown_event_is_acknowledged_untouched() {
    let db = FakeDb::with_autorestart("mycontainer", "disabled");
    let mut core = core_with_critical("mycontainer", "cat");
    let line = "ver:3.0 eventname:TICK_60 len:15";
    let outcome = core.handle_notification(&db, line, "when:1234567890\n", 0);
    assert!(matches!(outcome, NotificationOutcome::Acknowledge));
    assert!(core.process_under_alerting.entries.is_empty());
    assert!(core.process_heart_beat_info.entries.is_empty());
}

#[test]
fn test_heartbeat_stuck_alerts_every_tick_until_activity() {
    let db = FakeDb::with_autorestart("mycontainer", "disabled");
    let mut core = ListenerCore::new(
        "mycontainer".to_string(),
        vec![],
        vec![],
        vec!["mon".to_string()],
    );
    let mut cache = PolicyCache::new();

    let stdout_line = "ver:3.0 eventname:PROCESS_COMMUNICATION_STDOUT len:30";
    let stdout_payload = "processname:mon groupname:mon\nheartbeat body";
    let t0: u64 = 1_000;
    let outcome = core.handle_notification(&db, stdout_line, stdout_payload, t0);
    assert!(matches!(outcome, NotificationOutcome::Acknowledge));
    assert_eq!(core.process_heart_beat_info.entries.len(), 1);
    assert_eq!(core.process_heart_beat_info.entries[0].0, "mon");
    assert_eq!(core.process_heart_beat_info.entries[0].1, t0);

    // Silent but not yet past the default interval: quiet.
    let alerts = core.check_heartbeat_alerts(&mut cache, &db, t0 + 59_999);
    assert!(alerts.is_empty());

    // Past the interval: a stuck alert, and again on every later tick.
    let alerts = core.check_heartbeat_alerts(&mut cache, &db, t0 + 60_000);
    assert_eq!(alerts.len(), 1);
    assert_eq!(alerts[0].process_name, "mon");
    assert_eq!(alerts[0].minutes, 1);
    assert!(matches!(alerts[0].kind, AlertKind::Stuck));
    let alerts = core.check_heartbeat_alerts(&mut cache, &db, t0 + 61_000);
    assert_eq!(alerts.len(), 1);
    let alerts = core.check_heartbeat_alerts(&mut cache, &db, t0 + 180_000);
    assert_eq!(alerts.len(), 1);
    assert_eq!(alerts[0].minutes, 3);

    // New activity resets the clock and silences the alerts.
    let t1 = t0 + 200_000;
    core.handle_notification(&db, stdout_line, stdout_payload, t1);
    let alerts = core.check_heartbeat_alerts(&mut cache, &db, t1 + 10_000);
    assert!(alerts.is_empty());
}

#[test]
fn test_heartbeat_interval_override_from_store() {
    let mut db = FakeDb::with_autorestart("mycontainer", "disabled");
    db.heartbeats = vec![
        (
            "mon".to_string(),
            vec![("alert_interval".to_string(), "5000".to_string())],
        ),
        (
            "bad".to_string(),
            vec![("alert_interval".to_string(), "-100".to_string())],
        ),
        (
            "junk".to_string(),
            vec![("alert_interval".to_string(), "soon".to_string())],
        ),
        (
            "zero".to_string(),
            vec![("alert_interval".to_string(), "0".to_string())],
        ),
    ];
    let mut cache = PolicyCache::new();
    assert_eq!(cache.get_heartbeat_alert_interval("mon", &db), 5_000);
    assert_eq!(cache.get_heartbeat_alert_interval("bad", &db), 60_000);
    assert_eq!(cache.get_heartbeat_alert_interval("junk", &db), 60_000);
    assert_eq!(cache.get_heartbeat_alert_interval("zero", &db), 60_000);
    assert_eq!(cache.get_heartbeat_alert_interval("other", &db), 60_000);

    let mut core = ListenerCore::new(
        "mycontainer".to_string(),
        vec![],
        vec![],
        vec!["mon".to_string()],
    );
    let stdout_line = "ver:3.0 eventname:PROCESS_COMMUNICATION_STDOUT len:15";
    core.handle_notification(&db, stdout_line, "processname:mon\n", 0);
    let alerts = core.check_heartbeat_alerts(&mut cache, &db, 4_999);
    assert!(alerts.is_empty());
    let alerts = core.check_heartbeat_alerts(&mut cache, &db, 5_000);
    assert_eq!(alerts.len(), 1);
    assert_eq!(alerts[0].minutes, 0);
}

#[test]
fn test_unwatched_stdout_is_ignored() {
    let db = FakeDb::with_autorestart("mycontainer", "disabled");
    let mut core = ListenerCore::new(
        "mycontainer".to_string(),
        vec![],
        vec![],
        vec!["mon".to_string()],
    );
    let stdout_line = "ver:3.0 eventname:PROCESS_COMMUNICATION_STDOUT len:17";
    core.handle_notification(&db, stdout_line, "processname:other\n", 0);
    assert!(core.process_heart_beat_info.entries.is_empty());
}

#[test]
fn test_get_group_and_process_list_parses_both_kinds() {
    let lines = vec![
        "group:g1".to_string(),
        "".to_string(),
        "   ".to_string(),
        "program: p1 ".to_string(),
        "  group : g2".to_string(),
        "program:p2".to_string(),
    ];
    let (groups, programs) = get_group_and_process_list(&lines).unwrap();
    assert_eq!(groups, vec!["g1".to_string(), "g2".to_string()]);
    assert_eq!(programs, vec!["p1".to_string(), "p2".to_string()]);
}

#[test]
fn test_get_group_and_process_list_fatal_lines() {
    let bad_syntax = vec!["group:g1".to_string(), "a:b:c".to_string()];
    assert_eq!(
        get_group_and_process_list(&bad_syntax),
        Err(FatalConfig::ListLineSyntax)
    );
    let no_colon = vec!["justaword".to_string()];
    assert_eq!(
        get_group_and_process_list(&no_colon),
        Err(FatalConfig::ListLineSyntax)
    );
    let bad_key = vec!["service:s1".to_string()];
    assert_eq!(
        get_group_and_process_list(&bad_key),
        Err(FatalConfig::ListLineKey)
    );
    let empty_value = vec!["group: ".to_string()];
    assert_eq!(
        get_group_and_process_list(&empty_value),
        Err(FatalConfig::ListLineKey)
    );
}

#[test]
fn test_fatal_config_exit_codes() {
    assert_eq!(FatalConfig::EmptyFeatureTable.exit_code(), 2);
    assert_eq!(FatalConfig::MissingFeature.exit_code(), 3);
    assert_eq!(FatalConfig::MissingAutoRestart.exit_code(), 4);
    assert_eq!(FatalConfig::ListLineSyntax.exit_code(), 5);
    assert_eq!(FatalConfig::ListLineKey.exit_code(), 6);
}

#[test]
fn test_alert_message_shape() {
    assert_eq!(
        generate_alerting_message("cat", "not running", 5, "host"),
        "Process 'cat' is not running in namespace 'host' (5 minutes)."
    );
    assert_eq!(
        generate_alerting_message("mon", "stuck", 0, "asic0"),
        "Process 'mon' is stuck in namespace 'asic0' (0 minutes)."
    );
    assert_eq!(namespace_of("asic", "0"), "asic0");
    assert_eq!(namespace_of("", "0"), "host");
    assert_eq!(namespace_of("asic", ""), "host");
    assert_eq!(alert_status(AlertKind::NotRunning), "not running");
    assert_eq!(alert_status(AlertKind::Stuck), "stuck");
    assert_eq!(alert_priority(AlertKind::NotRunning), 3);
    assert_eq!(alert_priority(AlertKind::Stuck), 4);
}
