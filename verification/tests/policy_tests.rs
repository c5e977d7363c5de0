use sonic_supervisord_utilities::policy::{
    autorestart_from_table, get_autorestart_state, ConfigDBTrait, FatalConfig, PolicyCache,
    PolicyFailure,
};

struct TableDb {
    features: Vec<(String, Vec<(String, String)>)>,
    fail: bool,
}

impl ConfigDBTrait for TableDb {
    fn get_table(&self, table: &str) -> Result<Vec<(String, Vec<(String, String)>)>, String> {
        if self.fail {
            return Err("connection refused".to_string());
        }
        if table == "FEATURE" {
            Ok(self.features.clone())
        } else {
            Ok(vec![])
        }
    }
}

fn feature_row(name: &str, fields: &[(&str, &str)]) -> (String, Vec<(String, String)>) {
    (
        name.to_string(),
        fields
            .iter()
            .map(|(k, v)| (k.to_string(), v.to_string()))
            .collect(),
    )
}

#[test]
fn test_autorestart_from_table_reads_the_field() {
    let table = vec![
        feature_row("swss", &[("auto_restart", "enabled")]),
        feature_row("snmp", &[("auto_restart", "disabled"), ("state", "enabled")]),
    ];
    assert_eq!(autorestart_from_table(&table, "swss"), Ok("enabled".to_string()));
    assert_eq!(autorestart_from_table(&table, "snmp"), Ok("disabled".to_string()));
}

#[test]
fn test_autorestart_from_table_fatal_cases() {
    let empty: Vec<(String, Vec<(String, String)>)> = vec![];
    assert_eq!(
        autorestart_from_table(&empty, "swss"),
        Err(FatalConfig::EmptyFeatureTable)
    );
    let table = vec![feature_row("swss", &[("auto_restart", "enabled")])];
    assert_eq!(
        autorestart_from_table(&table, "missing"),
        Err(FatalConfig::MissingFeature)
    );
    let no_field = vec![feature_row("swss", &[("state", "enabled")])];
    assert_eq!(
        autorestart_from_table(&no_field, "swss"),
        Err(FatalConfig::MissingAutoRestart)
    );
}

#[test]
fn test_autorestart_last_duplicate_wins() {
    let table = vec![
        feature_row("swss", &[("auto_restart", "enabled")]),
        feature_row("swss", &[("auto_restart", "disabled")]),
    ];
    assert_eq!(autorestart_from_table(&table, "swss"), Ok("disabled".to_string()));
}

#[test]
fn test_get_autorestart_state_maps_store_failures() {
    let db = TableDb { features: vec![], fail: true };
    assert!(matches!(
        get_autorestart_state("swss", &db),
        Err(PolicyFailure::Store(_))
    ));
    let db2 = TableDb { features: vec![], fail: false };
    assert!(matches!(
        get_autorestart_state("swss", &db2),
        Err(PolicyFailure::Fatal(FatalConfig::EmptyFeatureTable))
    ));
    let db3 = TableDb {
        features: vec![feature_row("swss", &[("auto_restart", "enabled")])],
        fail: false,
    };
    assert_eq!(get_autorestart_state("swss", &db3), Ok("enabled".to_string()));
}

#[test]
fn test_apply_heartbeat_table_installs_usable_entries() {
    let mut cache = PolicyCache::new();
    let table = vec![
        (
            "mon".to_string(),
            vec![("alert_interval".to_string(), "5000".to_string())],
        ),
        (
            "neg".to_string(),
            vec![("alert_interval".to_string(), "-100".to_string())],
        ),
        (
            "junk".to_string(),
            vec![("alert_interval".to_string(), "soon".to_string())],
        ),
        (
            "zero".to_string(),
            vec![("alert_interval".to_string(), "0".to_string())],
        ),
        ("nofield".to_string(), vec![("other".to_string(), "1".to_string())]),
        (
            "mon".to_string(),
            vec![("alert_interval".to_string(), "7000".to_string())],
        ),
    ];
    cache.apply_heartbeat_table(&table);
    // Only the usable entries land, the later duplicate winning; the
    // loaded flag is the load's to set, not the install's.
    assert_eq!(cache.intervals.get("mon"), Some(&7000));
    assert_eq!(cache.intervals.get("neg"), None);
    assert_eq!(cache.intervals.get("junk"), None);
    assert_eq!(cache.intervals.get("zero"), None);
    assert_eq!(cache.intervals.get("nofield"), None);
    assert!(!cache.loaded);
}

#[test]
fn test_policy_cache_load_failure_retries_later() {
    struct Flaky {
        fail: std::cell::Cell<bool>,
    }
    impl ConfigDBTrait for Flaky {
        fn get_table(&self, table: &str) -> Result<Vec<(String, Vec<(String, String)>)>, String> {
            if self.fail.get() {
                return Err("down".to_string());
            }
            if table == "HEARTBEAT" {
                Ok(vec![(
                    "mon".to_string(),
                    vec![("alert_interval".to_string(), "1500".to_string())],
                )])
            } else {
                Ok(vec![])
            }
        }
    }
    let db = Flaky { fail: std::cell::Cell::new(true) };
    let mut cache = PolicyCache::new();
    // While the store is down the default answers, and the cache stays
    // unloaded so the next call retries.
    assert_eq!(cache.get_heartbeat_alert_interval("mon", &db), 60_000);
    assert!(!cache.loaded);
    db.fail.set(false);
    assert_eq!(cache.get_heartbeat_alert_interval("mon", &db), 1_500);
    assert!(cache.loaded);
    // Once loaded the store is not consulted again.
    db.fail.set(true);
    assert_eq!(cache.get_heartbeat_alert_interval("mon", &db), 1_500);
}
