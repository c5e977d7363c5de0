//! The policy source: read-only lookups against an external configuration
//! store, reached through `ConfigDBTrait`.  The crash policy of a container
//! comes from the feature table; per-process heartbeat alert intervals come
//! from the heartbeat table, cached once for the lifetime of the process.

use crate::numbers::{parse_i64_spec, parse_positive_i64};
use crate::records::{assoc_get_last, entries_view, table_map};
use vstd::hash_map::StringHashMap;
use vstd::prelude::*;

verus! {

broadcast use vstd::string::group_string_axioms;

/// The table the crash policy is read from.
pub const FEATURE_TABLE_NAME: &'static str = "FEATURE";

/// The table the heartbeat alert intervals are read from.
pub const HEARTBEAT_TABLE_NAME: &'static str = "HEARTBEAT";

/// The fixed alerting interval, and the fallback heartbeat alert interval
/// for a process with no configured override.
pub const ALERTING_INTERVAL_SECS: u64 = 60;

/// `ALERTING_INTERVAL_SECS`, on the millisecond clock the trackers use.
pub const ALERTING_INTERVAL_MS: u64 = 60000;

/// A misconfiguration that the agent cannot safely run under.  Each variant
/// carries a distinct process exit code.
#[derive(Debug, Clone, Copy, PartialEq, Eq, Structural)]
pub enum FatalConfig {
    /// A process-list line that is not exactly `key:value`.
    ListLineSyntax,
    /// A process-list line whose key is neither `group` nor `program`, or
    /// whose value is empty.
    ListLineKey,
    /// The feature table came back empty.
    EmptyFeatureTable,
    /// The feature table has no entry for the container.
    MissingFeature,
    /// The feature entry has no auto-restart field.
    MissingAutoRestart,
}

impl FatalConfig {
    pub open spec fn spec_exit_code(self) -> u8 {
        match self {
            FatalConfig::ListLineSyntax => 5,
            FatalConfig::ListLineKey => 6,
            FatalConfig::EmptyFeatureTable => 2,
            FatalConfig::MissingFeature => 3,
            FatalConfig::MissingAutoRestart => 4,
        }
    }

    /// The process exit code of this misconfiguration.
    pub fn exit_code(self) -> (r: u8)
        ensures
            r == self.spec_exit_code(),
    {
        match self {
            FatalConfig::ListLineSyntax => 5,
            FatalConfig::ListLineKey => 6,
            FatalConfig::EmptyFeatureTable => 2,
            FatalConfig::MissingFeature => 3,
            FatalConfig::MissingAutoRestart => 4,
        }
    }
}

/// Why a policy read gave no usable answer: a transport failure of the
/// store, to be logged and skipped, or a fatal misconfiguration.
#[derive(Debug, Clone, PartialEq)]
pub enum PolicyFailure {
    Store(String),
    Fatal(FatalConfig),
}

/// Read access to the configuration store.  `get_table` returns a whole
/// table as entry-name/fields pairs; what comes back depends on the store
/// alone, and an `Err` carries the transport's own message.
pub trait ConfigDBTrait {
    fn get_table(&self, table: &str) -> Result<Vec<(String, Vec<(String, String)>)>, String>;
}

/// A field of a table row, the last occurrence winning.
pub open spec fn row_field(row: Seq<(String, String)>, field: Seq<char>) -> Option<String> {
    if table_map(entries_view(row)).contains_key(field) {
        Some(table_map(entries_view(row))[field])
    } else {
        None
    }
}

/// A row of a table, the last occurrence of a name winning.
pub open spec fn table_row(
    t: Seq<(String, Vec<(String, String)>)>,
    name: Seq<char>,
) -> Option<Vec<(String, String)>> {
    if table_map(entries_view(t)).contains_key(name) {
        Some(table_map(entries_view(t))[name])
    } else {
        None
    }
}

/// The auto-restart state that a feature table gives a container: the value
/// of the `auto_restart` field of the container's entry, or the fatal
/// misconfiguration that stops the agent.
pub open spec fn autorestart_of(
    t: Seq<(String, Vec<(String, String)>)>,
    container: Seq<char>,
) -> Result<Seq<char>, FatalConfig> {
    if t.len() == 0 {
        Err(FatalConfig::EmptyFeatureTable)
    } else {
        match table_row(t, container) {
            None => Err(FatalConfig::MissingFeature),
            Some(row) => match row_field(row@, "auto_restart"@) {
                None => Err(FatalConfig::MissingAutoRestart),
                Some(v) => Ok(v@),
            },
        }
    }
}

/// Reads the auto-restart state of `container_name` out of an already
/// fetched feature table, exactly as `autorestart_of` names it.
pub fn autorestart_from_table(
    table: &Vec<(String, Vec<(String, String)>)>,
    container_name: &str,
) -> (r: Result<String, FatalConfig>)
    ensures
        r matches Ok(v) ==> autorestart_of(table@, container_name@) == Ok::<
            Seq<char>,
            FatalConfig,
        >(v@),
        r matches Err(f) ==> autorestart_of(table@, container_name@) == Err::<
            Seq<char>,
            FatalConfig,
        >(f),
{
    if table.len() == 0 {
        return Err(FatalConfig::EmptyFeatureTable);
    }
    match assoc_get_last(table, container_name) {
        None => Err(FatalConfig::MissingFeature),
        Some(row) => match assoc_get_last(row, "auto_restart") {
            None => Err(FatalConfig::MissingAutoRestart),
            Some(v) => Ok(v.clone()),
        },
    }
}

/// Reads the auto-restart state of `container_name` from the store.  Every
/// answer is the reading of some feature table: a store that answered gives
/// the state or the fatal misconfiguration exactly as `autorestart_of` names
/// it, and a transport failure comes back as `Store`.
pub fn get_autorestart_state<T: ConfigDBTrait>(container_name: &str, config_db: &T) -> (r: Result<
    String,
    PolicyFailure,
>)
    ensures
        r matches Ok(v) ==> exists|t: Vec<(String, Vec<(String, String)>)>|
            autorestart_of(t@, container_name@) == Ok::<Seq<char>, FatalConfig>(v@),
        r matches Err(PolicyFailure::Fatal(f)) ==> exists|t: Vec<(String, Vec<(String, String)>)>|
            autorestart_of(t@, container_name@) == Err::<Seq<char>, FatalConfig>(f),
{
    match config_db.get_table(FEATURE_TABLE_NAME) {
        Err(msg) => Err(PolicyFailure::Store(msg)),
        Ok(table) => match autorestart_from_table(&table, container_name) {
            Ok(v) => {
                proof {
                    assert(autorestart_of(table@, container_name@) == Ok::<Seq<char>, FatalConfig>(
                        v@,
                    ));
                }
                Ok(v)
            },
            Err(f) => {
                proof {
                    assert(autorestart_of(table@, container_name@) == Err::<Seq<char>, FatalConfig>(
                        f,
                    ));
                }
                Err(PolicyFailure::Fatal(f))
            },
        },
    }
}

/// The heartbeat alert interval a row configures: its `alert_interval`
/// field read as milliseconds, kept only when it parses as a strictly
/// positive number.
pub open spec fn row_alert_interval_ms(row: Seq<(String, String)>) -> Option<u64> {
    match row_field(row, "alert_interval"@) {
        Some(v) => match parse_i64_spec(v@) {
            Some(x) => if x > 0 {
                Some(x as u64)
            } else {
                None
            },
            None => None,
        },
        None => None,
    }
}

/// The interval cache that loading a heartbeat table on top of `m0` leaves
/// behind: every entry with a usable `alert_interval` field inserted in
/// table order.
pub open spec fn intervals_into(
    m0: Map<Seq<char>, u64>,
    t: Seq<(String, Vec<(String, String)>)>,
) -> Map<Seq<char>, u64>
    decreases t.len(),
{
    if t.len() == 0 {
        m0
    } else {
        let m = intervals_into(m0, t.drop_last());
        match row_alert_interval_ms(t.last().1@) {
            Some(ms) => m.insert(t.last().0@, ms),
            None => m,
        }
    }
}

/// The lazily loaded mapping from process name to heartbeat alert interval,
/// in milliseconds.  `loaded` is set once a load has succeeded; the mapping
/// is never refreshed afterwards.
pub struct PolicyCache {
    pub loaded: bool,
    pub intervals: StringHashMap<u64>,
}

/// The interval the cache answers for a process: its entry, or the fixed
/// default of one minute.
pub open spec fn spec_interval_for(m: Map<Seq<char>, u64>, process: Seq<char>) -> u64 {
    if m.contains_key(process) {
        m[process]
    } else {
        ALERTING_INTERVAL_MS
    }
}

impl PolicyCache {
    pub fn new() -> (r: Self)
        ensures
            !r.loaded,
            r.intervals@ == Map::<Seq<char>, u64>::empty(),
    {
        PolicyCache { loaded: false, intervals: StringHashMap::new() }
    }

    /// Installs one fetched heartbeat table into the cache: exactly the
    /// entries whose `alert_interval` field parses as a strictly positive
    /// number of milliseconds, inserted in table order, everything else
    /// skipped silently.
    pub fn apply_heartbeat_table(&mut self, table: &Vec<(String, Vec<(String, String)>)>)
        ensures
            final(self).loaded == old(self).loaded,
            final(self).intervals@ == intervals_into(old(self).intervals@, table@),
    {
        let ghost m0 = self.intervals@;
        let n = table.len();
        let mut i: usize = 0;
        proof {
            assert(intervals_into(m0, table@.take(0)) =~= m0);
        }
        while i < n
            invariant
                n == table@.len(),
                i <= n,
                self.intervals@ == intervals_into(m0, table@.take(i as int)),
                self.loaded == old(self).loaded,
            decreases n - i,
        {
            proof {
                assert(table@.take(i + 1).drop_last() =~= table@.take(i as int));
                assert(table@.take(i + 1).last() == table@[i as int]);
            }
            let row = &table[i].1;
            match assoc_get_last(row, "alert_interval") {
                Some(v) => match parse_positive_i64(v.as_str()) {
                    Some(x) => {
                        let name = table[i].0.clone();
                        self.intervals.insert(name, x as u64);
                    },
                    None => {},
                },
                None => {},
            }
            i += 1;
        }
        proof {
            assert(table@.take(n as int) =~= table@);
        }
    }

    /// Fills the cache from the heartbeat table: the table is fetched and
    /// then installed by `apply_heartbeat_table`, whose contract pins what
    /// each fetched entry contributes.  A transport failure leaves the
    /// cache exactly as it was, to be retried; an answering store marks
    /// the cache loaded, an empty table loading nothing.
    pub fn load_heartbeat_alert_interval<T: ConfigDBTrait>(&mut self, config_db: &T) -> (r: Result<
        (),
        String,
    >)
        ensures
            r is Err ==> *final(self) == *old(self),
            r is Ok ==> final(self).loaded && exists|t: Vec<(String, Vec<(String, String)>)>|
                final(self).intervals@ == intervals_into(old(self).intervals@, t@),
    {
        match config_db.get_table(HEARTBEAT_TABLE_NAME) {
            Err(msg) => Err(msg),
            Ok(table) => {
                self.apply_heartbeat_table(&table);
                proof {
                    assert(self.intervals@ == intervals_into(old(self).intervals@, table@));
                }
                self.loaded = true;
                Ok(())
            },
        }
    }

    /// Loads the cache once: a no-op when already loaded, otherwise one
    /// load attempt whose transport failure leaves the cache unloaded.
    pub fn ensure_loaded<T: ConfigDBTrait>(&mut self, config_db: &T)
        ensures
            old(self).loaded ==> *final(self) == *old(self),
            final(self).loaded == old(self).loaded || final(self).loaded,
            *final(self) == *old(self) || (final(self).loaded && exists|
                t: Vec<(String, Vec<(String, String)>)>,
            | final(self).intervals@ == intervals_into(old(self).intervals@, t@)),
    {
        if !self.loaded {
            let _ = self.load_heartbeat_alert_interval(config_db);
        }
    }

    /// The heartbeat alert interval of `process`, in milliseconds: its
    /// cached entry, or one minute when it has none.  The first call
    /// triggers the one-time cache load.
    pub fn get_heartbeat_alert_interval<T: ConfigDBTrait>(
        &mut self,
        process: &str,
        config_db: &T,
    ) -> (r: u64)
        ensures
            old(self).loaded ==> *final(self) == *old(self),
            *final(self) == *old(self) || (final(self).loaded && exists|
                t: Vec<(String, Vec<(String, String)>)>,
            | final(self).intervals@ == intervals_into(old(self).intervals@, t@)),
            r == spec_interval_for(final(self).intervals@, process@),
    {
        self.ensure_loaded(config_db);
        match self.intervals.get(process) {
            Some(ms) => *ms,
            None => ALERTING_INTERVAL_MS,
        }
    }
}

} // verus!
