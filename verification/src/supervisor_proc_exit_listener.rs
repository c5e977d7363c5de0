//! The listener core: the static configuration read from the two process
//! list files, the critical-process and heartbeat trackers, the dispatch of
//! one decoded notification, and the per-tick alert evaluation.  The
//! surrounding program runs the polled input loop and performs what the
//! returned decisions ask for: acknowledging, alert logging, publishing and
//! the termination signal.

use crate::childutils::{eventdata, get_headers, header_eventname, payload_first_line};
use crate::numbers::{parse_i32_or_zero, u64_dec_spec, u64_to_string};
use crate::policy::{
    autorestart_of, get_autorestart_state, spec_interval_for, ConfigDBTrait, FatalConfig,
    PolicyCache, PolicyFailure, ALERTING_INTERVAL_MS,
};
use crate::records::{
    has_key, lemma_table_map_at, lemma_table_map_domain, unique_keys, RecordTable,
};
use crate::textparse::{
    colon_pos, header_field, header_field_or, is_ws_char, str_eq,
};
use vstd::prelude::*;

pub use crate::policy::ALERTING_INTERVAL_SECS;

verus! {

broadcast use vstd::string::group_string_axioms;

/// The fixed tick of the event loop: how long one readiness wait on the
/// input stream may block, in seconds.
pub const SELECT_TIMEOUT_SECS: u64 = 1;

/// The source under which crash notifications are published.
pub const EVENTS_PUBLISHER_SOURCE: &'static str = "sonic-events-host";

/// The tag of a published crash notification.
pub const EVENTS_PUBLISHER_TAG: &'static str = "process-exited-unexpectedly";

#[derive(Debug, Clone, PartialEq)]
pub enum SupervisorError {
    Io(String),
    Parse(String),
    Config(String),
    Database(String),
    System(String),
}

/// The command line of the listener.
#[derive(Debug, Clone)]
pub struct Args {
    pub container_name: String,
    pub use_unix_socket_path: bool,
}

/// What one trimmed line of a process-list file means.
pub enum ListLine {
    Blank,
    Group(Seq<char>),
    Program(Seq<char>),
    BadSyntax,
    BadKey,
}

/// Index of the first non-whitespace character of `s` at or after `i`, or
/// `s.len()`.
pub open spec fn skip_ws_pos(s: Seq<char>, i: int) -> int
    decreases s.len() - i,
    when 0 <= i <= s.len()
{
    if i >= s.len() || !is_ws_char(s[i]) {
        i
    } else {
        skip_ws_pos(s, i + 1)
    }
}

/// End of `s` once trailing whitespace before `e` is dropped.
pub open spec fn trim_end_pos(s: Seq<char>, e: int) -> int
    decreases e,
    when 0 <= e <= s.len()
{
    if e <= 0 || !is_ws_char(s[e - 1]) {
        e
    } else {
        trim_end_pos(s, e - 1)
    }
}

/// `s` with leading and trailing whitespace dropped.
pub open spec fn trim_ws(s: Seq<char>) -> Seq<char> {
    let a = skip_ws_pos(s, 0);
    let b = trim_end_pos(s, s.len() as int);
    if a < b {
        s.subrange(a, b)
    } else {
        Seq::empty()
    }
}

/// How many times `c` occurs in `s` at or after `i`.
pub open spec fn count_char_from(s: Seq<char>, c: char, i: int) -> int
    decreases s.len() - i,
    when 0 <= i <= s.len()
{
    if i >= s.len() {
        0
    } else {
        (if s[i] == c {
            1int
        } else {
            0int
        }) + count_char_from(s, c, i + 1)
    }
}

/// Classifies one raw line of a process-list file: blank lines are skipped;
/// a line must otherwise be exactly `key:value` with one colon, the key
/// `group` or `program` and the value non-empty after trimming.
pub open spec fn line_class(raw: Seq<char>) -> ListLine {
    let t = trim_ws(raw);
    if t.len() == 0 {
        ListLine::Blank
    } else if count_char_from(t, ':', 0) != 1 {
        ListLine::BadSyntax
    } else {
        let p = colon_pos(t, 0);
        let key = trim_ws(t.subrange(0, p));
        let value = trim_ws(t.subrange(p + 1, t.len() as int));
        if key == "group"@ && value.len() > 0 {
            ListLine::Group(value)
        } else if key == "program"@ && value.len() > 0 {
            ListLine::Program(value)
        } else {
            ListLine::BadKey
        }
    }
}

/// The group and program lists a process-list file yields, or the first
/// fatal misconfiguration in it.
pub open spec fn lists_of(lines: Seq<Seq<char>>) -> Result<
    (Seq<Seq<char>>, Seq<Seq<char>>),
    FatalConfig,
>
    decreases lines.len(),
{
    if lines.len() == 0 {
        Ok((Seq::empty(), Seq::empty()))
    } else {
        match lists_of(lines.drop_last()) {
            Err(f) => Err(f),
            Ok(acc) => match line_class(lines.last()) {
                ListLine::Blank => Ok(acc),
                ListLine::Group(v) => Ok((acc.0.push(v), acc.1)),
                ListLine::Program(v) => Ok((acc.0, acc.1.push(v))),
                ListLine::BadSyntax => Err(FatalConfig::ListLineSyntax),
                ListLine::BadKey => Err(FatalConfig::ListLineKey),
            },
        }
    }
}

pub open spec fn strs_view(v: Seq<String>) -> Seq<Seq<char>> {
    v.map_values(|s: String| s@)
}

proof fn lemma_lists_of_err_extends(lines: Seq<Seq<char>>, j: int, m: int)
    requires
        0 <= j <= m <= lines.len(),
        lists_of(lines.take(j)) is Err,
    ensures
        lists_of(lines.take(m)) == lists_of(lines.take(j)),
    decreases m - j,
{
    if m > j {
        lemma_lists_of_err_extends(lines, j, m - 1);
        assert(lines.take(m).drop_last() =~= lines.take(m - 1));
    }
}

/// `s` with surrounding whitespace dropped, as `trim_ws` names it.
fn trim_str<'a>(s: &'a str) -> (r: &'a str)
    ensures
        r@ == trim_ws(s@),
{
    let n = s.unicode_len();
    let mut a: usize = 0;
    while a < n && is_ws_exec(s.get_char(a))
        invariant
            n == s@.len(),
            a <= n,
            skip_ws_pos(s@, 0) == skip_ws_pos(s@, a as int),
        decreases n - a,
    {
        proof {
            assert(skip_ws_pos(s@, a as int) == skip_ws_pos(s@, a + 1));
        }
        a += 1;
    }
    proof {
        assert(skip_ws_pos(s@, a as int) == a as int);
    }
    let mut b: usize = n;
    while b > 0 && is_ws_exec(s.get_char(b - 1))
        invariant
            n == s@.len(),
            b <= n,
            trim_end_pos(s@, n as int) == trim_end_pos(s@, b as int),
        decreases b,
    {
        proof {
            assert(trim_end_pos(s@, b as int) == trim_end_pos(s@, b - 1));
        }
        b -= 1;
    }
    proof {
        assert(trim_end_pos(s@, b as int) == b as int);
    }
    if a < b {
        s.substring_char(a, b)
    } else {
        let r = s.substring_char(0, 0);
        proof {
            assert(r@ =~= Seq::<char>::empty());
        }
        r
    }
}

fn is_ws_exec(c: char) -> (r: bool)
    ensures
        r == is_ws_char(c),
{
    c == ' ' || c == '\t' || c == '\n' || c == '\r' || c == '\u{b}' || c == '\u{c}'
}

pub proof fn lemma_count_colon_pos(t: Seq<char>, i: int)
    requires
        0 <= i <= t.len(),
    ensures
        (count_char_from(t, ':', i) > 0) <==> (colon_pos(t, i) >= 0),
        count_char_from(t, ':', i) >= 0,
    decreases t.len() - i,
{
    if i < t.len() {
        lemma_count_colon_pos(t, i + 1);
    }
}

/// How many colons `t` holds.
fn count_colons(t: &str) -> (r: usize)
    ensures
        r == count_char_from(t@, ':', 0),
{
    let n = t.unicode_len();
    let mut cnt: usize = 0;
    let mut i: usize = 0;
    while i < n
        invariant
            n == t@.len(),
            i <= n,
            cnt <= i,
            cnt + count_char_from(t@, ':', i as int) == count_char_from(t@, ':', 0),
        decreases n - i,
    {
        proof {
            lemma_count_colon_pos(t@, i + 1);
        }
        if t.get_char(i) == ':' {
            cnt += 1;
        }
        i += 1;
    }
    cnt
}

/// The index of the first colon of `t`, which must hold one.
fn find_colon(t: &str) -> (r: usize)
    requires
        count_char_from(t@, ':', 0) > 0,
    ensures
        r == colon_pos(t@, 0),
        r < t@.len(),
        t@[r as int] == ':',
{
    let n = t.unicode_len();
    let mut j: usize = 0;
    while j < n && t.get_char(j) != ':'
        invariant
            n == t@.len(),
            j <= n,
            colon_pos(t@, 0) == colon_pos(t@, j as int),
        decreases n - j,
    {
        proof {
            assert(colon_pos(t@, j as int) == colon_pos(t@, j + 1));
        }
        j += 1;
    }
    proof {
        lemma_count_colon_pos(t@, 0);
        if j == n {
            assert(colon_pos(t@, n as int) == -1);
        }
    }
    j
}

/// Reads the lines of a process-list file into its group list and its
/// program list, exactly as `lists_of` names them, stopping at the first
/// bad line with its fatal misconfiguration.
pub fn get_group_and_process_list(lines: &Vec<String>) -> (r: Result<
    (Vec<String>, Vec<String>),
    FatalConfig,
>)
    ensures
        r matches Ok(p) ==> lists_of(strs_view(lines@)) == Ok::<
            (Seq<Seq<char>>, Seq<Seq<char>>),
            FatalConfig,
        >((strs_view(p.0@), strs_view(p.1@))),
        r matches Err(f) ==> lists_of(strs_view(lines@)) == Err::<
            (Seq<Seq<char>>, Seq<Seq<char>>),
            FatalConfig,
        >(f),
{
    let mut group_list: Vec<String> = Vec::new();
    let mut process_list: Vec<String> = Vec::new();
    let n = lines.len();
    let mut i: usize = 0;
    proof {
        assert(strs_view(lines@).take(0) =~= Seq::<Seq<char>>::empty());
        assert(strs_view(group_list@) =~= Seq::<Seq<char>>::empty());
        assert(strs_view(process_list@) =~= Seq::<Seq<char>>::empty());
    }
    while i < n
        invariant
            n == lines@.len(),
            i <= n,
            lists_of(strs_view(lines@).take(i as int)) == Ok::<
                (Seq<Seq<char>>, Seq<Seq<char>>),
                FatalConfig,
            >((strs_view(group_list@), strs_view(process_list@))),
        decreases n - i,
    {
        proof {
            assert(strs_view(lines@).take(i + 1).drop_last() =~= strs_view(lines@).take(
                i as int,
            ));
            assert(strs_view(lines@).take(i + 1).last() == lines@[i as int]@);
        }
        let t = trim_str(lines[i].as_str());
        let tn = t.unicode_len();
        if tn == 0 {
            // blank line, skipped
        } else if count_colons(t) != 1 {
            proof {
                lemma_lists_of_err_extends(strs_view(lines@), i + 1, lines@.len() as int);
                assert(strs_view(lines@).take(lines@.len() as int) =~= strs_view(lines@));
            }
            return Err(FatalConfig::ListLineSyntax);
        } else {
            proof {
                lemma_count_colon_pos(t@, 0);
            }
            let p = find_colon(t);
            let key = trim_str(t.substring_char(0, p));
            let value = trim_str(t.substring_char(p + 1, tn));
            if str_eq(key, "group") && value.unicode_len() > 0 {
                let ghost gprev = group_list@;
                group_list.push(String::from_str(value));
                proof {
                    assert(strs_view(group_list@) =~= strs_view(gprev).push(value@));
                }
            } else if str_eq(key, "program") && value.unicode_len() > 0 {
                let ghost pprev = process_list@;
                process_list.push(String::from_str(value));
                proof {
                    assert(strs_view(process_list@) =~= strs_view(pprev).push(value@));
                }
            } else {
                proof {
                    lemma_lists_of_err_extends(strs_view(lines@), i + 1, lines@.len() as int);
                    assert(strs_view(lines@).take(lines@.len() as int) =~= strs_view(lines@));
                }
                return Err(FatalConfig::ListLineKey);
            }
        }
        i += 1;
    }
    proof {
        assert(strs_view(lines@).take(n as int) =~= strs_view(lines@));
    }
    Ok((group_list, process_list))
}

/// Whether some string of `l` reads as `s`.
pub open spec fn str_list_contains(l: Seq<String>, s: Seq<char>) -> bool {
    exists|i: int| 0 <= i < l.len() && l[i]@ == s
}

pub fn list_contains(list: &Vec<String>, name: &str) -> (r: bool)
    ensures
        r == str_list_contains(list@, name@),
{
    let n = list.len();
    let mut i: usize = 0;
    while i < n
        invariant
            n == list@.len(),
            i <= n,
            forall|j: int| 0 <= j < i ==> list@[j]@ != name@,
        decreases n - i,
    {
        if str_eq(list[i].as_str(), name) {
            return true;
        }
        i += 1;
    }
    false
}

/// One pending dead-process record: when the last alert went out, on the
/// monotonic millisecond clock, and how many whole dead minutes have been
/// charged so far.
#[derive(Debug, Clone, Copy, PartialEq, Eq, Structural)]
pub struct AlertRecord {
    pub last_alerted_ms: u64,
    pub dead_minutes: u64,
}

/// The accumulated minutes never outrun the clock: what keeps the
/// accumulation free of overflow.
pub open spec fn alert_rec_wf(r: AlertRecord) -> bool {
    r.dead_minutes <= r.last_alerted_ms / 60000
}

/// What the loop must do with one processed notification.
#[derive(Debug, Clone, PartialEq)]
pub enum NotificationOutcome {
    /// Acknowledge the notification and go on waiting.
    Acknowledge,
    /// Publish the crash notification, signal the supervisor, and stop the
    /// loop, without acknowledging first.
    Terminate { process_name: String, container_name: String },
    /// Exit at once with the misconfiguration's code.
    Fatal(FatalConfig),
}

/// The listener's whole state: the static configuration loaded at startup
/// and the two trackers.
pub struct ListenerCore {
    pub container_name: String,
    pub critical_group_list: Vec<String>,
    pub critical_process_list: Vec<String>,
    pub watch_process_list: Vec<String>,
    /// Critical processes dead with auto-restart disabled, alerts pending.
    pub process_under_alerting: RecordTable<AlertRecord>,
    /// Watched processes and when they last wrote to stdout.
    pub process_heart_beat_info: RecordTable<u64>,
}

impl ListenerCore {
    pub open spec fn wf(self) -> bool {
        &&& self.process_under_alerting.wf()
        &&& self.process_heart_beat_info.wf()
        &&& forall|k: Seq<char>| #[trigger]
            self.process_under_alerting.as_map().contains_key(k) ==> alert_rec_wf(
                self.process_under_alerting.as_map()[k],
            )
    }

    pub open spec fn spec_same_config(self, other: Self) -> bool {
        &&& self.container_name == other.container_name
        &&& self.critical_group_list == other.critical_group_list
        &&& self.critical_process_list == other.critical_process_list
        &&& self.watch_process_list == other.watch_process_list
    }

    /// A process is critical when its own name or its group's name is
    /// configured critical.
    pub open spec fn spec_is_critical(self, process: Seq<char>, group: Seq<char>) -> bool {
        str_list_contains(self.critical_process_list@, process) || str_list_contains(
            self.critical_group_list@,
            group,
        )
    }

    pub open spec fn spec_is_watched(self, process: Seq<char>) -> bool {
        str_list_contains(self.watch_process_list@, process)
    }

    pub fn new(
        container_name: String,
        critical_group_list: Vec<String>,
        critical_process_list: Vec<String>,
        watch_process_list: Vec<String>,
    ) -> (r: Self)
        ensures
            r.wf(),
            r.container_name == container_name,
            r.critical_group_list == critical_group_list,
            r.critical_process_list == critical_process_list,
            r.watch_process_list == watch_process_list,
            r.process_under_alerting.as_map() == Map::<Seq<char>, AlertRecord>::empty(),
            r.process_under_alerting.view_seq() == Seq::<(Seq<char>, AlertRecord)>::empty(),
            r.process_heart_beat_info.as_map() == Map::<Seq<char>, u64>::empty(),
            r.process_heart_beat_info.view_seq() == Seq::<(Seq<char>, u64)>::empty(),
    {
        ListenerCore {
            container_name,
            critical_group_list,
            critical_process_list,
            watch_process_list,
            process_under_alerting: RecordTable::new(),
            process_heart_beat_info: RecordTable::new(),
        }
    }

    /// Applies the read auto-restart state to one unexpected exit of the
    /// critical process `process_name`: any state but `disabled` decides
    /// termination and touches no record; `disabled` starts alerting with
    /// a fresh record, zero minutes charged and the first alert owed one
    /// full interval later.
    pub fn apply_autorestart_policy(
        &mut self,
        process_name: &String,
        policy: &str,
        now_ms: u64,
    ) -> (r: NotificationOutcome)
        requires
            old(self).wf(),
        ensures
            final(self).wf(),
            old(self).spec_same_config(*final(self)),
            final(self).process_heart_beat_info == old(self).process_heart_beat_info,
            policy@ != "disabled"@ ==> ({
                &&& r matches NotificationOutcome::Terminate { process_name: p, container_name: c }
                    && p@ == process_name@ && c@ == old(self).container_name@
                &&& final(self).process_under_alerting == old(self).process_under_alerting
            }),
            policy@ == "disabled"@ ==> ({
                &&& r == NotificationOutcome::Acknowledge
                &&& final(self).process_under_alerting.as_map()
                    == old(self).process_under_alerting.as_map().insert(
                    process_name@,
                    AlertRecord { last_alerted_ms: now_ms, dead_minutes: 0 },
                )
            }),
    {
        if !str_eq(policy, "disabled") {
            NotificationOutcome::Terminate {
                process_name: process_name.clone(),
                container_name: self.container_name.clone(),
            }
        } else {
            self.process_under_alerting.insert(
                process_name.clone(),
                AlertRecord { last_alerted_ms: now_ms, dead_minutes: 0 },
            );
            NotificationOutcome::Acknowledge
        }
    }

    /// Applies the outcome of one policy read to an unexpected exit of the
    /// critical process `process_name`, variant by variant: a read state
    /// goes to `apply_autorestart_policy`; a fatal misconfiguration stops
    /// the agent with every record untouched; a store transport failure
    /// touches nothing and still acknowledges, so the handshake never
    /// stalls on a store outage.
    pub fn apply_policy_outcome(
        &mut self,
        process_name: &String,
        policy: Result<String, PolicyFailure>,
        now_ms: u64,
    ) -> (r: NotificationOutcome)
        requires
            old(self).wf(),
        ensures
            final(self).wf(),
            old(self).spec_same_config(*final(self)),
            final(self).process_heart_beat_info == old(self).process_heart_beat_info,
            policy matches Ok(p) && p@ != "disabled"@ ==> ({
                &&& r matches NotificationOutcome::Terminate { process_name: tp, container_name: tc }
                    && tp@ == process_name@ && tc@ == old(self).container_name@
                &&& final(self).process_under_alerting == old(self).process_under_alerting
            }),
            policy matches Ok(p) && p@ == "disabled"@ ==> ({
                &&& r == NotificationOutcome::Acknowledge
                &&& final(self).process_under_alerting.as_map()
                    == old(self).process_under_alerting.as_map().insert(
                    process_name@,
                    AlertRecord { last_alerted_ms: now_ms, dead_minutes: 0 },
                )
            }),
            policy matches Err(PolicyFailure::Store(_)) ==> r == NotificationOutcome::Acknowledge
                && *final(self) == *old(self),
            policy matches Err(PolicyFailure::Fatal(f)) ==> r == NotificationOutcome::Fatal(f)
                && *final(self) == *old(self),
    {
        match policy {
            Ok(p) => self.apply_autorestart_policy(process_name, p.as_str(), now_ms),
            Err(PolicyFailure::Fatal(f)) => NotificationOutcome::Fatal(f),
            Err(PolicyFailure::Store(_)) => NotificationOutcome::Acknowledge,
        }
    }

    /// Dispatches one complete notification: the header line, and the
    /// payload read for it.  An unexpected exit of a critical process
    /// consults the crash policy and hands the outcome to
    /// `apply_policy_outcome`; a running event clears any pending record;
    /// a stdout event stamps the heartbeat of a watched process; anything
    /// else is acknowledged untouched.  Every termination or fatal result
    /// is backed by some feature table that reads that way; a store
    /// failure touches nothing and still acknowledges.
    pub fn handle_notification<T: ConfigDBTrait>(
        &mut self,
        config_db: &T,
        line: &str,
        payload: &str,
        now_ms: u64,
    ) -> (r: NotificationOutcome)
        requires
            old(self).wf(),
        ensures
            final(self).wf(),
            old(self).spec_same_config(*final(self)),
            ({
                let ev = header_eventname(line@);
                let first = payload_first_line(payload@ + "\n"@);
                let pname = header_field_or(first, "processname"@, Seq::empty());
                let gname = header_field_or(first, "groupname"@, Seq::empty());
                let expected = parse_i32_or_zero(
                    header_field_or(first, "expected"@, Seq::empty()),
                );
                let alerting0 = old(self).process_under_alerting;
                let alerting1 = final(self).process_under_alerting;
                let beats0 = old(self).process_heart_beat_info;
                let beats1 = final(self).process_heart_beat_info;
                if ev == "PROCESS_STATE_EXITED"@ {
                    &&& beats1 == beats0
                    &&& if old(self).spec_is_critical(pname, gname) && expected == 0 {
                        &&& (r matches NotificationOutcome::Terminate {
                            process_name: p,
                            container_name: c,
                        } ==> p@ == pname && c@ == old(self).container_name@ && alerting1
                            == alerting0 && (exists|t: Vec<(String, Vec<(String, String)>)>|
                            (#[trigger] autorestart_of(t@, old(self).container_name@)) matches Ok(
                                pol,
                            ) && pol != "disabled"@))
                        &&& (r matches NotificationOutcome::Fatal(f) ==> alerting1 == alerting0
                            && (exists|t: Vec<(String, Vec<(String, String)>)>| autorestart_of(
                            t@,
                            old(self).container_name@,
                        ) == Err::<Seq<char>, FatalConfig>(f)))
                        &&& (r == NotificationOutcome::Acknowledge ==> alerting1.as_map()
                            == alerting0.as_map() || (alerting1.as_map()
                            == alerting0.as_map().insert(
                            pname,
                            AlertRecord { last_alerted_ms: now_ms, dead_minutes: 0 },
                        ) && (exists|t: Vec<(String, Vec<(String, String)>)>| autorestart_of(
                            t@,
                            old(self).container_name@,
                        ) == Ok::<Seq<char>, FatalConfig>("disabled"@))))
                    } else {
                        r == NotificationOutcome::Acknowledge && alerting1 == alerting0
                    }
                } else if ev == "PROCESS_STATE_RUNNING"@ {
                    &&& r == NotificationOutcome::Acknowledge
                    &&& beats1 == beats0
                    &&& alerting1.as_map() == alerting0.as_map().remove(pname)
                } else if ev == "PROCESS_COMMUNICATION_STDOUT"@ {
                    &&& r == NotificationOutcome::Acknowledge
                    &&& alerting1 == alerting0
                    &&& beats1.as_map() == if old(self).spec_is_watched(pname) {
                        beats0.as_map().insert(pname, now_ms)
                    } else {
                        beats0.as_map()
                    }
                } else {
                    r == NotificationOutcome::Acknowledge && *final(self) == *old(self)
                }
            }),
    {
        let headers = match get_headers(line) {
            Ok(h) => h,
            Err(_) => vstd::pervasive::unreached(),
        };
        let ev = headers.eventname;
        let exited = str_eq(ev.as_str(), "PROCESS_STATE_EXITED");
        let running = str_eq(ev.as_str(), "PROCESS_STATE_RUNNING");
        let stdout_ev = str_eq(ev.as_str(), "PROCESS_COMMUNICATION_STDOUT");
        if exited || running || stdout_ev {
            let padded = String::from_str(payload).concat("\n");
            proof {
                reveal_strlit("\n");
            }
            let (ph, _data) = match eventdata(padded.as_str()) {
                Ok(p) => p,
                Err(_) => vstd::pervasive::unreached(),
            };
            if exited {
                let is_critical = (list_contains(
                    &self.critical_process_list,
                    ph.processname.as_str(),
                ) || list_contains(&self.critical_group_list, ph.groupname.as_str()))
                    && ph.expected == 0;
                if is_critical {
                    let policy = get_autorestart_state(self.container_name.as_str(), config_db);
                    let ghost gpolicy = policy;
                    let ghost container = self.container_name@;
                    let r = self.apply_policy_outcome(&ph.processname, policy, now_ms);
                    proof {
                        if gpolicy is Ok {
                            let pv = gpolicy->Ok_0@;
                            let t = choose|t: Vec<(String, Vec<(String, String)>)>|
                                autorestart_of(t@, container) == Ok::<Seq<char>, FatalConfig>(pv);
                            if pv != "disabled"@ {
                                assert(autorestart_of(t@, container) matches Ok(pol) && pol
                                    != "disabled"@);
                            } else {
                                assert(autorestart_of(t@, container) == Ok::<
                                    Seq<char>,
                                    FatalConfig,
                                >("disabled"@));
                            }
                        }
                    }
                    r
                } else {
                    NotificationOutcome::Acknowledge
                }
            } else if running {
                self.process_under_alerting.remove(ph.processname.as_str());
                NotificationOutcome::Acknowledge
            } else {
                if list_contains(&self.watch_process_list, ph.processname.as_str()) {
                    self.process_heart_beat_info.insert(ph.processname.clone(), now_ms);
                }
                NotificationOutcome::Acknowledge
            }
        } else {
            NotificationOutcome::Acknowledge
        }
    }
}

/// The two alert severities: a dead critical process is an error, a stuck
/// watched process a warning.
#[derive(Debug, Clone, Copy, PartialEq, Eq, Structural)]
pub enum AlertKind {
    NotRunning,
    Stuck,
}

/// One alert owed this tick, to be formatted and logged by the loop.
#[derive(Debug, Clone, PartialEq)]
pub struct PendingAlert {
    pub process_name: String,
    pub minutes: u64,
    pub kind: AlertKind,
}

pub open spec fn alerts_view(v: Seq<PendingAlert>) -> Seq<(Seq<char>, u64)> {
    v.map_values(|a: PendingAlert| (a.process_name@, a.minutes))
}

/// Is a pending record due for an alert at `now`?
pub open spec fn rec_due(r: AlertRecord, now: u64) -> bool {
    now >= r.last_alerted_ms + ALERTING_INTERVAL_MS
}

/// The record after its alert went out: the elapsed whole minutes charged
/// on top, the clock reset to `now`.
pub open spec fn rec_bumped(r: AlertRecord, now: u64) -> AlertRecord {
    AlertRecord {
        last_alerted_ms: now,
        dead_minutes: (r.dead_minutes + (now - r.last_alerted_ms) / 60000) as u64,
    }
}

/// One alerting pass over the pending records: every due record bumped,
/// every other left alone.
pub open spec fn dead_tick_entries(s: Seq<(Seq<char>, AlertRecord)>, now: u64) -> Seq<
    (Seq<char>, AlertRecord),
> {
    s.map_values(
        |e: (Seq<char>, AlertRecord)|
            if rec_due(e.1, now) {
                (e.0, rec_bumped(e.1, now))
            } else {
                e
            },
    )
}

/// The alerts the pass emits, in record order: each due process with its
/// new cumulative dead-minute count.
pub open spec fn dead_alerts_view(s: Seq<(Seq<char>, AlertRecord)>, now: u64) -> Seq<
    (Seq<char>, u64),
>
    decreases s.len(),
{
    if s.len() == 0 {
        Seq::empty()
    } else {
        let rest = dead_alerts_view(s.drop_last(), now);
        if rec_due(s.last().1, now) {
            rest.push((s.last().0, rec_bumped(s.last().1, now).dead_minutes))
        } else {
            rest
        }
    }
}

/// Is a heartbeat last seen at `last` stale at `now`, against interval
/// `iv`?
pub open spec fn beat_due(last: u64, iv: u64, now: u64) -> bool {
    now >= last + iv
}

/// The stuck alerts one heartbeat pass emits, in record order: each stale
/// process with its elapsed whole minutes.
pub open spec fn hb_alerts_view(
    s: Seq<(Seq<char>, u64)>,
    ivs: Map<Seq<char>, u64>,
    now: u64,
) -> Seq<(Seq<char>, u64)>
    decreases s.len(),
{
    if s.len() == 0 {
        Seq::empty()
    } else {
        let rest = hb_alerts_view(s.drop_last(), ivs, now);
        if beat_due(s.last().1, spec_interval_for(ivs, s.last().0), now) {
            rest.push((s.last().0, ((now - s.last().1) / 60000) as u64))
        } else {
            rest
        }
    }
}

/// Summed quotients never exceed the quotient of the sum.
proof fn lemma_div_sum_le(a: int, b: int, d: int)
    requires
        a >= 0,
        b >= 0,
        d > 0,
    ensures
        a / d + b / d <= (a + b) / d,
{
    vstd::arithmetic::div_mod::lemma_fundamental_div_mod(a, d);
    vstd::arithmetic::div_mod::lemma_fundamental_div_mod(b, d);
    vstd::arithmetic::div_mod::lemma_mod_bound(a, d);
    vstd::arithmetic::div_mod::lemma_mod_bound(b, d);
    let q = a / d + b / d;
    let r = a % d + b % d;
    vstd::arithmetic::mul::lemma_mul_is_distributive_add(d, a / d, b / d);
    vstd::arithmetic::mul::lemma_mul_is_commutative(d, q);
    vstd::arithmetic::mul::lemma_mul_is_distributive_add_other_way(d, q, 1);
    vstd::arithmetic::mul::lemma_mul_basics(d);
    assert(a + b == d * q + r);
    assert(a + b == q * d + r);
    if r < d {
        vstd::arithmetic::div_mod::lemma_fundamental_div_mod_converse(a + b, d, q, r);
    } else {
        assert((q + 1) * d == q * d + d);
        vstd::arithmetic::div_mod::lemma_fundamental_div_mod_converse(a + b, d, q + 1, r - d);
    }
}

impl ListenerCore {
    /// One alerting pass, run once per tick whether or not input arrived:
    /// every pending record due an alert is charged the elapsed whole
    /// minutes, its clock is reset, and it is reported as a `NotRunning`
    /// alert carrying the new cumulative count.  Records stay pending
    /// until a running event removes them.
    pub fn check_dead_alerts(&mut self, now_ms: u64) -> (alerts: Vec<PendingAlert>)
        requires
            old(self).wf(),
        ensures
            final(self).wf(),
            old(self).spec_same_config(*final(self)),
            final(self).process_heart_beat_info == old(self).process_heart_beat_info,
            final(self).process_under_alerting.view_seq() == dead_tick_entries(
                old(self).process_under_alerting.view_seq(),
                now_ms,
            ),
            alerts_view(alerts@) == dead_alerts_view(
                old(self).process_under_alerting.view_seq(),
                now_ms,
            ),
            forall|j: int| 0 <= j < alerts@.len() ==> alerts@[j].kind == AlertKind::NotRunning,
    {
        let ghost s0 = old(self).process_under_alerting.view_seq();
        let mut alerts: Vec<PendingAlert> = Vec::new();
        let n = self.process_under_alerting.entries.len();
        let mut i: usize = 0;
        proof {
            assert(alerts_view(alerts@) =~= dead_alerts_view(s0.take(0), now_ms));
        }
        while i < n
            invariant
                old(self).wf(),
                s0 == old(self).process_under_alerting.view_seq(),
                n == self.process_under_alerting.entries@.len(),
                n == s0.len(),
                i <= n,
                self.container_name == old(self).container_name,
                self.critical_group_list == old(self).critical_group_list,
                self.critical_process_list == old(self).critical_process_list,
                self.watch_process_list == old(self).watch_process_list,
                self.process_heart_beat_info == old(self).process_heart_beat_info,
                forall|j: int|
                    0 <= j < i ==> self.process_under_alerting.view_seq()[j] == (if rec_due(
                        s0[j].1,
                        now_ms,
                    ) {
                        (s0[j].0, rec_bumped(s0[j].1, now_ms))
                    } else {
                        s0[j]
                    }),
                forall|j: int|
                    0 <= j < i ==> alert_rec_wf(
                        #[trigger] self.process_under_alerting.view_seq()[j].1,
                    ),
                forall|j: int|
                    i <= j < n ==> #[trigger] self.process_under_alerting.view_seq()[j] == s0[j],
                alerts_view(alerts@) == dead_alerts_view(s0.take(i as int), now_ms),
                forall|j: int| 0 <= j < alerts@.len() ==> alerts@[j].kind == AlertKind::NotRunning,
            decreases n - i,
        {
            proof {
                assert(s0.take(i + 1).drop_last() =~= s0.take(i as int));
                assert(s0.take(i + 1).last() == s0[i as int]);
                lemma_table_map_at(s0, i as int);
                assert(old(self).process_under_alerting.as_map().contains_key(s0[i as int].0));
                assert(alert_rec_wf(s0[i as int].1));
                assert(self.process_under_alerting.view_seq()[i as int] == s0[i as int]);
            }
            let last = self.process_under_alerting.entries[i].1.last_alerted_ms;
            let dead0 = self.process_under_alerting.entries[i].1.dead_minutes;
            if now_ms >= last && now_ms - last >= ALERTING_INTERVAL_MS {
                proof {
                    lemma_div_sum_le(last as int, (now_ms - last) as int, 60000);
                    vstd::arithmetic::div_mod::lemma_div_nonincreasing(now_ms as int, 60000);
                    assert(alert_rec_wf(s0[i as int].1));
                    assert(dead0 == s0[i as int].1.dead_minutes);
                    assert(last == s0[i as int].1.last_alerted_ms);
                    assert(dead0 + (now_ms - last) / 60000 <= now_ms as int / 60000);
                }
                let elapsed_mins = (now_ms - last) / 60000;
                let new_dead = dead0 + elapsed_mins;
                let name = self.process_under_alerting.entries[i].0.clone();
                let name2 = name.clone();
                let ghost before = self.process_under_alerting.view_seq();
                self.process_under_alerting.entries[i] = (
                    name,
                    AlertRecord { last_alerted_ms: now_ms, dead_minutes: new_dead },
                );
                let ghost aprev = alerts@;
                alerts.push(
                    PendingAlert {
                        process_name: name2,
                        minutes: new_dead,
                        kind: AlertKind::NotRunning,
                    },
                );
                proof {
                    assert(forall|j: int|
                        0 <= j < n && j != i ==> #[trigger] self.process_under_alerting.view_seq()[j]
                            == before[j]);
                    assert(self.process_under_alerting.view_seq()[i as int] == (
                        s0[i as int].0,
                        rec_bumped(s0[i as int].1, now_ms),
                    ));
                    assert(alert_rec_wf(self.process_under_alerting.view_seq()[i as int].1));
                    assert(alerts_view(alerts@) =~= alerts_view(aprev).push(
                        (s0[i as int].0, rec_bumped(s0[i as int].1, now_ms).dead_minutes),
                    ));
                    assert(alerts_view(alerts@) =~= dead_alerts_view(s0.take(i + 1), now_ms));
                }
            } else {
                proof {
                    assert(alerts_view(alerts@) =~= dead_alerts_view(s0.take(i + 1), now_ms));
                }
            }
            i += 1;
        }
        proof {
            assert(s0.take(n as int) =~= s0);
            let s1 = self.process_under_alerting.view_seq();
            assert(forall|x: int| 0 <= x < s1.len() ==> (#[trigger] s1[x]).0 == s0[x].0);
            assert(unique_keys(s1));
            assert(s1 =~= dead_tick_entries(s0, now_ms));
            assert forall|k: Seq<char>| #[trigger]
                self.process_under_alerting.as_map().contains_key(k) implies alert_rec_wf(
                self.process_under_alerting.as_map()[k],
            ) by {
                lemma_table_map_domain(s1, k);
                let j = choose|j: int| 0 <= j < s1.len() && s1[j].0 == k;
                lemma_table_map_at(s1, j);
            }
        }
        alerts
    }

    /// One heartbeat pass, run once per tick: the interval cache is loaded
    /// on its first run, then every watched process whose last stdout
    /// activity lies at least its interval back is reported as `Stuck`
    /// with the elapsed whole minutes.  Heartbeat records are never
    /// changed here, so a stale process keeps alerting every tick until
    /// activity resumes.
    pub fn check_heartbeat_alerts<T: ConfigDBTrait>(
        &self,
        cache: &mut PolicyCache,
        config_db: &T,
        now_ms: u64,
    ) -> (alerts: Vec<PendingAlert>)
        requires
            self.wf(),
        ensures
            old(cache).loaded ==> *final(cache) == *old(cache),
            *final(cache) == *old(cache) || final(cache).loaded,
            alerts_view(alerts@) == hb_alerts_view(
                self.process_heart_beat_info.view_seq(),
                final(cache).intervals@,
                now_ms,
            ),
            forall|j: int| 0 <= j < alerts@.len() ==> alerts@[j].kind == AlertKind::Stuck,
    {
        cache.ensure_loaded(config_db);
        let ghost s = self.process_heart_beat_info.view_seq();
        let ghost ivs = cache.intervals@;
        let mut alerts: Vec<PendingAlert> = Vec::new();
        let n = self.process_heart_beat_info.entries.len();
        let mut i: usize = 0;
        proof {
            assert(alerts_view(alerts@) =~= hb_alerts_view(s.take(0), ivs, now_ms));
        }
        while i < n
            invariant
                s == self.process_heart_beat_info.view_seq(),
                ivs == cache.intervals@,
                old(cache).loaded ==> *cache == *old(cache),
                *cache == *old(cache) || cache.loaded,
                n == self.process_heart_beat_info.entries@.len(),
                n == s.len(),
                i <= n,
                alerts_view(alerts@) == hb_alerts_view(s.take(i as int), ivs, now_ms),
                forall|j: int| 0 <= j < alerts@.len() ==> alerts@[j].kind == AlertKind::Stuck,
            decreases n - i,
        {
            proof {
                assert(s.take(i + 1).drop_last() =~= s.take(i as int));
                assert(s.take(i + 1).last() == s[i as int]);
            }
            let last = self.process_heart_beat_info.entries[i].1;
            let iv = match cache.intervals.get(self.process_heart_beat_info.entries[i].0.as_str()) {
                Some(ms) => *ms,
                None => ALERTING_INTERVAL_MS,
            };
            let ghost aprev = alerts@;
            if now_ms >= last && now_ms - last >= iv {
                let elapsed_mins = (now_ms - last) / 60000;
                alerts.push(
                    PendingAlert {
                        process_name: self.process_heart_beat_info.entries[i].0.clone(),
                        minutes: elapsed_mins,
                        kind: AlertKind::Stuck,
                    },
                );
                proof {
                    assert(alerts_view(alerts@) =~= alerts_view(aprev).push(
                        (s[i as int].0, ((now_ms - s[i as int].1) / 60000) as u64),
                    ));
                    assert(alerts_view(alerts@) =~= hb_alerts_view(s.take(i + 1), ivs, now_ms));
                }
            } else {
                proof {
                    assert(alerts_view(alerts@) =~= hb_alerts_view(s.take(i + 1), ivs, now_ms));
                }
            }
            i += 1;
        }
        proof {
            assert(s.take(n as int) =~= s);
        }
        alerts
    }
}

pub open spec fn spec_namespace(prefix: Seq<char>, id: Seq<char>) -> Seq<char> {
    if prefix.len() == 0 || id.len() == 0 {
        "host"@
    } else {
        prefix + id
    }
}

/// The device namespace an alert reports: the two environment-provided
/// parts joined, or the literal `host` when either is absent.
pub fn namespace_of(namespace_prefix: &str, namespace_id: &str) -> (r: String)
    ensures
        r@ == spec_namespace(namespace_prefix@, namespace_id@),
{
    if namespace_prefix.unicode_len() == 0 || namespace_id.unicode_len() == 0 {
        String::from_str("host")
    } else {
        String::from_str(namespace_prefix).concat(namespace_id)
    }
}

pub open spec fn spec_alert_message(
    process: Seq<char>,
    status: Seq<char>,
    namespace: Seq<char>,
    minutes: u64,
) -> Seq<char> {
    "Process '"@ + process + "' is "@ + status + " in namespace '"@ + namespace + "' ("@
        + u64_dec_spec(minutes as int) + " minutes)."@
}

/// The alert line as logged, identical in shape for both kinds: the
/// process, the status word, the namespace, and the minute count.
pub fn generate_alerting_message(
    process_name: &str,
    status: &str,
    dead_minutes: u64,
    namespace: &str,
) -> (r: String)
    ensures
        r@ == spec_alert_message(process_name@, status@, namespace@, dead_minutes),
{
    let mut m = String::from_str("Process '");
    m.append(process_name);
    m.append("' is ");
    m.append(status);
    m.append(" in namespace '");
    m.append(namespace);
    m.append("' (");
    let num = u64_to_string(dead_minutes);
    m.append(num.as_str());
    m.append(" minutes).");
    proof {
        assert(m@ =~= spec_alert_message(process_name@, status@, namespace@, dead_minutes));
    }
    m
}

/// The status word of an alert kind: the one word in which the two
/// messages differ.
pub fn alert_status(kind: AlertKind) -> (r: &'static str)
    ensures
        kind == AlertKind::NotRunning ==> r@ == "not running"@,
        kind == AlertKind::Stuck ==> r@ == "stuck"@,
{
    match kind {
        AlertKind::NotRunning => "not running",
        AlertKind::Stuck => "stuck",
    }
}

/// The syslog priority of an alert kind: error for a dead critical
/// process, warning for a stuck watched one.
pub fn alert_priority(kind: AlertKind) -> (r: i32)
    ensures
        kind == AlertKind::NotRunning ==> r == 3,
        kind == AlertKind::Stuck ==> r == 4,
{
    match kind {
        AlertKind::NotRunning => 3,
        AlertKind::Stuck => 4,
    }
}

/// The parameter list of a published crash notification: the process that
/// exited and the container it ran in.
pub fn crash_event_params(process_name: &str, container_name: &str) -> (r: Vec<(String, String)>)
    ensures
        r@.len() == 2,
        r@[0].0@ == "process_name"@,
        r@[0].1@ == process_name@,
        r@[1].0@ == "ctr_name"@,
        r@[1].1@ == container_name@,
{
    let mut params: Vec<(String, String)> = Vec::new();
    params.push((String::from_str("process_name"), String::from_str(process_name)));
    params.push((String::from_str("ctr_name"), String::from_str(container_name)));
    params
}

/// Law: one alerting pass keeps every pending process pending under its
/// own name, moves no alert clock backwards, and never lowers an
/// accumulated dead-minutes counter.
pub proof fn lemma_dead_tick_monotonic(s: Seq<(Seq<char>, AlertRecord)>, now: u64)
    requires
        forall|i: int| 0 <= i < s.len() ==> alert_rec_wf((#[trigger] s[i]).1),
    ensures
        dead_tick_entries(s, now).len() == s.len(),
        forall|i: int|
            0 <= i < s.len() ==> (#[trigger] dead_tick_entries(s, now)[i]).0 == s[i].0,
        forall|i: int|
            0 <= i < s.len() ==> (#[trigger] dead_tick_entries(s, now)[i]).1.dead_minutes
                >= s[i].1.dead_minutes,
        forall|i: int|
            0 <= i < s.len() ==> (#[trigger] dead_tick_entries(s, now)[i]).1.last_alerted_ms
                >= s[i].1.last_alerted_ms,
{
    assert forall|i: int|
        0 <= i < s.len() implies (#[trigger] dead_tick_entries(s, now)[i]).1.dead_minutes
        >= s[i].1.dead_minutes && dead_tick_entries(s, now)[i].1.last_alerted_ms
        >= s[i].1.last_alerted_ms && dead_tick_entries(s, now)[i].0 == s[i].0 by {
        let r = s[i].1;
        if rec_due(r, now) {
            lemma_div_sum_le(r.last_alerted_ms as int, now - r.last_alerted_ms, 60000);
            vstd::arithmetic::div_mod::lemma_div_nonincreasing(now as int, 60000);
            vstd::arithmetic::div_mod::lemma_div_pos_is_pos(now - r.last_alerted_ms, 60000);
        }
    }
}

/// Law: an alert that fires charges at least one whole minute: once a
/// full interval has elapsed, the bumped record's counter strictly grows,
/// so the first alert after a fresh record reports at least one minute.
pub proof fn lemma_alert_charges_minute(r: AlertRecord, now: u64)
    requires
        alert_rec_wf(r),
        rec_due(r, now),
    ensures
        rec_bumped(r, now).dead_minutes >= r.dead_minutes + 1,
{
    lemma_div_sum_le(r.last_alerted_ms as int, now - r.last_alerted_ms, 60000);
    vstd::arithmetic::div_mod::lemma_div_nonincreasing(now as int, 60000);
    assert((now - r.last_alerted_ms) / 60000 >= 1) by {
        vstd::arithmetic::div_mod::lemma_div_is_ordered(
            60000,
            now - r.last_alerted_ms,
            60000,
        );
    };
}

/// Law: every alert of one alerting pass names a process that holds a
/// pending record; a process whose record was removed, and for which none
/// was created again, is never alerted for.
pub proof fn lemma_dead_alert_keys(s: Seq<(Seq<char>, AlertRecord)>, now: u64)
    ensures
        forall|j: int|
            0 <= j < dead_alerts_view(s, now).len() ==> has_key(
                s,
                (#[trigger] dead_alerts_view(s, now)[j]).0,
            ),
    decreases s.len(),
{
    if s.len() > 0 {
        lemma_dead_alert_keys(s.drop_last(), now);
        assert forall|j: int|
            0 <= j < dead_alerts_view(s, now).len() implies has_key(
            s,
            (#[trigger] dead_alerts_view(s, now)[j]).0,
        ) by {
            let prev = dead_alerts_view(s.drop_last(), now);
            if j < prev.len() {
                assert(has_key(s.drop_last(), prev[j].0));
                let i = choose|i: int|
                    0 <= i < s.drop_last().len() && s.drop_last()[i].0 == prev[j].0;
                assert(s[i].0 == prev[j].0);
            } else {
                assert(s[s.len() - 1].0 == dead_alerts_view(s, now)[j].0);
            }
        }
    }
}

/// Law: after a running event removed a process's pending record, the
/// alerting pass emits nothing further for it.
pub proof fn lemma_removed_process_never_alerts(
    s: Seq<(Seq<char>, AlertRecord)>,
    now: u64,
    p: Seq<char>,
)
    requires
        !has_key(s, p),
    ensures
        forall|j: int|
            0 <= j < dead_alerts_view(s, now).len() ==> (#[trigger] dead_alerts_view(
                s,
                now,
            )[j]).0 != p,
{
    lemma_dead_alert_keys(s, now);
}

/// Law: one alerting pass alerts for a pending process exactly when a
/// full interval has elapsed since its last alert — then exactly once,
/// carrying its new cumulative dead-minute count, which the fresh record
/// of an unexpected exit makes at least one — and not at all otherwise.
pub proof fn lemma_dead_alerts_at(s: Seq<(Seq<char>, AlertRecord)>, now: u64, i: int)
    requires
        unique_keys(s),
        0 <= i < s.len(),
    ensures
        rec_due(s[i].1, now) ==> exists|j: int|
            0 <= j < dead_alerts_view(s, now).len() && dead_alerts_view(s, now)[j] == (
                s[i].0,
                rec_bumped(s[i].1, now).dead_minutes,
            ),
        !rec_due(s[i].1, now) ==> forall|j: int|
            0 <= j < dead_alerts_view(s, now).len() ==> (#[trigger] dead_alerts_view(
                s,
                now,
            )[j]).0 != s[i].0,
        forall|j: int, k: int|
            0 <= j < k < dead_alerts_view(s, now).len() ==> (#[trigger] dead_alerts_view(
                s,
                now,
            )[j]).0 != (#[trigger] dead_alerts_view(s, now)[k]).0,
    decreases s.len(),
{
    let dav = dead_alerts_view(s, now);
    let prev = dead_alerts_view(s.drop_last(), now);
    if s.len() > 0 {
        assert(forall|x: int|
            0 <= x < s.len() - 1 ==> #[trigger] s.drop_last()[x] == s[x]);
        if i < s.len() - 1 {
            lemma_dead_alerts_at(s.drop_last(), now, i);
            if rec_due(s[i].1, now) {
                let j = choose|j: int|
                    0 <= j < prev.len() && prev[j] == (s[i].0, rec_bumped(s[i].1, now).dead_minutes);
                assert(dav[j] == (s[i].0, rec_bumped(s[i].1, now).dead_minutes));
            } else {
                assert forall|j: int| 0 <= j < dav.len() implies (#[trigger] dav[j]).0 != s[i].0 by {
                    if j >= prev.len() {
                        assert(dav[j].0 == s[s.len() - 1].0);
                    }
                }
            }
        } else {
            lemma_removed_from_unique(s, now);
            if rec_due(s[i].1, now) {
                assert(dav[dav.len() - 1] == (s[i].0, rec_bumped(s[i].1, now).dead_minutes));
            }
        }
        lemma_dead_alerts_pairwise(s, now);
    }
}

/// The last record's name is absent from the earlier records of a table
/// with unique names, so the pass over those records never alerts for it.
proof fn lemma_removed_from_unique(s: Seq<(Seq<char>, AlertRecord)>, now: u64)
    requires
        unique_keys(s),
        s.len() > 0,
    ensures
        forall|j: int|
            0 <= j < dead_alerts_view(s.drop_last(), now).len() ==> (
            #[trigger] dead_alerts_view(s.drop_last(), now)[j]).0 != s[s.len() - 1].0,
{
    assert(!has_key(s.drop_last(), s[s.len() - 1].0)) by {
        if has_key(s.drop_last(), s[s.len() - 1].0) {
            let x = choose|x: int|
                0 <= x < s.drop_last().len() && s.drop_last()[x].0 == s[s.len() - 1].0;
            assert(s[x].0 == s[s.len() - 1].0);
        }
    };
    lemma_removed_process_never_alerts(s.drop_last(), now, s[s.len() - 1].0);
}

/// Alerts of one pass carry pairwise distinct names when the records do.
proof fn lemma_dead_alerts_pairwise(s: Seq<(Seq<char>, AlertRecord)>, now: u64)
    requires
        unique_keys(s),
    ensures
        forall|j: int, k: int|
            0 <= j < k < dead_alerts_view(s, now).len() ==> (#[trigger] dead_alerts_view(
                s,
                now,
            )[j]).0 != (#[trigger] dead_alerts_view(s, now)[k]).0,
    decreases s.len(),
{
    if s.len() > 0 {
        assert(forall|x: int|
            0 <= x < s.len() - 1 ==> #[trigger] s.drop_last()[x] == s[x]);
        lemma_dead_alerts_pairwise(s.drop_last(), now);
        lemma_removed_from_unique(s, now);
        let dav = dead_alerts_view(s, now);
        let prev = dead_alerts_view(s.drop_last(), now);
        assert forall|j: int, k: int|
            0 <= j < k < dav.len() implies (#[trigger] dav[j]).0 != (#[trigger] dav[k]).0 by {
            if k < prev.len() {
                assert(dav[j] == prev[j] && dav[k] == prev[k]);
            } else {
                assert(dav[k].0 == s[s.len() - 1].0);
                assert(dav[j] == prev[j]);
            }
        }
    }
}

/// Law: every stuck alert of one heartbeat pass names a watched process
/// with a heartbeat record.
pub proof fn lemma_hb_alert_keys(s: Seq<(Seq<char>, u64)>, ivs: Map<Seq<char>, u64>, now: u64)
    ensures
        forall|j: int|
            0 <= j < hb_alerts_view(s, ivs, now).len() ==> has_key(
                s,
                (#[trigger] hb_alerts_view(s, ivs, now)[j]).0,
            ),
    decreases s.len(),
{
    if s.len() > 0 {
        lemma_hb_alert_keys(s.drop_last(), ivs, now);
        assert forall|j: int|
            0 <= j < hb_alerts_view(s, ivs, now).len() implies has_key(
            s,
            (#[trigger] hb_alerts_view(s, ivs, now)[j]).0,
        ) by {
            let prev = hb_alerts_view(s.drop_last(), ivs, now);
            if j < prev.len() {
                assert(has_key(s.drop_last(), prev[j].0));
                let i = choose|i: int|
                    0 <= i < s.drop_last().len() && s.drop_last()[i].0 == prev[j].0;
                assert(s[i].0 == prev[j].0);
            } else {
                assert(s[s.len() - 1].0 == hb_alerts_view(s, ivs, now)[j].0);
            }
        }
    }
}

/// Law: one heartbeat pass alerts for a watched process exactly when its
/// last activity lies at least its configured interval back — then with
/// the elapsed whole minutes — and not at all otherwise.
pub proof fn lemma_hb_alerts_at(
    s: Seq<(Seq<char>, u64)>,
    ivs: Map<Seq<char>, u64>,
    now: u64,
    i: int,
)
    requires
        unique_keys(s),
        0 <= i < s.len(),
    ensures
        beat_due(s[i].1, spec_interval_for(ivs, s[i].0), now) ==> exists|j: int|
            0 <= j < hb_alerts_view(s, ivs, now).len() && hb_alerts_view(s, ivs, now)[j] == (
                s[i].0,
                ((now - s[i].1) / 60000) as u64,
            ),
        !beat_due(s[i].1, spec_interval_for(ivs, s[i].0), now) ==> forall|j: int|
            0 <= j < hb_alerts_view(s, ivs, now).len() ==> (#[trigger] hb_alerts_view(
                s,
                ivs,
                now,
            )[j]).0 != s[i].0,
    decreases s.len(),
{
    let hav = hb_alerts_view(s, ivs, now);
    let prev = hb_alerts_view(s.drop_last(), ivs, now);
    if s.len() > 0 {
        assert(forall|x: int|
            0 <= x < s.len() - 1 ==> #[trigger] s.drop_last()[x] == s[x]);
        if i < s.len() - 1 {
            lemma_hb_alerts_at(s.drop_last(), ivs, now, i);
            if beat_due(s[i].1, spec_interval_for(ivs, s[i].0), now) {
                let j = choose|j: int|
                    0 <= j < prev.len() && prev[j] == (s[i].0, ((now - s[i].1) / 60000) as u64);
                assert(hav[j] == (s[i].0, ((now - s[i].1) / 60000) as u64));
            } else {
                assert forall|j: int| 0 <= j < hav.len() implies (#[trigger] hav[j]).0 != s[i].0 by {
                    if j >= prev.len() {
                        assert(hav[j].0 == s[s.len() - 1].0);
                    }
                }
            }
        } else {
            assert(!has_key(s.drop_last(), s[s.len() - 1].0)) by {
                if has_key(s.drop_last(), s[s.len() - 1].0) {
                    let x = choose|x: int|
                        0 <= x < s.drop_last().len() && s.drop_last()[x].0 == s[s.len() - 1].0;
                    assert(s[x].0 == s[s.len() - 1].0);
                }
            };
            lemma_hb_alert_keys(s.drop_last(), ivs, now);
            if beat_due(s[i].1, spec_interval_for(ivs, s[i].0), now) {
                assert(hav[hav.len() - 1] == (s[i].0, ((now - s[i].1) / 60000) as u64));
            }
        }
    }
}

/// Law: staleness persists.  A heartbeat record that one pass found stale
/// stays stale at every later time, and — since the pass changes neither
/// the records nor the intervals — every later pass alerts for the same
/// process again until new activity overwrites its record.
pub proof fn lemma_stuck_keeps_alerting(
    s: Seq<(Seq<char>, u64)>,
    ivs: Map<Seq<char>, u64>,
    now1: u64,
    now2: u64,
    i: int,
)
    requires
        unique_keys(s),
        0 <= i < s.len(),
        now1 <= now2,
        beat_due(s[i].1, spec_interval_for(ivs, s[i].0), now1),
    ensures
        exists|j: int|
            0 <= j < hb_alerts_view(s, ivs, now2).len() && hb_alerts_view(s, ivs, now2)[j] == (
                s[i].0,
                ((now2 - s[i].1) / 60000) as u64,
            ),
{
    lemma_hb_alerts_at(s, ivs, now2, i);
}

/// The declared payload length of a header line: `None` for a malformed
/// line without any `len` token, which the loop drops without reading a
/// payload and without acknowledging; otherwise the declared length,
/// unparsable text counting as zero.
pub fn declared_payload_len(line: &str) -> (r: Option<usize>)
    ensures
        r is Some <==> header_field(line@, "len"@) is Some,
        r matches Some(v) ==> v == crate::childutils::header_len(line@),
{
    match crate::textparse::field_value(line, "len") {
        Some(v) => Some(
            match crate::numbers::parse_usize(v.as_str()) {
                Some(x) => x,
                None => 0,
            },
        ),
        None => None,
    }
}

} // verus!
