//! The supervisor event protocol: decoding the header line of a
//! notification, decoding the first line of a process-event payload, and the
//! fixed acknowledgement tokens of the listener handshake.

use crate::numbers::{
    lemma_digits_plain, lemma_u64_dec_digits, lemma_u64_dec_parses, lemma_usize_dec_parses,
    parse_i32, parse_i32_or_zero, parse_u32, parse_u32_spec, parse_u64, parse_u64_or_zero,
    parse_usize, parse_usize_or_zero, u64_dec_spec,
};
use crate::textparse::{
    field_value, find_nl, header_field, header_field_or, is_ws_char, join_lines_from, join_nl,
    join_sp, lemma_lookup_kv_absent, lemma_lookup_kv_unique, lemma_split_ws_join, lemma_token_kv,
    spec_lines, split_lines_from, split_ws_from, strip_cr, token_has_kv, token_key, token_value,
    ws_free,
};
use vstd::prelude::*;

verus! {

broadcast use vstd::string::group_string_axioms;

#[derive(Debug, Clone, PartialEq)]
pub enum ChildutilsError {
    Io(String),
    Parse(String),
}

/// The decoded header line of one notification.  Every absent field falls
/// back to its fixed default instead of failing.
#[derive(Debug, Clone)]
pub struct EventHeaders {
    pub ver: String,
    pub server: String,
    pub serial: u64,
    pub pool: String,
    pub poolserial: u64,
    pub eventname: String,
    pub len: usize,
}

/// The decoded first line of a process-event payload.
#[derive(Debug, Clone)]
pub struct ProcessEventHeaders {
    pub processname: String,
    pub groupname: String,
    pub from_state: String,
    pub expected: i32,
    pub pid: Option<u32>,
}

/// The listener handshake cycle: `Acknowledged` to `Ready` when `READY` is
/// written, `Ready` to `Busy` when a notification arrives, `Busy` back to
/// `Acknowledged` when the result is written.
#[derive(Debug, Clone, Copy, PartialEq, Eq, Structural)]
pub enum ListenerState {
    Acknowledged,
    Ready,
    Busy,
}

impl ListenerState {
    pub open spec fn spec_next(self) -> Self {
        match self {
            ListenerState::Acknowledged => ListenerState::Ready,
            ListenerState::Ready => ListenerState::Busy,
            ListenerState::Busy => ListenerState::Acknowledged,
        }
    }

    /// One step of the handshake cycle.
    pub fn next(self) -> (r: Self)
        ensures
            r == self.spec_next(),
    {
        match self {
            ListenerState::Acknowledged => ListenerState::Ready,
            ListenerState::Ready => ListenerState::Busy,
            ListenerState::Busy => ListenerState::Acknowledged,
        }
    }
}

/// The token written when the listener becomes ready for a notification.
pub fn ready_token() -> (r: &'static str)
    ensures
        r@ == "READY\n"@,
{
    "READY\n"
}

/// The token written when a notification has been fully processed.
pub fn ok_token() -> (r: &'static str)
    ensures
        r@ == "RESULT 2\nOK"@,
{
    "RESULT 2\nOK"
}

pub open spec fn header_ver(line: Seq<char>) -> Seq<char> {
    header_field_or(line, "ver"@, Seq::empty())
}

pub open spec fn header_server(line: Seq<char>) -> Seq<char> {
    header_field_or(line, "server"@, "supervisor"@)
}

pub open spec fn header_serial(line: Seq<char>) -> u64 {
    parse_u64_or_zero(header_field_or(line, "serial"@, Seq::empty()))
}

pub open spec fn header_pool(line: Seq<char>) -> Seq<char> {
    header_field_or(line, "pool"@, "supervisor"@)
}

pub open spec fn header_poolserial(line: Seq<char>) -> u64 {
    parse_u64_or_zero(header_field_or(line, "poolserial"@, Seq::empty()))
}

pub open spec fn header_eventname(line: Seq<char>) -> Seq<char> {
    header_field_or(line, "eventname"@, Seq::empty())
}

pub open spec fn header_len(line: Seq<char>) -> usize {
    parse_usize_or_zero(header_field_or(line, "len"@, Seq::empty()))
}

/// Decodes a header line of whitespace-separated `key:value` tokens.  Never
/// fails: every missing or unparsable field becomes its default.
pub fn get_headers(line: &str) -> (r: Result<EventHeaders, ChildutilsError>)
    ensures
        r is Ok,
        r matches Ok(h) ==> {
            &&& h.ver@ == header_ver(line@)
            &&& h.server@ == header_server(line@)
            &&& h.serial == header_serial(line@)
            &&& h.pool@ == header_pool(line@)
            &&& h.poolserial == header_poolserial(line@)
            &&& h.eventname@ == header_eventname(line@)
            &&& h.len == header_len(line@)
        },
{
    let ver = match field_value(line, "ver") {
        Some(v) => v,
        None => String::new(),
    };
    let server = match field_value(line, "server") {
        Some(v) => v,
        None => String::from_str("supervisor"),
    };
    let serial: u64 = match field_value(line, "serial") {
        Some(v) => match parse_u64(v.as_str()) {
            Some(x) => x,
            None => 0,
        },
        None => 0,
    };
    let pool = match field_value(line, "pool") {
        Some(v) => v,
        None => String::from_str("supervisor"),
    };
    let poolserial: u64 = match field_value(line, "poolserial") {
        Some(v) => match parse_u64(v.as_str()) {
            Some(x) => x,
            None => 0,
        },
        None => 0,
    };
    let eventname = match field_value(line, "eventname") {
        Some(v) => v,
        None => String::new(),
    };
    let len: usize = match field_value(line, "len") {
        Some(v) => match parse_usize(v.as_str()) {
            Some(x) => x,
            None => 0,
        },
        None => 0,
    };
    Ok(EventHeaders { ver, server, serial, pool, poolserial, eventname, len })
}

/// The first line of a payload, as the standard `lines` iterator yields it.
pub open spec fn payload_first_line(payload: Seq<char>) -> Seq<char> {
    spec_lines(payload)[0]
}

/// Everything after the first line of a payload, rejoined with `'\n'`.
pub open spec fn payload_trailing_data(payload: Seq<char>) -> Seq<char> {
    join_nl(spec_lines(payload).drop_first())
}

/// Decodes a process-event payload: the first line as `key:value` tokens
/// into `ProcessEventHeaders`, the remaining lines rejoined as opaque data.
/// Only an empty payload is refused.
pub fn eventdata(payload: &str) -> (r: Result<(ProcessEventHeaders, String), ChildutilsError>)
    ensures
        r is Err <==> payload@.len() == 0,
        r matches Err(e) ==> e matches ChildutilsError::Parse(m) && m@ == "Empty payload"@,
        r matches Ok(p) ==> {
            let first = payload_first_line(payload@);
            &&& p.0.processname@ == header_field_or(first, "processname"@, Seq::empty())
            &&& p.0.groupname@ == header_field_or(first, "groupname"@, Seq::empty())
            &&& p.0.from_state@ == header_field_or(first, "from_state"@, Seq::empty())
            &&& p.0.expected == parse_i32_or_zero(header_field_or(first, "expected"@, Seq::empty()))
            &&& p.0.pid == (match header_field(first, "pid"@) {
                Some(v) => parse_u32_spec(v),
                None => None,
            })
            &&& p.1@ == payload_trailing_data(payload@)
        },
{
    let n = payload.unicode_len();
    if n == 0 {
        return Err(ChildutilsError::Parse(String::from_str("Empty payload")));
    }
    let e1 = find_nl(payload, 0);
    let mut f = e1;
    if e1 < n && e1 > 0 && payload.get_char(e1 - 1) == '\r' {
        f = e1 - 1;
    }
    proof {
        if e1 < n {
            assert(payload_first_line(payload@) == strip_cr(
                payload@.subrange(0, e1 as int),
            ));
            assert(strip_cr(payload@.subrange(0, e1 as int)) =~= payload@.subrange(
                0,
                f as int,
            ));
        } else {
            assert(payload_first_line(payload@) =~= payload@.subrange(0, f as int));
        }
    }
    let first_line = payload.substring_char(0, f);
    let processname = match field_value(first_line, "processname") {
        Some(v) => v,
        None => String::new(),
    };
    let groupname = match field_value(first_line, "groupname") {
        Some(v) => v,
        None => String::new(),
    };
    let from_state = match field_value(first_line, "from_state") {
        Some(v) => v,
        None => String::new(),
    };
    let expected: i32 = match field_value(first_line, "expected") {
        Some(v) => match parse_i32(v.as_str()) {
            Some(x) => x,
            None => 0,
        },
        None => 0,
    };
    let pid: Option<u32> = match field_value(first_line, "pid") {
        Some(v) => parse_u32(v.as_str()),
        None => None,
    };
    let data = if e1 < n {
        join_lines_from(payload, e1 + 1)
    } else {
        String::new()
    };
    proof {
        if e1 < n {
            assert(spec_lines(payload@).drop_first() =~= split_lines_from(payload@, e1 + 1));
        } else {
            assert(spec_lines(payload@) =~= seq![payload_first_line(payload@)]);
            assert(spec_lines(payload@).drop_first() =~= Seq::<Seq<char>>::empty());
        }
    }
    Ok((ProcessEventHeaders { processname, groupname, from_state, expected, pid }, data))
}

/// The canonical rendering of full event headers as one header line: the
/// seven `key:value` tokens joined with single spaces.
pub open spec fn spec_header_line(
    ver: Seq<char>,
    server: Seq<char>,
    serial: u64,
    pool: Seq<char>,
    poolserial: u64,
    eventname: Seq<char>,
    len: usize,
) -> Seq<char> {
    join_sp(
        seq![
            "ver:"@ + ver,
            "server:"@ + server,
            "serial:"@ + u64_dec_spec(serial as int),
            "pool:"@ + pool,
            "poolserial:"@ + u64_dec_spec(poolserial as int),
            "eventname:"@ + eventname,
            "len:"@ + u64_dec_spec(len as int),
        ],
    )
}

/// One `key:value` token of a header line, with facts about its shape:
/// whitespace-free for the tokenizer, and carrying exactly its pair.
proof fn lemma_header_token(key: Seq<char>, keycolon: Seq<char>, value: Seq<char>)
    requires
        keycolon == key + seq![':'],
        forall|i: int| 0 <= i < key.len() ==> !is_ws_char(#[trigger] key[i]) && key[i] != ':',
        ws_free(value),
    ensures
        (keycolon + value).len() > 0,
        ws_free(keycolon + value),
        token_has_kv(keycolon + value),
        token_key(keycolon + value) == key,
        token_value(keycolon + value) == value,
{
    let t = keycolon + value;
    assert(t =~= key + seq![':'] + value);
    lemma_token_kv(key, value);
    assert forall|i: int| 0 <= i < t.len() implies !is_ws_char(t[i]) by {
        if i < key.len() {
            assert(t[i] == key[i]);
        } else if i == key.len() {
            assert(t[i] == ':');
        } else {
            assert(t[i] == value[i - key.len() - 1]);
        }
    }
}

/// Law: decoding round-trips a well-formed header line.  A line assembled
/// from the seven header fields — the string fields free of whitespace,
/// the numbers in plain decimal — decodes back to exactly those fields.
pub proof fn lemma_decode_headers_round_trip(
    ver: Seq<char>,
    server: Seq<char>,
    serial: u64,
    pool: Seq<char>,
    poolserial: u64,
    eventname: Seq<char>,
    len: usize,
)
    requires
        ws_free(ver),
        ws_free(server),
        ws_free(pool),
        ws_free(eventname),
    ensures
        ({
            let line = spec_header_line(ver, server, serial, pool, poolserial, eventname, len);
            &&& header_ver(line) == ver
            &&& header_server(line) == server
            &&& header_serial(line) == serial
            &&& header_pool(line) == pool
            &&& header_poolserial(line) == poolserial
            &&& header_eventname(line) == eventname
            &&& header_len(line) == len
        }),
{
    reveal_strlit("ver:");
    reveal_strlit("ver");
    reveal_strlit("server:");
    reveal_strlit("server");
    reveal_strlit("serial:");
    reveal_strlit("serial");
    reveal_strlit("pool:");
    reveal_strlit("pool");
    reveal_strlit("poolserial:");
    reveal_strlit("poolserial");
    reveal_strlit("eventname:");
    reveal_strlit("eventname");
    reveal_strlit("len:");
    reveal_strlit("len");
    lemma_u64_dec_digits(serial as int);
    lemma_u64_dec_digits(poolserial as int);
    lemma_u64_dec_digits(len as int);
    lemma_digits_plain(u64_dec_spec(serial as int));
    lemma_digits_plain(u64_dec_spec(poolserial as int));
    lemma_digits_plain(u64_dec_spec(len as int));
    let t0 = "ver:"@ + ver;
    let t1 = "server:"@ + server;
    let t2 = "serial:"@ + u64_dec_spec(serial as int);
    let t3 = "pool:"@ + pool;
    let t4 = "poolserial:"@ + u64_dec_spec(poolserial as int);
    let t5 = "eventname:"@ + eventname;
    let t6 = "len:"@ + u64_dec_spec(len as int);
    let ts = seq![t0, t1, t2, t3, t4, t5, t6];
    assert("ver:"@ =~= "ver"@ + seq![':']);
    assert("server:"@ =~= "server"@ + seq![':']);
    assert("serial:"@ =~= "serial"@ + seq![':']);
    assert("pool:"@ =~= "pool"@ + seq![':']);
    assert("poolserial:"@ =~= "poolserial"@ + seq![':']);
    assert("eventname:"@ =~= "eventname"@ + seq![':']);
    assert("len:"@ =~= "len"@ + seq![':']);
    lemma_header_token("ver"@, "ver:"@, ver);
    lemma_header_token("server"@, "server:"@, server);
    lemma_header_token("serial"@, "serial:"@, u64_dec_spec(serial as int));
    lemma_header_token("pool"@, "pool:"@, pool);
    lemma_header_token("poolserial"@, "poolserial:"@, u64_dec_spec(poolserial as int));
    lemma_header_token("eventname"@, "eventname:"@, eventname);
    lemma_header_token("len"@, "len:"@, u64_dec_spec(len as int));
    assert(forall|k: int| 0 <= k < ts.len() ==> (#[trigger] ts[k]).len() > 0 && ws_free(ts[k]));
    assert("server"@[3] != "serial"@[3]);
    assert("server"@ != "serial"@);
    lemma_split_ws_join(ts);
    let line = spec_header_line(ver, server, serial, pool, poolserial, eventname, len);
    assert(split_ws_from(line, 0) == ts);
    lemma_lookup_kv_unique(ts, 0, "ver"@);
    lemma_lookup_kv_unique(ts, 1, "server"@);
    lemma_lookup_kv_unique(ts, 2, "serial"@);
    lemma_lookup_kv_unique(ts, 3, "pool"@);
    lemma_lookup_kv_unique(ts, 4, "poolserial"@);
    lemma_lookup_kv_unique(ts, 5, "eventname"@);
    lemma_lookup_kv_unique(ts, 6, "len"@);
    lemma_u64_dec_parses(serial);
    lemma_u64_dec_parses(poolserial);
    lemma_usize_dec_parses(len);
}

/// The canonical rendering of a header line that carries only an event
/// name and a length.
pub open spec fn spec_minimal_header_line(eventname: Seq<char>, len: usize) -> Seq<char> {
    join_sp(seq!["eventname:"@ + eventname, "len:"@ + u64_dec_spec(len as int)])
}

/// Law: decoding defaults every absent field exactly as specified.  A line
/// carrying only the event name and the length decodes with the empty
/// version, the `supervisor` server and pool, and zero serials.
pub proof fn lemma_decode_headers_defaults(eventname: Seq<char>, len: usize)
    requires
        ws_free(eventname),
    ensures
        ({
            let line = spec_minimal_header_line(eventname, len);
            &&& header_ver(line) == Seq::<char>::empty()
            &&& header_server(line) == "supervisor"@
            &&& header_serial(line) == 0
            &&& header_pool(line) == "supervisor"@
            &&& header_poolserial(line) == 0
            &&& header_eventname(line) == eventname
            &&& header_len(line) == len
        }),
{
    reveal_strlit("ver");
    reveal_strlit("server");
    reveal_strlit("serial");
    reveal_strlit("pool");
    reveal_strlit("poolserial");
    reveal_strlit("eventname:");
    reveal_strlit("eventname");
    reveal_strlit("len:");
    reveal_strlit("len");
    lemma_u64_dec_digits(len as int);
    lemma_digits_plain(u64_dec_spec(len as int));
    let t0 = "eventname:"@ + eventname;
    let t1 = "len:"@ + u64_dec_spec(len as int);
    let ts = seq![t0, t1];
    assert("eventname:"@ =~= "eventname"@ + seq![':']);
    assert("len:"@ =~= "len"@ + seq![':']);
    lemma_header_token("eventname"@, "eventname:"@, eventname);
    lemma_header_token("len"@, "len:"@, u64_dec_spec(len as int));
    assert(forall|k: int| 0 <= k < ts.len() ==> (#[trigger] ts[k]).len() > 0 && ws_free(ts[k]));
    lemma_split_ws_join(ts);
    let line = spec_minimal_header_line(eventname, len);
    assert(split_ws_from(line, 0) == ts);
    lemma_lookup_kv_unique(ts, 0, "eventname"@);
    lemma_lookup_kv_unique(ts, 1, "len"@);
    lemma_lookup_kv_absent(ts, "ver"@);
    lemma_lookup_kv_absent(ts, "server"@);
    lemma_lookup_kv_absent(ts, "serial"@);
    lemma_lookup_kv_absent(ts, "pool"@);
    lemma_lookup_kv_absent(ts, "poolserial"@);
    lemma_usize_dec_parses(len);
}

} // verus!
