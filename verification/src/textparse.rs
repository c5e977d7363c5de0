//! Text-level building blocks of the wire protocol: splitting a line into
//! whitespace-separated tokens, reading `key:value` tokens with the last
//! occurrence of a key winning, splitting a payload into lines, and decimal
//! number parsing and formatting.

use vstd::prelude::*;

verus! {

broadcast use vstd::string::group_string_axioms;

/// ASCII whitespace: the separators between tokens of a header line.
pub open spec fn is_ws_char(c: char) -> bool {
    c == ' ' || c == '\t' || c == '\n' || c == '\r' || c == '\u{b}' || c == '\u{c}'
}

/// Index of the first whitespace character of `s` at or after `i`, or
/// `s.len()` if the rest of `s` is one unbroken token.
pub open spec fn token_end(s: Seq<char>, i: int) -> int
    decreases s.len() - i,
    when 0 <= i <= s.len()
{
    if i >= s.len() || is_ws_char(s[i]) {
        i
    } else {
        token_end(s, i + 1)
    }
}

pub proof fn lemma_token_end_bounds(s: Seq<char>, i: int)
    requires
        0 <= i <= s.len(),
    ensures
        i <= token_end(s, i) <= s.len(),
        forall|k: int| i <= k < token_end(s, i) ==> !is_ws_char(s[k]),
        token_end(s, i) < s.len() ==> is_ws_char(s[token_end(s, i)]),
    decreases s.len() - i,
{
    if i >= s.len() || is_ws_char(s[i]) {
    } else {
        lemma_token_end_bounds(s, i + 1);
    }
}

/// The tokens of `s` from position `i` on: maximal runs of non-whitespace
/// characters, in order.
pub open spec fn split_ws_from(s: Seq<char>, i: int) -> Seq<Seq<char>>
    decreases s.len() - i,
    when 0 <= i <= s.len()
    via split_ws_from_decreases
{
    if i >= s.len() {
        Seq::empty()
    } else if is_ws_char(s[i]) {
        split_ws_from(s, i + 1)
    } else {
        seq![s.subrange(i, token_end(s, i))] + split_ws_from(s, token_end(s, i))
    }
}

#[via_fn]
proof fn split_ws_from_decreases(s: Seq<char>, i: int) {
    if 0 <= i && i < s.len() && !is_ws_char(s[i]) {
        lemma_token_end_bounds(s, i);
        assert(token_end(s, i) == token_end(s, i + 1));
        lemma_token_end_bounds(s, i + 1);
    }
}

/// Index of the first `:` of `t` at or after `i`, or `-1` if there is none.
pub open spec fn colon_pos(t: Seq<char>, i: int) -> int
    decreases t.len() - i,
    when 0 <= i <= t.len()
{
    if i >= t.len() {
        -1
    } else if t[i] == ':' {
        i
    } else {
        colon_pos(t, i + 1)
    }
}

/// Whether a token carries a `key:value` pair at all.
pub open spec fn token_has_kv(t: Seq<char>) -> bool {
    colon_pos(t, 0) >= 0
}

/// The key of a `key:value` token: everything before the first `:`.
pub open spec fn token_key(t: Seq<char>) -> Seq<char> {
    t.subrange(0, colon_pos(t, 0))
}

/// The value of a `key:value` token: everything after the first `:`.
pub open spec fn token_value(t: Seq<char>) -> Seq<char> {
    t.subrange(colon_pos(t, 0) + 1, t.len() as int)
}

/// The value bound to `key` among `toks`, the last occurrence winning,
/// as filling a map from the tokens in order would leave it.
pub open spec fn lookup_kv(toks: Seq<Seq<char>>, key: Seq<char>) -> Option<Seq<char>>
    decreases toks.len(),
{
    if toks.len() == 0 {
        None
    } else {
        let t = toks.last();
        if token_has_kv(t) && token_key(t) == key {
            Some(token_value(t))
        } else {
            lookup_kv(toks.drop_last(), key)
        }
    }
}

/// The value of `key` in a line of whitespace-separated `key:value` tokens,
/// or `None` where no token carries that key.
pub open spec fn header_field(s: Seq<char>, key: Seq<char>) -> Option<Seq<char>> {
    lookup_kv(split_ws_from(s, 0), key)
}

/// `header_field`, with a default for an absent key.
pub open spec fn header_field_or(s: Seq<char>, key: Seq<char>, dflt: Seq<char>) -> Seq<char> {
    match header_field(s, key) {
        Some(v) => v,
        None => dflt,
    }
}

/// Index of the first `'\n'` of `s` at or after `i`, or `s.len()`.
pub open spec fn nl_pos(s: Seq<char>, i: int) -> int
    decreases s.len() - i,
    when 0 <= i <= s.len()
{
    if i >= s.len() || s[i] == '\n' {
        i
    } else {
        nl_pos(s, i + 1)
    }
}

pub proof fn lemma_nl_pos_bounds(s: Seq<char>, i: int)
    requires
        0 <= i <= s.len(),
    ensures
        i <= nl_pos(s, i) <= s.len(),
        forall|k: int| i <= k < nl_pos(s, i) ==> s[k] != '\n',
        nl_pos(s, i) < s.len() ==> s[nl_pos(s, i)] == '\n',
    decreases s.len() - i,
{
    if i >= s.len() || s[i] == '\n' {
    } else {
        lemma_nl_pos_bounds(s, i + 1);
    }
}

/// One carriage return stripped from the end of a line, as the standard
/// `lines` does for a `\r\n` terminator.
pub open spec fn strip_cr(l: Seq<char>) -> Seq<char> {
    if l.len() > 0 && l.last() == '\r' {
        l.drop_last()
    } else {
        l
    }
}

/// The lines of `s` from position `i` on, split at `'\n'` or `"\r\n"`, a
/// final line without terminator kept as it stands, exactly as the standard
/// `lines` iterator yields them.
pub open spec fn split_lines_from(s: Seq<char>, i: int) -> Seq<Seq<char>>
    decreases s.len() - i,
    when 0 <= i <= s.len()
    via split_lines_from_decreases
{
    if i >= s.len() {
        Seq::empty()
    } else {
        let e = nl_pos(s, i);
        if e >= s.len() {
            seq![s.subrange(i, e)]
        } else {
            seq![strip_cr(s.subrange(i, e))] + split_lines_from(s, e + 1)
        }
    }
}

#[via_fn]
proof fn split_lines_from_decreases(s: Seq<char>, i: int) {
    if 0 <= i && i < s.len() {
        lemma_nl_pos_bounds(s, i);
    }
}

/// The lines of `s`, as the standard `lines` iterator yields them.
pub open spec fn spec_lines(s: Seq<char>) -> Seq<Seq<char>> {
    split_lines_from(s, 0)
}

/// Lines joined back with single `'\n'` separators, as `join("\n")` leaves
/// them.
pub open spec fn join_nl(ls: Seq<Seq<char>>) -> Seq<char>
    decreases ls.len(),
{
    if ls.len() == 0 {
        Seq::empty()
    } else if ls.len() == 1 {
        ls[0]
    } else {
        join_nl(ls.drop_last()) + seq!['\n'] + ls.last()
    }
}

fn is_ws(c: char) -> (r: bool)
    ensures
        r == is_ws_char(c),
{
    c == ' ' || c == '\t' || c == '\n' || c == '\r' || c == '\u{b}' || c == '\u{c}'
}

/// No character of `t` is whitespace.
pub open spec fn ws_free(t: Seq<char>) -> bool {
    forall|i: int| 0 <= i < t.len() ==> !is_ws_char(t[i])
}

/// Tokens joined back with single spaces.
pub open spec fn join_sp(ts: Seq<Seq<char>>) -> Seq<char>
    decreases ts.len(),
{
    if ts.len() == 0 {
        Seq::empty()
    } else if ts.len() == 1 {
        ts[0]
    } else {
        ts[0] + seq![' '] + join_sp(ts.drop_first())
    }
}

/// A run of non-whitespace from `i` up to `e`, ended by whitespace or the
/// end of the text, is one token.
proof fn lemma_token_end_prefix(s: Seq<char>, i: int, e: int)
    requires
        0 <= i <= e <= s.len(),
        forall|j: int| i <= j < e ==> !is_ws_char(s[j]),
        e == s.len() || is_ws_char(s[e]),
    ensures
        token_end(s, i) == e,
    decreases e - i,
{
    if i < e {
        lemma_token_end_prefix(s, i + 1, e);
    }
}

proof fn lemma_token_end_shift(s: Seq<char>, i: int)
    requires
        0 <= i <= s.len(),
    ensures
        token_end(s.skip(i), 0) == token_end(s, i) - i,
{
    lemma_token_end_bounds(s, i);
    let e = token_end(s, i);
    assert(forall|j: int| 0 <= j < e - i ==> s.skip(i)[j] == s[i + j]);
    if e - i < s.skip(i).len() {
        assert(s.skip(i)[e - i] == s[e]);
    }
    lemma_token_end_prefix(s.skip(i), 0, e - i);
}

/// Splitting from position `i` is splitting the suffix from its start.
proof fn lemma_split_ws_suffix(s: Seq<char>, i: int)
    requires
        0 <= i <= s.len(),
    ensures
        split_ws_from(s, i) == split_ws_from(s.skip(i), 0),
    decreases s.len() - i,
{
    if i >= s.len() {
        assert(s.skip(i) =~= Seq::<char>::empty());
    } else if is_ws_char(s[i]) {
        assert(s.skip(i)[0] == s[i]);
        lemma_split_ws_suffix(s, i + 1);
        assert(s.skip(i).skip(1) =~= s.skip(i + 1));
        lemma_split_ws_suffix(s.skip(i), 1);
    } else {
        assert(s.skip(i)[0] == s[i]);
        lemma_token_end_bounds(s, i);
        lemma_token_end_shift(s, i);
        let e = token_end(s, i);
        assert(s.skip(i).subrange(0, e - i) =~= s.subrange(i, e));
        lemma_split_ws_suffix(s, e);
        lemma_split_ws_suffix(s.skip(i), e - i);
        assert(s.skip(i).skip(e - i) =~= s.skip(e));
    }
}

/// Law of the tokenizer: a line assembled from non-empty whitespace-free
/// tokens joined with single spaces splits back into exactly those tokens.
pub proof fn lemma_split_ws_join(ts: Seq<Seq<char>>)
    requires
        forall|k: int| 0 <= k < ts.len() ==> (#[trigger] ts[k]).len() > 0 && ws_free(ts[k]),
    ensures
        split_ws_from(join_sp(ts), 0) == ts,
    decreases ts.len(),
{
    let s = join_sp(ts);
    if ts.len() == 0 {
        assert(split_ws_from(s, 0) =~= ts);
    } else if ts.len() == 1 {
        assert(s == ts[0]);
        assert(ts[0].len() > 0 && ws_free(ts[0]));
        assert(!is_ws_char(s[0]));
        lemma_token_end_prefix(s, 0, s.len() as int);
        assert(s.subrange(0, s.len() as int) =~= ts[0]);
        assert(split_ws_from(s, s.len() as int) =~= Seq::<Seq<char>>::empty());
        assert(split_ws_from(s, 0) == seq![s.subrange(0, s.len() as int)] + split_ws_from(
            s,
            s.len() as int,
        ));
        assert(split_ws_from(s, 0) =~= ts);
    } else {
        let t0 = ts[0];
        let rest = join_sp(ts.drop_first());
        assert(s == t0 + seq![' '] + rest);
        let n0 = t0.len() as int;
        assert(forall|j: int| 0 <= j < n0 ==> s[j] == t0[j]);
        assert(s[n0] == ' ');
        lemma_token_end_prefix(s, 0, n0);
        assert(s.subrange(0, n0) =~= t0);
        assert(split_ws_from(s, 0) == seq![t0] + split_ws_from(s, n0));
        assert(split_ws_from(s, n0) == split_ws_from(s, n0 + 1));
        lemma_split_ws_suffix(s, n0 + 1);
        assert(s.skip(n0 + 1) =~= rest);
        assert(forall|k: int|
            0 <= k < ts.drop_first().len() ==> #[trigger] ts.drop_first()[k] == ts[k + 1]);
        lemma_split_ws_join(ts.drop_first());
        assert(split_ws_from(s, 0) =~= seq![t0] + ts.drop_first());
        assert(seq![t0] + ts.drop_first() =~= ts);
    }
}

/// A token `key:value` with a colon-free key carries exactly that pair.
pub proof fn lemma_token_kv(key: Seq<char>, value: Seq<char>)
    requires
        forall|i: int| 0 <= i < key.len() ==> key[i] != ':',
    ensures
        token_has_kv(key + seq![':'] + value),
        token_key(key + seq![':'] + value) == key,
        token_value(key + seq![':'] + value) == value,
{
    let t = key + seq![':'] + value;
    let e = key.len() as int;
    assert(forall|j: int| 0 <= j < e ==> t[j] == key[j]);
    assert(t[e] == ':');
    lemma_colon_pos_prefix(t, 0, e);
    assert(token_key(t) =~= key);
    assert(token_value(t) =~= value);
}

proof fn lemma_colon_pos_prefix(t: Seq<char>, i: int, e: int)
    requires
        0 <= i <= e < t.len(),
        forall|j: int| i <= j < e ==> t[j] != ':',
        t[e] == ':',
    ensures
        colon_pos(t, i) == e,
    decreases e - i,
{
    if i < e {
        lemma_colon_pos_prefix(t, i + 1, e);
    }
}

/// The one token carrying `key` decides the lookup, wherever it stands.
pub proof fn lemma_lookup_kv_unique(ts: Seq<Seq<char>>, i: int, key: Seq<char>)
    requires
        0 <= i < ts.len(),
        token_has_kv(ts[i]),
        token_key(ts[i]) == key,
        forall|j: int|
            0 <= j < ts.len() && j != i ==> !(token_has_kv(#[trigger] ts[j]) && token_key(ts[j])
                == key),
    ensures
        lookup_kv(ts, key) == Some(token_value(ts[i])),
    decreases ts.len(),
{
    if i < ts.len() - 1 {
        assert(forall|x: int| 0 <= x < ts.len() - 1 ==> #[trigger] ts.drop_last()[x] == ts[x]);
        lemma_lookup_kv_unique(ts.drop_last(), i, key);
    }
}

/// A key no token carries is absent from the lookup.
pub proof fn lemma_lookup_kv_absent(ts: Seq<Seq<char>>, key: Seq<char>)
    requires
        forall|j: int|
            0 <= j < ts.len() ==> !(token_has_kv(#[trigger] ts[j]) && token_key(ts[j]) == key),
    ensures
        lookup_kv(ts, key) is None,
    decreases ts.len(),
{
    if ts.len() > 0 {
        assert(forall|x: int| 0 <= x < ts.len() - 1 ==> #[trigger] ts.drop_last()[x] == ts[x]);
        lemma_lookup_kv_absent(ts.drop_last(), key);
    }
}

/// Does the character range `a..b` of `s` hold exactly the text `t`?
fn range_eq(s: &str, a: usize, b: usize, t: &str) -> (r: bool)
    requires
        a <= b <= s@.len(),
    ensures
        r == (s@.subrange(a as int, b as int) == t@),
{
    let tlen = t.unicode_len();
    if b - a != tlen {
        return false;
    }
    let mut k: usize = 0;
    while k < tlen
        invariant
            a <= b <= s@.len(),
            tlen == t@.len(),
            b - a == tlen,
            k <= tlen,
            forall|m: int| 0 <= m < k ==> s@[a + m] == t@[m],
        decreases tlen - k,
    {
        if s.get_char(a + k) != t.get_char(k) {
            assert(s@.subrange(a as int, b as int)[k as int] != t@[k as int]);
            return false;
        }
        k += 1;
    }
    proof {
        assert(s@.subrange(a as int, b as int) =~= t@);
    }
    true
}

/// Plain text equality, decided character by character.
pub fn str_eq(a: &str, b: &str) -> (r: bool)
    ensures
        r == (a@ == b@),
{
    let n = a.unicode_len();
    proof {
        assert(a@.subrange(0, n as int) =~= a@);
    }
    range_eq(a, 0, n, b)
}

/// The index of the first `'\n'` of `s` at or after `from`, or the length.
pub fn find_nl(s: &str, from: usize) -> (e: usize)
    requires
        from <= s@.len(),
    ensures
        e == nl_pos(s@, from as int),
        from <= e <= s@.len(),
{
    let n = s.unicode_len();
    let mut e: usize = from;
    while e < n && s.get_char(e) != '\n'
        invariant
            n == s@.len(),
            from <= e <= n,
            nl_pos(s@, from as int) == nl_pos(s@, e as int),
        decreases n - e,
    {
        proof {
            assert(nl_pos(s@, e as int) == nl_pos(s@, e + 1));
        }
        e += 1;
    }
    proof {
        assert(nl_pos(s@, e as int) == e as int);
        lemma_nl_pos_bounds(s@, from as int);
    }
    e
}

proof fn lemma_join_nl_push(ls: Seq<Seq<char>>, l: Seq<char>)
    ensures
        join_nl(ls.push(l)) == if ls.len() == 0 {
            l
        } else {
            join_nl(ls) + seq!['\n'] + l
        },
{
    assert(ls.push(l).drop_last() =~= ls);
    assert(ls.push(l).last() == l);
    if ls.len() == 0 {
        assert(ls.push(l)[0] == l);
    }
}

/// The lines of `s` from position `i` on, joined back with `'\n'`: what a
/// `lines().join("\n")` of that suffix returns.
pub fn join_lines_from(s: &str, start: usize) -> (out: String)
    requires
        start <= s@.len(),
    ensures
        out@ == join_nl(split_lines_from(s@, start as int)),
{
    let n = s.unicode_len();
    let mut out = String::new();
    let mut i: usize = start;
    let mut first = true;
    let ghost mut done: Seq<Seq<char>> = Seq::empty();
    proof {
        assert(split_lines_from(s@, start as int) =~= done + split_lines_from(
            s@,
            start as int,
        ));
    }
    while i < n
        invariant
            n == s@.len(),
            start <= i <= n,
            split_lines_from(s@, start as int) == done + split_lines_from(s@, i as int),
            out@ == join_nl(done),
            first <==> done.len() == 0,
        decreases n - i,
    {
        let e = find_nl(s, i);
        let mut f = e;
        let ghost piece: Seq<char>;
        if e < n {
            if e > i && s.get_char(e - 1) == '\r' {
                f = e - 1;
            }
            proof {
                piece = strip_cr(s@.subrange(i as int, e as int));
                assert(piece =~= s@.subrange(i as int, f as int));
            }
        } else {
            proof {
                piece = s@.subrange(i as int, e as int);
            }
        }
        if !first {
            proof {
                reveal_strlit("\n");
            }
            out.append("\n");
        }
        first = false;
        out.append(s.substring_char(i, f));
        proof {
            lemma_join_nl_push(done, piece);
            done = done.push(piece);
            if e < n {
                assert(split_lines_from(s@, i as int) == seq![piece] + split_lines_from(
                    s@,
                    e + 1,
                ));
            } else {
                assert(split_lines_from(s@, i as int) == seq![piece]);
                assert(split_lines_from(s@, n as int) =~= Seq::<Seq<char>>::empty());
            }
            assert(split_lines_from(s@, start as int) =~= done + split_lines_from(
                s@,
                if e < n {
                    e + 1
                } else {
                    n as int
                },
            ));
        }
        if e < n {
            i = e + 1;
        } else {
            i = n;
        }
    }
    proof {
        assert(split_lines_from(s@, n as int) =~= Seq::<Seq<char>>::empty());
        assert(split_lines_from(s@, start as int) =~= done);
    }
    out
}

proof fn lemma_lookup_kv_push(toks: Seq<Seq<char>>, t: Seq<char>, key: Seq<char>)
    ensures
        lookup_kv(toks.push(t), key) == if token_has_kv(t) && token_key(t) == key {
            Some(token_value(t))
        } else {
            lookup_kv(toks, key)
        },
{
    assert(toks.push(t).last() == t);
    assert(toks.push(t).drop_last() =~= toks);
}

/// The value of the last token of `s` whose key is `key`, exactly as
/// `header_field` names it, or `None` where no token has that key.
pub fn field_value(s: &str, key: &str) -> (r: Option<String>)
    ensures
        r is Some <==> header_field(s@, key@) is Some,
        r is Some ==> r->0@ == header_field(s@, key@)->0,
{
    let n = s.unicode_len();
    // Candidate value range of the last match seen so far.
    let mut cand: Option<(usize, usize)> = None;
    let mut i: usize = 0;
    let ghost mut toks: Seq<Seq<char>> = Seq::empty();
    proof {
        assert(split_ws_from(s@, 0) =~= toks + split_ws_from(s@, 0));
    }
    while i < n
        invariant
            n == s@.len(),
            i <= n,
            split_ws_from(s@, 0) == toks + split_ws_from(s@, i as int),
            match cand {
                Some((a, b)) => {
                    &&& a <= b <= n
                    &&& lookup_kv(toks, key@) == Some(s@.subrange(a as int, b as int))
                },
                None => lookup_kv(toks, key@) is None,
            },
        decreases n - i,
    {
        let c = s.get_char(i);
        if is_ws(c) {
            proof {
                assert(split_ws_from(s@, i as int) == split_ws_from(s@, i + 1));
            }
            i += 1;
        } else {
            // Find the end of the token.
            let start = i;
            let mut e: usize = i;
            while e < n && !is_ws(s.get_char(e))
                invariant
                    n == s@.len(),
                    start <= e <= n,
                    token_end(s@, start as int) == token_end(s@, e as int),
                decreases n - e,
            {
                proof {
                    assert(token_end(s@, e as int) == token_end(s@, e + 1));
                }
                e += 1;
            }
            proof {
                assert(token_end(s@, e as int) == e as int);
                assert(split_ws_from(s@, start as int) == seq![
                    s@.subrange(start as int, e as int),
                ] + split_ws_from(s@, e as int));
            }
            let ghost tok: Seq<char> = s@.subrange(start as int, e as int);
            // Find the first ':' inside the token.
            let mut j: usize = start;
            while j < e && s.get_char(j) != ':'
                invariant
                    n == s@.len(),
                    start <= j <= e <= n,
                    tok == s@.subrange(start as int, e as int),
                    colon_pos(tok, 0) == colon_pos(tok, j - start),
                decreases e - j,
            {
                proof {
                    assert(tok[j - start] == s@[j as int]);
                    assert(colon_pos(tok, j - start) == colon_pos(tok, j - start + 1));
                }
                j += 1;
            }
            if j < e {
                // tok has a colon at offset j - start.
                proof {
                    assert(tok[j - start] == s@[j as int]);
                    assert(colon_pos(tok, j - start) == j - start);
                    assert(token_has_kv(tok));
                }
                let matched = range_eq(s, start, j, key);
                proof {
                    assert(token_key(tok) =~= s@.subrange(start as int, j as int));
                    assert(token_value(tok) =~= s@.subrange(j + 1, e as int));
                    lemma_lookup_kv_push(toks, tok, key@);
                }
                if matched {
                    cand = Some((j + 1, e));
                } else {
                }
            } else {
                proof {
                    assert(colon_pos(tok, 0) == colon_pos(tok, e - start));
                    assert(colon_pos(tok, e - start) == -1);
                    lemma_lookup_kv_push(toks, tok, key@);
                }
            }
            proof {
                toks = toks.push(tok);
                assert(toks.drop_last() =~= toks.subrange(0, toks.len() - 1));
                assert(split_ws_from(s@, 0) =~= toks + split_ws_from(s@, e as int));
            }
            i = e;
        }
    }
    proof {
        assert(split_ws_from(s@, n as int) =~= Seq::<Seq<char>>::empty());
        assert(split_ws_from(s@, 0) =~= toks);
    }
    match cand {
        Some((a, b)) => {
            let sub = s.substring_char(a, b);
            Some(String::from_str(sub))
        },
        None => None,
    }
}

} // verus!
