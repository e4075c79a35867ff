//! Decoding and rendering of PostgreSQL v3 protocol messages, and the
//! per-connection timing tracker.
//!
//! Every decoder is bounds-checked: a frame shorter than its declared
//! fields renders as far as the bytes allow and never reads past them.

use vstd::prelude::*;
use crate::strutil::{
    lossy_of, lossy_string, push_char, push_hex_byte, push_repeat, spec_dec, spec_dec_i64,
    spec_hex_byte, spec_repeat, u64_to_dec, i64_to_dec, spec_join, lemma_join_snoc,
};

verus! {

/// Which peer sent the bytes being decoded.
#[derive(Debug, Clone, Copy, PartialEq, Eq, Structural)]
pub enum MessageDirection {
    ClientToServer,
    ServerToClient,
}

/// The observable state of a timing tracker: the session start and the
/// pending mark, if any, of each request kind.
pub struct TimingView {
    pub start: u64,
    pub simple_query: Option<u64>,
    pub execute: Option<u64>,
    pub parse: Option<u64>,
    pub bind: Option<u64>,
}

/// The time elapsed from a mark to `now`, zero where the clock stepped
/// backwards.
pub open spec fn spec_elapsed(t: u64, now: u64) -> u64 {
    if now >= t {
        (now - t) as u64
    } else {
        0
    }
}

/// What finishing a slot yields: the cleared slot and the measured
/// duration, absent where no mark was pending.
pub open spec fn spec_finish(slot: Option<u64>, now: u64) -> (Option<u64>, Option<u64>) {
    match slot {
        Some(t) => (None, Some(spec_elapsed(t, now))),
        None => (None, None),
    }
}

/// Timing idempotence: after a mark, the first finish yields a duration
/// and the second yields nothing, whatever the clock read.
pub proof fn lemma_finish_twice(t: u64, n1: u64, n2: u64)
    ensures
        spec_finish(Some(t), n1).1 is Some,
        spec_finish(spec_finish(Some(t), n1).0, n2).1 is None,
{
}

/// Tracks when each kind of request was last issued on a connection, so
/// that the matching completion can be timed.  Times are clock readings in
/// milliseconds supplied by the caller.
pub struct ConnectionTiming {
    start: u64,
    simple_query: Option<u64>,
    execute: Option<u64>,
    parse: Option<u64>,
    bind: Option<u64>,
}

impl View for ConnectionTiming {
    type V = TimingView;

    closed spec fn view(&self) -> TimingView {
        TimingView {
            start: self.start,
            simple_query: self.simple_query,
            execute: self.execute,
            parse: self.parse,
            bind: self.bind,
        }
    }
}

impl ConnectionTiming {
    /// Starts a session at the given clock reading, with no pending marks.
    pub fn new(now: u64) -> (r: ConnectionTiming)
        ensures
            r@ == (TimingView {
                start: now,
                simple_query: None,
                execute: None,
                parse: None,
                bind: None,
            }),
    {
        ConnectionTiming { start: now, simple_query: None, execute: None, parse: None, bind: None }
    }

    /// Records that a simple query was just sent.
    pub fn mark_simple_query(&mut self, now: u64)
        ensures
            final(self)@ == (TimingView { simple_query: Some(now), ..old(self)@ }),
    {
        self.simple_query = Some(now);
    }

    /// Records that an Execute was just sent.
    pub fn mark_execute(&mut self, now: u64)
        ensures
            final(self)@ == (TimingView { execute: Some(now), ..old(self)@ }),
    {
        self.execute = Some(now);
    }

    /// Records that a Parse was just sent.
    pub fn mark_parse(&mut self, now: u64)
        ensures
            final(self)@ == (TimingView { parse: Some(now), ..old(self)@ }),
    {
        self.parse = Some(now);
    }

    /// Records that a Bind was just sent.
    pub fn mark_bind(&mut self, now: u64)
        ensures
            final(self)@ == (TimingView { bind: Some(now), ..old(self)@ }),
    {
        self.bind = Some(now);
    }

    /// Takes the pending simple-query mark, yielding the elapsed time, or
    /// nothing where no mark was pending.
    pub fn finish_simple_query(&mut self, now: u64) -> (r: Option<u64>)
        ensures
            final(self)@ == (TimingView {
                simple_query: spec_finish(old(self)@.simple_query, now).0,
                ..old(self)@
            }),
            r == spec_finish(old(self)@.simple_query, now).1,
    {
        let slot = self.simple_query;
        self.simple_query = None;
        match slot {
            Some(t) => Some(if now >= t {
                now - t
            } else {
                0
            }),
            None => None,
        }
    }

    /// Takes the pending Execute mark.
    pub fn finish_execute(&mut self, now: u64) -> (r: Option<u64>)
        ensures
            final(self)@ == (TimingView {
                execute: spec_finish(old(self)@.execute, now).0,
                ..old(self)@
            }),
            r == spec_finish(old(self)@.execute, now).1,
    {
        let slot = self.execute;
        self.execute = None;
        match slot {
            Some(t) => Some(if now >= t {
                now - t
            } else {
                0
            }),
            None => None,
        }
    }

    /// Takes the pending Parse mark.
    pub fn finish_parse(&mut self, now: u64) -> (r: Option<u64>)
        ensures
            final(self)@ == (TimingView {
                parse: spec_finish(old(self)@.parse, now).0,
                ..old(self)@
            }),
            r == spec_finish(old(self)@.parse, now).1,
    {
        let slot = self.parse;
        self.parse = None;
        match slot {
            Some(t) => Some(if now >= t {
                now - t
            } else {
                0
            }),
            None => None,
        }
    }

    /// Takes the pending Bind mark.
    pub fn finish_bind(&mut self, now: u64) -> (r: Option<u64>)
        ensures
            final(self)@ == (TimingView {
                bind: spec_finish(old(self)@.bind, now).0,
                ..old(self)@
            }),
            r == spec_finish(old(self)@.bind, now).1,
    {
        let slot = self.bind;
        self.bind = None;
        match slot {
            Some(t) => Some(if now >= t {
                now - t
            } else {
                0
            }),
            None => None,
        }
    }

    /// How long the session has run, at the given clock reading.
    pub fn session_elapsed(&self, now: u64) -> (r: u64)
        ensures
            r == spec_elapsed(self@.start, now),
    {
        if now >= self.start {
            now - self.start
        } else {
            0
        }
    }
}

/// A duration in milliseconds rendered as seconds with three decimals and
/// a trailing `s`.
pub open spec fn spec_format_duration(millis: u64) -> Seq<char> {
    spec_dec(millis / 1000) + seq!['.'] + spec_pad3(millis % 1000) + seq!['s']
}

/// Three zero-padded decimal digits of a value below one thousand.
pub open spec fn spec_pad3(n: u64) -> Seq<char> {
    seq![
        crate::strutil::dec_digit(n / 100),
        crate::strutil::dec_digit((n / 10) % 10),
        crate::strutil::dec_digit(n % 10),
    ]
}

/// Renders a duration in milliseconds as `<secs>.<millis>s`.
pub fn format_duration(millis: u64) -> (r: String)
    ensures
        r@ == spec_format_duration(millis),
{
    let mut s = u64_to_dec(millis / 1000);
    push_char(&mut s, '.');
    let frac = millis % 1000;
    let d0 = frac / 100;
    let d1 = (frac / 10) % 10;
    let d2 = frac % 10;
    let mut tail = u64_to_dec(d0);
    s.append(tail.as_str());
    let tail1 = u64_to_dec(d1);
    s.append(tail1.as_str());
    let tail2 = u64_to_dec(d2);
    s.append(tail2.as_str());
    push_char(&mut s, 's');
    proof {
        assert(spec_dec(d0) =~= seq![crate::strutil::dec_digit(d0)]);
        assert(spec_dec(d1) =~= seq![crate::strutil::dec_digit(d1)]);
        assert(spec_dec(d2) =~= seq![crate::strutil::dec_digit(d2)]);
        assert(s@ =~= spec_format_duration(millis));
    }
    s
}

/// Per-client state: the table-rendering mode and the formatter of the
/// result set in progress, if any.
pub struct ClientState {
    pub table_state: crate::table_formatter::TableState,
}

impl ClientState {
    /// Creates the state for one connection.
    pub fn new(table_mode: bool) -> (r: ClientState)
        ensures
            r.table_state.wf(),
            r.table_state.table_mode == table_mode,
            r.table_state.current_formatter is None,
    {
        ClientState { table_state: crate::table_formatter::TableState::new(table_mode) }
    }
}

/// The position of the first NUL byte at or after `i`, or the length of
/// the data where none follows.
pub open spec fn find_nul(data: Seq<u8>, i: int) -> int
    decreases data.len() - i,
{
    if i < 0 || i >= data.len() {
        data.len() as int
    } else if data[i] == 0 {
        i
    } else {
        find_nul(data, i + 1)
    }
}

/// Where the first NUL search lands: never before `i`, never past the end,
/// on a NUL where one exists, past only non-NUL bytes.
pub proof fn lemma_find_nul(data: Seq<u8>, i: int)
    requires
        0 <= i <= data.len(),
    ensures
        i <= find_nul(data, i) <= data.len(),
        find_nul(data, i) < data.len() ==> data[find_nul(data, i)] == 0,
        forall|k: int| i <= k < find_nul(data, i) ==> data[k] != 0,
    decreases data.len() - i,
{
    if i < data.len() && data[i] != 0 {
        lemma_find_nul(data, i + 1);
    }
}

/// Reads a NUL-terminated string starting at `*index`, advancing the index
/// past the terminator.  Yields nothing where the index is out of range or
/// no terminator follows; in the latter case the index is left at the end.
pub fn read_cstring(data: &[u8], index: &mut usize) -> (r: Option<Vec<u8>>)
    ensures
        *old(index) >= data@.len() ==> r is None && *final(index) == *old(index),
        *old(index) < data@.len() ==> {
            let e = find_nul(data@, *old(index) as int);
            if e < data@.len() {
                &&& r matches Some(v)
                &&& v@ == data@.subrange(*old(index) as int, e)
                &&& *final(index) == e + 1
            } else {
                &&& r is None
                &&& *final(index) == data@.len()
            }
        },
{
    let n = data.len();
    if *index >= n {
        return None;
    }
    let start = *index;
    proof {
        lemma_find_nul(data@, start as int);
    }
    let mut i = start;
    while i < n && data[i] != 0
        invariant
            n == data@.len(),
            start <= i <= n,
            forall|k: int| start <= k < i ==> data@[k] != 0,
            find_nul(data@, start as int) == find_nul(data@, i as int),
        decreases n - i,
    {
        proof {
            assert(find_nul(data@, i as int) == find_nul(data@, i + 1 as int));
        }
        i = i + 1;
    }
    proof {
        assert(find_nul(data@, i as int) == i || (i == n && find_nul(data@, i as int) == n));
    }
    if i >= n {
        *index = n;
        return None;
    }
    let mut v: Vec<u8> = Vec::new();
    let mut k = start;
    while k < i
        invariant
            start <= k <= i <= n,
            n == data@.len(),
            v@ =~= data@.subrange(start as int, k as int),
        decreases i - k,
    {
        v.push(data[k]);
        proof {
            assert(v@ =~= data@.subrange(start as int, (k + 1) as int));
        }
        k = k + 1;
    }
    *index = i + 1;
    Some(v)
}

/// Position of the first NUL at or after `start`, or the data length.
pub fn nul_pos(data: &[u8], start: usize) -> (r: usize)
    requires
        start <= data@.len(),
    ensures
        r == find_nul(data@, start as int),
        start <= r <= data@.len(),
{
    proof {
        lemma_find_nul(data@, start as int);
    }
    let n = data.len();
    let mut i = start;
    while i < n && data[i] != 0
        invariant
            n == data@.len(),
            start <= i <= n,
            find_nul(data@, start as int) == find_nul(data@, i as int),
        decreases n - i,
    {
        proof {
            assert(find_nul(data@, i as int) == find_nul(data@, i + 1 as int));
        }
        i = i + 1;
    }
    i
}

/// The two NUL-terminated strings at the head of `data`, where a first
/// terminator exists: the name before it and the value from there to the
/// second terminator or the end.
pub open spec fn spec_cstring_pair(data: Seq<u8>) -> Option<(Seq<u8>, Seq<u8>)> {
    let e1 = find_nul(data, 0);
    if e1 >= data.len() {
        None
    } else {
        Some((data.subrange(0, e1), data.subrange(e1 + 1, find_nul(data, e1 + 1))))
    }
}

/// Splits a parameter-status style body into its name and value strings.
pub fn parse_cstring_pair(data: &[u8]) -> (r: Option<(String, String)>)
    ensures
        match spec_cstring_pair(data@) {
            None => r is None,
            Some(p) => r matches Some(q) && q.0@ == lossy_of(p.0) && q.1@ == lossy_of(p.1),
        },
{
    proof {
        lemma_find_nul(data@, 0);
    }
    let e1 = nul_pos(data, 0);
    if e1 >= data.len() {
        return None;
    }
    proof {
        lemma_find_nul(data@, e1 + 1 as int);
    }
    let e2 = nul_pos(data, e1 + 1);
    let name = lossy_string(vstd::slice::slice_subrange(data, 0, e1));
    let value = lossy_string(vstd::slice::slice_subrange(data, e1 + 1, e2));
    Some((name, value))
}

/// The human label of an error-field code.
pub open spec fn spec_error_label(code: u8) -> Seq<char> {
    if code == 83 {
        "Severity"@
    } else if code == 86 {
        "Severity"@
    } else if code == 67 {
        "SQLSTATE"@
    } else if code == 77 {
        "Message"@
    } else if code == 68 {
        "Detail"@
    } else if code == 72 {
        "Hint"@
    } else if code == 80 {
        "Position"@
    } else if code == 112 {
        "Internal position"@
    } else if code == 113 {
        "Internal query"@
    } else if code == 87 {
        "Where"@
    } else if code == 115 {
        "Schema"@
    } else if code == 116 {
        "Table"@
    } else if code == 99 {
        "Column"@
    } else if code == 100 {
        "Data type"@
    } else if code == 110 {
        "Constraint"@
    } else if code == 70 {
        "File"@
    } else if code == 76 {
        "Line"@
    } else if code == 82 {
        "Routine"@
    } else {
        "Unknown"@
    }
}

/// The label of an error-field code, as text.
pub fn error_label(code: u8) -> (r: &'static str)
    ensures
        r@ == spec_error_label(code),
{
    if code == 83 {
        "Severity"
    } else if code == 86 {
        "Severity"
    } else if code == 67 {
        "SQLSTATE"
    } else if code == 77 {
        "Message"
    } else if code == 68 {
        "Detail"
    } else if code == 72 {
        "Hint"
    } else if code == 80 {
        "Position"
    } else if code == 112 {
        "Internal position"
    } else if code == 113 {
        "Internal query"
    } else if code == 87 {
        "Where"
    } else if code == 115 {
        "Schema"
    } else if code == 116 {
        "Table"
    } else if code == 99 {
        "Column"
    } else if code == 100 {
        "Data type"
    } else if code == 110 {
        "Constraint"
    } else if code == 70 {
        "File"
    } else if code == 76 {
        "Line"
    } else if code == 82 {
        "Routine"
    } else {
        "Unknown"
    }
}

/// The coded fields of an ErrorResponse or NoticeResponse body: each one a
/// code byte and a NUL-terminated value, ending at a lone NUL or at the end
/// of the body.
pub open spec fn spec_error_fields(data: Seq<u8>, i: int) -> Seq<(u8, Seq<u8>)>
    decreases data.len() - i + 1,
    via spec_error_fields_decreases
{
    if i < 0 || i >= data.len() || data[i] == 0 {
        Seq::empty()
    } else {
        let e = find_nul(data, i + 1);
        seq![(data[i], data.subrange(i + 1, e))] + spec_error_fields(data, e + 1)
    }
}

#[via_fn]
proof fn spec_error_fields_decreases(data: Seq<u8>, i: int) {
    if !(i < 0 || i >= data.len() || data[i] == 0) {
        lemma_find_nul(data, i + 1);
    }
}

/// A body of `n` bytes holds at most `n` coded fields.
pub proof fn lemma_error_fields_count(data: Seq<u8>, i: int)
    requires
        0 <= i,
    ensures
        i < data.len() ==> spec_error_fields(data, i).len() <= data.len() - i,
        i >= data.len() ==> spec_error_fields(data, i).len() == 0,
    decreases data.len() - i + 1,
{
    if i < data.len() && data[i] != 0 {
        lemma_find_nul(data, i + 1);
        let e = find_nul(data, i + 1);
        lemma_error_fields_count(data, e + 1);
    }
}

/// One field rendered as `Label: value`.
pub open spec fn spec_error_field_text(f: (u8, Seq<u8>)) -> Seq<char> {
    spec_error_label(f.0) + ": "@ + lossy_of(f.1)
}

/// A whole error body rendered: the fields, comma-separated.
pub open spec fn spec_error_summary(data: Seq<u8>) -> Seq<char> {
    spec_join(spec_error_fields(data, 0).map_values(|f: (u8, Seq<u8>)| spec_error_field_text(f)), ", "@)
}

/// Renders the coded fields of an ErrorResponse or NoticeResponse body,
/// comma-separated; nothing where the body holds no field.
pub fn parse_error_response(data: &[u8]) -> (r: Option<String>)
    ensures
        spec_error_fields(data@, 0).len() == 0 ==> r is None,
        spec_error_fields(data@, 0).len() > 0 ==> (r matches Some(s) && s@
            == spec_error_summary(data@)),
{
    let n = data.len();
    let mut result = String::new();
    let mut i: usize = 0;
    let mut count: usize = 0;
    let ghost full = spec_error_fields(data@, 0).map_values(
        |f: (u8, Seq<u8>)| spec_error_field_text(f),
    );
    let ghost done: int = 0;
    proof {
        lemma_error_fields_count(data@, 0);
    }
    while i < n && data[i] != 0
        invariant
            n == data@.len(),
            0 <= i <= n,
            0 <= done <= full.len(),
            full.len() <= n,
            count == done,
            full == spec_error_fields(data@, 0).map_values(
                |f: (u8, Seq<u8>)| spec_error_field_text(f),
            ),
            spec_error_fields(data@, 0) =~= spec_error_fields(data@, 0).subrange(0, done)
                + spec_error_fields(data@, i as int),
            spec_error_fields(data@, 0).subrange(0, done).len() == done,
            result@ == spec_join(full.subrange(0, done), ", "@),
        decreases n - i,
    {
        let code = data[i];
        proof {
            lemma_find_nul(data@, i + 1 as int);
        }
        let e = nul_pos(data, i + 1);
        let value = vstd::slice::slice_subrange(data, i + 1, e);
        let ghost fld = (code, data@.subrange(i + 1 as int, e as int));
        proof {
            assert(spec_error_fields(data@, i as int) == seq![fld] + spec_error_fields(
                data@,
                e + 1 as int,
            ));
        }
        if count > 0 {
            result.append(", ");
        }
        result.append(error_label(code));
        result.append(": ");
        let value_text = lossy_string(value);
        result.append(value_text.as_str());
        proof {
            let fs0 = spec_error_fields(data@, 0);
            assert(fs0.subrange(0, done + 1).drop_last() =~= fs0.subrange(0, done));
            assert(fs0.subrange(0, done + 1).last() == fs0[done]);
            assert(fs0[done] == (fs0.subrange(0, done) + spec_error_fields(data@, i as int))[done]);
            assert(fs0[done] == fld);
            assert(full.subrange(0, done + 1).drop_last() =~= full.subrange(0, done));
            assert(full.subrange(0, done + 1).last() == full[done]);
            assert(full[done] == spec_error_field_text(fld));
            lemma_join_snoc(full.subrange(0, done + 1), ", "@);
            if done == 0 {
                assert(result@ =~= spec_join(full.subrange(0, 1), ", "@));
            } else {
                assert(result@ =~= spec_join(full.subrange(0, done), ", "@) + ", "@
                    + spec_error_field_text(fld));
            }
            assert(spec_error_fields(data@, 0) =~= fs0.subrange(0, done + 1) + spec_error_fields(
                data@,
                e + 1 as int,
            ));
            assert(fs0.subrange(0, done + 1).len() == done + 1);
        }
        if e >= n {
            i = n;
            proof {
                assert(spec_error_fields(data@, e + 1 as int) =~= Seq::<(u8, Seq<u8>)>::empty());
                assert(spec_error_fields(data@, n as int) =~= Seq::<(u8, Seq<u8>)>::empty());
            }
        } else {
            i = e + 1;
        }
        proof {
            assert(spec_error_fields(data@, 0).len() == done + 1 + spec_error_fields(
                data@,
                if e + 1 <= n {
                    e + 1 as int
                } else {
                    n as int
                },
            ).len());
        }
        count = count + 1;
        proof {
            done = done + 1;
        }
    }
    proof {
        assert(spec_error_fields(data@, i as int) =~= Seq::<(u8, Seq<u8>)>::empty());
        assert(spec_error_fields(data@, 0).subrange(0, done) =~= spec_error_fields(data@, 0));
        assert(done == spec_error_fields(data@, 0).len());
        assert(full.subrange(0, done) =~= full);
    }
    if count == 0 {
        None
    } else {
        Some(result)
    }
}

/// The statement name and query text of a Parse body: the two leading
/// NUL-terminated strings.
pub open spec fn spec_parse_fields(data: Seq<u8>) -> (Seq<u8>, Seq<u8>) {
    let e1 = find_nul(data, 0);
    let stmt = data.subrange(0, e1);
    let query = if e1 >= data.len() {
        Seq::<u8>::empty()
    } else {
        data.subrange(e1 + 1, find_nul(data, e1 + 1))
    };
    (stmt, query)
}

/// The detail line of a Parse message, absent where both strings are
/// empty.
pub open spec fn spec_parse_summary(data: Seq<u8>) -> Option<Seq<char>> {
    let (stmt, query) = spec_parse_fields(data);
    if stmt.len() == 0 && query.len() == 0 {
        None
    } else {
        Some(
            "Statement: '"@ + (if stmt.len() == 0 {
                "(unnamed)"@
            } else {
                lossy_of(stmt)
            }) + "', Query: '"@ + lossy_of(query) + "'"@,
        )
    }
}

/// Renders the statement name and query of a Parse body, or nothing where
/// both are empty.
pub fn parse_parse_message(data: &[u8]) -> (r: Option<String>)
    ensures
        match spec_parse_summary(data@) {
            None => r is None,
            Some(t) => r matches Some(s) && s@ == t,
        },
{
    proof {
        lemma_find_nul(data@, 0);
    }
    let e1 = nul_pos(data, 0);
    let stmt = vstd::slice::slice_subrange(data, 0, e1);
    let query: &[u8] = if e1 >= data.len() {
        vstd::slice::slice_subrange(data, 0, 0)
    } else {
        proof {
            lemma_find_nul(data@, e1 + 1 as int);
        }
        let e2 = nul_pos(data, e1 + 1);
        vstd::slice::slice_subrange(data, e1 + 1, e2)
    };
    proof {
        assert(query@ =~= spec_parse_fields(data@).1);
    }
    let stmt_s = lossy_string(stmt);
    let query_s = lossy_string(query);
    if stmt.len() == 0 && query.len() == 0 {
        return None;
    }
    let mut out = String::new();
    out.append("Statement: '");
    if stmt.len() == 0 {
        out.append("(unnamed)");
    } else {
        out.append(stmt_s.as_str());
    }
    out.append("', Query: '");
    out.append(query_s.as_str());
    out.append("'");
    proof {
        assert(out@ =~= spec_parse_summary(data@).unwrap());
    }
    Some(out)
}

/// An identifier rendered for display: `(unnamed)` where empty.
pub open spec fn spec_format_identifier(b: Seq<u8>) -> Seq<char> {
    if b.len() == 0 {
        "(unnamed)"@
    } else {
        lossy_of(b)
    }
}

/// Renders an identifier, with `(unnamed)` for the empty one.
pub fn format_identifier(bytes: &[u8]) -> (r: String)
    ensures
        r@ == spec_format_identifier(bytes@),
{
    let name = lossy_string(bytes);
    if bytes.len() == 0 {
        let mut s = String::new();
        s.append("(unnamed)");
        proof {
            assert(s@ =~= "(unnamed)"@);
        }
        s
    } else {
        name
    }
}

/// The name of a format code: text, binary, or unknown.
pub open spec fn spec_format_format(code: u16) -> Seq<char> {
    if code == 0 {
        "text"@
    } else if code == 1 {
        "binary"@
    } else {
        "unknown"@
    }
}

/// Names a format code.
pub fn format_format(code: u16) -> (r: &'static str)
    ensures
        r@ == spec_format_format(code),
{
    if code == 0 {
        "text"
    } else if code == 1 {
        "binary"
    } else {
        "unknown"
    }
}

/// How a list of format codes is summarised: `text (all)` for none,
/// `<name> (all)` for one, and the bracketed per-column list otherwise.
pub open spec fn spec_describe_format_codes(label: Seq<char>, count: u16, codes: Seq<u16>) -> Seq<
    char,
> {
    if count == 0 {
        label + "=text (all)"@
    } else if count == 1 {
        let code = if codes.len() > 0 {
            codes[0]
        } else {
            0
        };
        label + "="@ + spec_format_format(code) + " (all)"@
    } else {
        label + "=["@ + spec_join(
            codes.map_values(|c: u16| spec_format_format(c)),
            ", "@,
        ) + "]"@
    }
}

/// Summarises a list of format codes under the given label.
pub fn describe_format_codes(label: &str, count: u16, codes: &Vec<u16>) -> (r: String)
    ensures
        r@ == spec_describe_format_codes(label@, count, codes@),
{
    let mut out = String::new();
    out.append(label);
    if count == 0 {
        out.append("=text (all)");
        proof {
            assert(out@ =~= spec_describe_format_codes(label@, count, codes@));
        }
        out
    } else if count == 1 {
        let code = if codes.len() > 0 {
            codes[0]
        } else {
            0
        };
        out.append("=");
        out.append(format_format(code));
        out.append(" (all)");
        proof {
            assert(out@ =~= spec_describe_format_codes(label@, count, codes@));
        }
        out
    } else {
        out.append("=[");
        let ghost fmts = codes@.map_values(|c: u16| spec_format_format(c));
        let n = codes.len();
        let mut i: usize = 0;
        let mut body = String::new();
        while i < n
            invariant
                n == codes@.len(),
                i <= n,
                fmts == codes@.map_values(|c: u16| spec_format_format(c)),
                body@ == spec_join(fmts.subrange(0, i as int), ", "@) + if 0 < i < n {
                    ", "@
                } else {
                    Seq::<char>::empty()
                },
            decreases n - i,
        {
            body.append(format_format(codes[i]));
            if i + 1 < n {
                body.append(", ");
            }
            proof {
                lemma_join_snoc(fmts.subrange(0, i + 1), ", "@);
                assert(fmts.subrange(0, i + 1).drop_last() =~= fmts.subrange(0, i as int));
                assert(fmts.subrange(0, i + 1).last() == fmts[i as int]);
                if i + 1 < n {
                    assert(body@ =~= spec_join(fmts.subrange(0, i + 1), ", "@) + ", "@);
                } else {
                    assert(body@ =~= spec_join(fmts.subrange(0, i + 1), ", "@));
                }
            }
            i = i + 1;
        }
        proof {
            assert(fmts.subrange(0, n as int) =~= fmts);
        }
        out.append(body.as_str());
        out.append("]");
        proof {
            assert(out@ =~= spec_describe_format_codes(label@, count, codes@));
        }
        out
    }
}

/// The PostgreSQL type name of a well-known type OID.
pub open spec fn spec_pg_type(oid: u32) -> Seq<char> {
    if oid == 16 {
        "bool"@
    } else if oid == 17 {
        "bytea"@
    } else if oid == 18 {
        "char"@
    } else if oid == 19 {
        "name"@
    } else if oid == 20 {
        "int8"@
    } else if oid == 21 {
        "int2"@
    } else if oid == 23 {
        "int4"@
    } else if oid == 25 {
        "text"@
    } else if oid == 26 {
        "oid"@
    } else if oid == 114 {
        "json"@
    } else if oid == 142 {
        "xml"@
    } else if oid == 700 {
        "float4"@
    } else if oid == 701 {
        "float8"@
    } else if oid == 1000 {
        "bool[]"@
    } else if oid == 1001 {
        "bytea[]"@
    } else if oid == 1002 {
        "char[]"@
    } else if oid == 1003 {
        "name[]"@
    } else if oid == 1005 {
        "int2[]"@
    } else if oid == 1007 {
        "int4[]"@
    } else if oid == 1009 {
        "text[]"@
    } else if oid == 1014 {
        "char[]"@
    } else if oid == 1015 {
        "varchar[]"@
    } else if oid == 1016 {
        "int8[]"@
    } else if oid == 1021 {
        "float4[]"@
    } else if oid == 1022 {
        "float8[]"@
    } else if oid == 1042 {
        "bpchar"@
    } else if oid == 1043 {
        "varchar"@
    } else if oid == 1082 {
        "date"@
    } else if oid == 1083 {
        "time"@
    } else if oid == 1114 {
        "timestamp"@
    } else if oid == 1184 {
        "timestamptz"@
    } else if oid == 1186 {
        "interval"@
    } else if oid == 1266 {
        "timetz"@
    } else if oid == 1560 {
        "bit"@
    } else if oid == 1562 {
        "varbit"@
    } else if oid == 1700 {
        "numeric"@
    } else if oid == 2950 {
        "uuid"@
    } else if oid == 3802 {
        "jsonb"@
    } else {
        "unknown"@
    }
}

/// Names a well-known type OID, `unknown` otherwise.
pub fn get_pg_type_name(oid: u32) -> (r: &'static str)
    ensures
        r@ == spec_pg_type(oid),
{
    if oid == 16 {
        "bool"
    } else if oid == 17 {
        "bytea"
    } else if oid == 18 {
        "char"
    } else if oid == 19 {
        "name"
    } else if oid == 20 {
        "int8"
    } else if oid == 21 {
        "int2"
    } else if oid == 23 {
        "int4"
    } else if oid == 25 {
        "text"
    } else if oid == 26 {
        "oid"
    } else if oid == 114 {
        "json"
    } else if oid == 142 {
        "xml"
    } else if oid == 700 {
        "float4"
    } else if oid == 701 {
        "float8"
    } else if oid == 1000 {
        "bool[]"
    } else if oid == 1001 {
        "bytea[]"
    } else if oid == 1002 {
        "char[]"
    } else if oid == 1003 {
        "name[]"
    } else if oid == 1005 {
        "int2[]"
    } else if oid == 1007 {
        "int4[]"
    } else if oid == 1009 {
        "text[]"
    } else if oid == 1014 {
        "char[]"
    } else if oid == 1015 {
        "varchar[]"
    } else if oid == 1016 {
        "int8[]"
    } else if oid == 1021 {
        "float4[]"
    } else if oid == 1022 {
        "float8[]"
    } else if oid == 1042 {
        "bpchar"
    } else if oid == 1043 {
        "varchar"
    } else if oid == 1082 {
        "date"
    } else if oid == 1083 {
        "time"
    } else if oid == 1114 {
        "timestamp"
    } else if oid == 1184 {
        "timestamptz"
    } else if oid == 1186 {
        "interval"
    } else if oid == 1266 {
        "timetz"
    } else if oid == 1560 {
        "bit"
    } else if oid == 1562 {
        "varbit"
    } else if oid == 1700 {
        "numeric"
    } else if oid == 2950 {
        "uuid"
    } else if oid == 3802 {
        "jsonb"
    } else {
        "unknown"
    }
}

/// The type OIDs of a ParameterDescription body, read four bytes at a
/// time; reading stops at a truncated entry.
pub open spec fn spec_param_oids(data: Seq<u8>, i: int, count: int) -> Seq<u32>
    decreases count,
{
    if count <= 0 || i < 0 || i + 4 > data.len() {
        Seq::empty()
    } else {
        seq![crate::frame::be_u32(data[i], data[i + 1], data[i + 2], data[i + 3])]
            + spec_param_oids(data, i + 4, count - 1)
    }
}

/// One parameter rendered as `type=<name> (OID=<n>)`.
pub open spec fn spec_param_text(oid: u32) -> Seq<char> {
    "type="@ + spec_pg_type(oid) + " (OID="@ + spec_dec(oid as u64) + ")"@
}

/// Renders the parameter types of a ParameterDescription body, or nothing
/// where the body is too short or lists none.
pub fn parse_parameter_description(data: &[u8]) -> (r: Option<Vec<String>>)
    ensures
        ({
            let oids = spec_param_oids(data@, 2, be_u16_of(data@) as int);
            if data@.len() < 2 || oids.len() == 0 {
                r is None
            } else {
                r matches Some(v) && v.deep_view() == oids.map_values(|o: u32| spec_param_text(o))
            }
        }),
{
    if data.len() < 2 {
        return None;
    }
    let count = crate::frame::read_be_u16(data, 0);
    let ghost oids = spec_param_oids(data@, 2, count as int);
    let ghost texts = oids.map_values(|o: u32| spec_param_text(o));
    let mut params: Vec<String> = Vec::new();
    let mut i: usize = 2;
    let mut k: u16 = 0;
    while k < count && i + 4 <= data.len()
        invariant
            data@.len() >= 2,
            2 <= i,
            i <= 2 + 4 * (k as int),
            k <= count,
            oids == spec_param_oids(data@, 2, count as int),
            texts == oids.map_values(|o: u32| spec_param_text(o)),
            oids =~= oids.subrange(0, k as int) + spec_param_oids(
                data@,
                i as int,
                (count - k) as int,
            ),
            oids.subrange(0, k as int).len() == k,
            params.deep_view() =~~= texts.subrange(0, k as int),
            k < oids.len() ==> i + 4 <= data@.len() || k >= count,
        decreases count - k,
    {
        let oid = crate::frame::read_be_u32(data, i);
        let mut line = String::new();
        line.append("type=");
        line.append(get_pg_type_name(oid));
        line.append(" (OID=");
        let dec = u64_to_dec(oid as u64);
        line.append(dec.as_str());
        line.append(")");
        proof {
            assert(spec_param_oids(data@, i as int, (count - k) as int) == seq![oid]
                + spec_param_oids(data@, i + 4 as int, (count - k - 1) as int));
            assert(oids[k as int] == oid);
            assert(line@ =~= spec_param_text(oid));
            crate::strutil::lemma_deep_view_is_seq_deep(&params);
        }
        let ghost pv = params@;
        params.push(line);
        proof {
            crate::strutil::lemma_seq_deep_push(pv, line);
            crate::strutil::lemma_deep_view_is_seq_deep(&params);
            assert(params.deep_view() =~~= texts.subrange(0, (k + 1) as int));
            assert(oids.subrange(0, (k + 1) as int) =~= oids.subrange(0, k as int) + seq![oid]);
            assert(oids =~= oids.subrange(0, (k + 1) as int) + spec_param_oids(
                data@,
                i + 4 as int,
                (count - k - 1) as int,
            ));
        }
        i = i + 4;
        k = k + 1;
    }
    proof {
        if k < count {
            assert(spec_param_oids(data@, i as int, (count - k) as int) =~= Seq::<u32>::empty());
        }
        assert(oids.subrange(0, k as int) =~= oids);
        assert(params.deep_view() =~~= texts);
    }
    if params.len() == 0 {
        return None;
    }
    Some(params)
}

/// The field count at the head of a two-byte-prefixed body.
pub open spec fn be_u16_of(data: Seq<u8>) -> u16 {
    crate::frame::be_u16(data[0], data[1])
}

/// One decoded RowDescription field: its name bytes and wire attributes.
pub struct SpecField {
    pub name: Seq<u8>,
    pub table_oid: u32,
    pub col_attr: u16,
    pub type_oid: u32,
    pub type_size: int,
    pub type_mod: int,
    pub format: u16,
}

/// The fields of a RowDescription body from offset `i`, at most `count` of
/// them; decoding stops at a field whose fixed part is truncated.
pub open spec fn spec_rd_fields(data: Seq<u8>, i: int, count: int) -> Seq<SpecField>
    decreases count,
{
    if count <= 0 || i < 0 {
        Seq::empty()
    } else {
        let j = find_nul(data, i);
        let k = j + 1;
        if k + 18 > data.len() {
            Seq::empty()
        } else {
            let f = SpecField {
                name: data.subrange(i, j),
                table_oid: crate::frame::be_u32(data[k], data[k + 1], data[k + 2], data[k + 3]),
                col_attr: crate::frame::be_u16(data[k + 4], data[k + 5]),
                type_oid: crate::frame::be_u32(
                    data[k + 6],
                    data[k + 7],
                    data[k + 8],
                    data[k + 9],
                ),
                type_size: crate::frame::as_i16(crate::frame::be_u16(data[k + 10], data[k + 11])),
                type_mod: crate::frame::as_i32(
                    crate::frame::be_u32(data[k + 12], data[k + 13], data[k + 14], data[k + 15]),
                ),
                format: crate::frame::be_u16(data[k + 16], data[k + 17]),
            };
            seq![f] + spec_rd_fields(data, k + 18, count - 1)
        }
    }
}

/// One field's description line.
pub open spec fn spec_rd_desc(f: SpecField) -> Seq<char> {
    "name='"@ + lossy_of(f.name) + "', type="@ + spec_pg_type(f.type_oid) + " (OID="@ + spec_dec(
        f.type_oid as u64,
    ) + "), size="@ + spec_dec_int(f.type_size) + ", typemod="@ + spec_dec_int(f.type_mod)
        + ", format="@ + spec_format_format(f.format)
}

/// Base-ten rendering of a bounded signed value.
pub open spec fn spec_dec_int(n: int) -> Seq<char> {
    if n < 0 {
        seq!['-'] + spec_dec((-n) as u64)
    } else {
        spec_dec(n as u64)
    }
}

/// A decoded RowDescription field: metadata for the table formatter and a
/// rendered description.
pub struct RowDescriptionField {
    pub field_info: crate::table_formatter::FieldInfo,
    pub description: String,
}

/// Decodes a RowDescription body into its fields, each with a rendered
/// description, or nothing where the body is too short or lists none.
pub fn parse_row_description(data: &[u8]) -> (r: Option<Vec<RowDescriptionField>>)
    ensures
        ({
            let fields = spec_rd_fields(data@, 2, be_u16_of(data@) as int);
            if data@.len() < 2 || fields.len() == 0 {
                r is None
            } else {
                r matches Some(v) && v@.len() == fields.len() && (forall|k: int|
                    0 <= k < fields.len() ==> {
                        &&& (#[trigger] v@[k]).field_info.name@ == lossy_of(fields[k].name)
                        &&& v@[k].field_info.data_type@ == spec_pg_type(fields[k].type_oid)
                        &&& v@[k].description@ == spec_rd_desc(fields[k])
                    })
            }
        }),
{
    if data.len() < 2 {
        return None;
    }
    let count = crate::frame::read_be_u16(data, 0);
    let ghost fields = spec_rd_fields(data@, 2, count as int);
    let mut out: Vec<RowDescriptionField> = Vec::new();
    let mut i: usize = 2;
    let mut k: u16 = 0;
    let n = data.len();
    while k < count
        invariant
            n == data@.len(),
            n >= 2,
            2 <= i <= n,
            k <= count,
            fields == spec_rd_fields(data@, 2, count as int),
            fields =~= fields.subrange(0, k as int) + spec_rd_fields(
                data@,
                i as int,
                (count - k) as int,
            ),
            fields.subrange(0, k as int).len() == k,
            out@.len() == k,
            forall|m: int|
                0 <= m < k ==> {
                    &&& (#[trigger] out@[m]).field_info.name@ == lossy_of(fields[m].name)
                    &&& out@[m].field_info.data_type@ == spec_pg_type(fields[m].type_oid)
                    &&& out@[m].description@ == spec_rd_desc(fields[m])
                },
        ensures
            spec_rd_fields(data@, i as int, (count - k) as int) =~= Seq::<SpecField>::empty(),
        decreases count - k,
    {
        proof {
            lemma_find_nul(data@, i as int);
        }
        let j = nul_pos(data, i);
        if n < 19 || j > n - 19 {
            proof {
                assert(spec_rd_fields(data@, i as int, (count - k) as int) =~= Seq::<
                    SpecField,
                >::empty());
            }
            break ;
        }
        let name_bytes = vstd::slice::slice_subrange(data, i, j);
        let kk = j + 1;
        let table_oid = crate::frame::read_be_u32(data, kk);
        let col_attr = crate::frame::read_be_u16(data, kk + 4);
        let type_oid = crate::frame::read_be_u32(data, kk + 6);
        let type_size = crate::frame::read_be_i16(data, kk + 10);
        let type_mod = crate::frame::read_be_i32(data, kk + 12);
        let format_code = crate::frame::read_be_u16(data, kk + 16);
        let ghost fld = spec_rd_fields(data@, i as int, (count - k) as int)[0];
        proof {
            assert(spec_rd_fields(data@, i as int, (count - k) as int) == seq![fld]
                + spec_rd_fields(data@, kk + 18 as int, (count - k - 1) as int));
            assert(fields[k as int] == fld);
            assert(fld.name == data@.subrange(i as int, j as int));
            assert(fld.type_oid == type_oid && fld.type_size == type_size as int && fld.type_mod
                == type_mod as int && fld.format == format_code);
        }
        let name_str = lossy_string(name_bytes);
        let type_label = get_pg_type_name(type_oid);

        let mut description = String::new();
        description.append("name='");
        description.append(name_str.as_str());
        description.append("', type=");
        description.append(type_label);
        description.append(" (OID=");
        let oid_dec = u64_to_dec(type_oid as u64);
        description.append(oid_dec.as_str());
        description.append("), size=");
        let size_dec = i64_to_dec(type_size);
        description.append(size_dec.as_str());
        description.append(", typemod=");
        let mod_dec = i64_to_dec(type_mod);
        description.append(mod_dec.as_str());
        description.append(", format=");
        description.append(format_format(format_code));
        proof {
            assert(spec_dec_i64(type_size) =~= spec_dec_int(fld.type_size));
            assert(spec_dec_i64(type_mod) =~= spec_dec_int(fld.type_mod));
            assert(description@ =~= spec_rd_desc(fld));
        }

        let mut type_label_string = String::new();
        type_label_string.append(type_label);
        proof {
            assert(type_label_string@ =~= spec_pg_type(fld.type_oid));
        }
        let field_info = crate::table_formatter::FieldInfo {
            name: name_str,
            data_type: type_label_string,
        };
        out.push(RowDescriptionField { field_info, description });
        proof {
            assert(fields.subrange(0, (k + 1) as int) =~= fields.subrange(0, k as int) + seq![fld]);
            assert(fields =~= fields.subrange(0, (k + 1) as int) + spec_rd_fields(
                data@,
                kk + 18 as int,
                (count - k - 1) as int,
            ));
        }
        i = kk + 18;
        k = k + 1;
    }
    proof {
        assert(fields =~= fields.subrange(0, k as int));
        assert(fields.len() == out@.len());
    }
    if out.len() == 0 {
        return None;
    }
    Some(out)
}

/// The hex rendering of bytes, two digits each, space-separated.
pub open spec fn spec_hex_spaced(bs: Seq<u8>) -> Seq<char> {
    spec_join(bs.map_values(|b: u8| spec_hex_byte(b)), " "@)
}

/// Renders bytes as space-separated hex pairs.
pub fn hex_spaced(bs: &[u8]) -> (r: String)
    ensures
        r@ == spec_hex_spaced(bs@),
{
    let ghost pairs = bs@.map_values(|b: u8| spec_hex_byte(b));
    let n = bs.len();
    let mut out = String::new();
    let mut i: usize = 0;
    while i < n
        invariant
            n == bs@.len(),
            i <= n,
            pairs == bs@.map_values(|b: u8| spec_hex_byte(b)),
            out@ == spec_join(pairs.subrange(0, i as int), " "@) + if 0 < i < n {
                " "@
            } else {
                Seq::<char>::empty()
            },
        decreases n - i,
    {
        push_hex_byte(&mut out, bs[i]);
        if i + 1 < n {
            out.append(" ");
        }
        proof {
            lemma_join_snoc(pairs.subrange(0, i + 1), " "@);
            assert(pairs.subrange(0, i + 1).drop_last() =~= pairs.subrange(0, i as int));
            assert(pairs.subrange(0, i + 1).last() == pairs[i as int]);
            if i + 1 < n {
                assert(out@ =~= spec_join(pairs.subrange(0, i + 1), " "@) + " "@);
            } else {
                assert(out@ =~= spec_join(pairs.subrange(0, i + 1), " "@));
            }
        }
        i = i + 1;
    }
    proof {
        assert(pairs.subrange(0, n as int) =~= pairs);
    }
    out
}

/// One DataRow column value rendered for logging: quoted text where the
/// bytes are valid UTF-8, cut at one hundred characters; a hex preview of
/// at most thirty-two bytes otherwise.
pub open spec fn spec_column_text(vb: Seq<u8>) -> Seq<char> {
    if vstd::utf8::valid_utf8(vb) {
        let s = vstd::utf8::decode_utf8(vb);
        if s.len() > 100 {
            seq!['\''] + s.subrange(0, 100) + "...' ("@ + spec_dec(vb.len() as u64) + " bytes)"@
        } else {
            seq!['\''] + s + seq!['\'']
        }
    } else {
        if vb.len() > 32 {
            "<binary: "@ + spec_hex_spaced(vb.subrange(0, 32)) + " ...> ("@ + spec_dec(
                vb.len() as u64,
            ) + " bytes)"@
        } else {
            "<binary: "@ + spec_hex_spaced(vb) + ">"@
        }
    }
}

/// Renders one column value.
fn column_text(vb: &[u8]) -> (r: String)
    ensures
        r@ == spec_column_text(vb@),
{
    match crate::strutil::utf8_string(vb) {
        Some(s) => {
            let len_chars = s.as_str().unicode_len();
            if len_chars > 100 {
                let mut out = String::new();
                push_char(&mut out, '\'');
                let head = s.as_str().substring_char(0, 100);
                out.append(head);
                out.append("...' (");
                let dec = u64_to_dec(vb.len() as u64);
                out.append(dec.as_str());
                out.append(" bytes)");
                proof {
                    assert(out@ =~= spec_column_text(vb@));
                }
                out
            } else {
                let mut out = String::new();
                push_char(&mut out, '\'');
                out.append(s.as_str());
                push_char(&mut out, '\'');
                proof {
                    assert(out@ =~= spec_column_text(vb@));
                }
                out
            }
        },
        None => {
            if vb.len() > 32 {
                let mut out = String::new();
                out.append("<binary: ");
                let head = hex_spaced(vstd::slice::slice_subrange(vb, 0, 32));
                out.append(head.as_str());
                out.append(" ...> (");
                let dec = u64_to_dec(vb.len() as u64);
                out.append(dec.as_str());
                out.append(" bytes)");
                proof {
                    assert(out@ =~= spec_column_text(vb@));
                }
                out
            } else {
                let mut out = String::new();
                out.append("<binary: ");
                let body = hex_spaced(vb);
                out.append(body.as_str());
                out.append(">");
                proof {
                    assert(out@ =~= spec_column_text(vb@));
                }
                out
            }
        },
    }
}

/// The rendered column values of a DataRow body from offset `i`, at most
/// `count` of them.  A length of minus one renders as NULL; decoding stops
/// at a truncated length or value; other negative lengths yield nothing
/// for that column.
pub open spec fn spec_data_values(data: Seq<u8>, i: int, count: int) -> Seq<Seq<char>>
    decreases count,
{
    if count <= 0 || i < 0 || i + 4 > data.len() {
        Seq::empty()
    } else {
        let l = crate::frame::as_i32(
            crate::frame::be_u32(data[i], data[i + 1], data[i + 2], data[i + 3]),
        );
        if l == -1 {
            seq!["NULL"@] + spec_data_values(data, i + 4, count - 1)
        } else if l >= 0 {
            if i + 4 + l > data.len() {
                Seq::empty()
            } else {
                seq![spec_column_text(data.subrange(i + 4, i + 4 + l))] + spec_data_values(
                    data,
                    i + 4 + l,
                    count - 1,
                )
            }
        } else {
            spec_data_values(data, i + 4, count - 1)
        }
    }
}

/// Decodes a DataRow body into rendered column values, or nothing where
/// the body is too short or yields none.
pub fn parse_data_row(data: &[u8]) -> (r: Option<Vec<String>>)
    ensures
        ({
            let values = spec_data_values(data@, 2, be_u16_of(data@) as int);
            if data@.len() < 2 || values.len() == 0 {
                r is None
            } else {
                r matches Some(v) && v.deep_view() == values
            }
        }),
{
    if data.len() < 2 {
        return None;
    }
    let count = crate::frame::read_be_u16(data, 0);
    let ghost values = spec_data_values(data@, 2, count as int);
    let mut out: Vec<String> = Vec::new();
    let ghost done: int = 0;
    let mut i: usize = 2;
    let mut k: u16 = 0;
    let n = data.len();
    while k < count
        invariant
            n == data@.len(),
            n >= 2,
            2 <= i <= n,
            k <= count,
            0 <= done <= values.len(),
            values == spec_data_values(data@, 2, count as int),
            values =~~= values.subrange(0, done) + spec_data_values(
                data@,
                i as int,
                (count - k) as int,
            ),
            values.subrange(0, done).len() == done,
            out.deep_view() =~~= values.subrange(0, done),
        ensures
            spec_data_values(data@, i as int, (count - k) as int) =~~= Seq::<Seq<char>>::empty(),
        decreases count - k,
    {
        if n < 4 || i > n - 4 {
            proof {
                assert(spec_data_values(data@, i as int, (count - k) as int) =~~= Seq::<
                    Seq<char>,
                >::empty());
            }
            break ;
        }
        let l = crate::frame::read_be_i32(data, i);
        if l == -1 {
            let mut cell = String::new();
            cell.append("NULL");
            proof {
                assert(cell@ =~= "NULL"@);
                crate::strutil::lemma_deep_view_is_seq_deep(&out);
            }
            let ghost pv = out@;
            out.push(cell);
            proof {
                crate::strutil::lemma_seq_deep_push(pv, cell);
                crate::strutil::lemma_deep_view_is_seq_deep(&out);
                assert(spec_data_values(data@, i as int, (count - k) as int) == seq!["NULL"@]
                    + spec_data_values(data@, i + 4 as int, (count - k - 1) as int));
                assert(values.subrange(0, done + 1).drop_last() =~~= values.subrange(0, done));
                assert(values[done] == "NULL"@);
                assert(out.deep_view() =~~= values.subrange(0, done + 1));
                assert(values =~~= values.subrange(0, done + 1) + spec_data_values(
                    data@,
                    i + 4 as int,
                    (count - k - 1) as int,
                ));
            }
            i = i + 4;
            proof {
                done = done + 1;
            }
        } else if l >= 0 {
            let ll = l as usize;
            if ll > n - (i + 4) {
                proof {
                    assert(i + 4 + l > n);
                    assert(spec_data_values(data@, i as int, (count - k) as int) =~~= Seq::<
                        Seq<char>,
                    >::empty());
                }
                break ;
            }
            let vb = vstd::slice::slice_subrange(data, i + 4, i + 4 + ll);
            let cell = column_text(vb);
            proof {
                crate::strutil::lemma_deep_view_is_seq_deep(&out);
            }
            let ghost pv = out@;
            out.push(cell);
            proof {
                crate::strutil::lemma_seq_deep_push(pv, cell);
                crate::strutil::lemma_deep_view_is_seq_deep(&out);
                assert(spec_data_values(data@, i as int, (count - k) as int) == seq![
                    spec_column_text(data@.subrange(i + 4, i + 4 + l)),
                ] + spec_data_values(data@, i + 4 + l, (count - k - 1) as int));
                assert(values.subrange(0, done + 1).drop_last() =~~= values.subrange(0, done));
                assert(values[done] == spec_column_text(data@.subrange(i + 4, i + 4 + l)));
                assert(out.deep_view() =~~= values.subrange(0, done + 1));
                assert(values =~~= values.subrange(0, done + 1) + spec_data_values(
                    data@,
                    i + 4 + l,
                    (count - k - 1) as int,
                ));
            }
            i = i + 4 + ll;
            proof {
                done = done + 1;
            }
        } else {
            proof {
                assert(spec_data_values(data@, i as int, (count - k) as int) == spec_data_values(
                    data@,
                    i + 4 as int,
                    (count - k - 1) as int,
                ));
            }
            i = i + 4;
        }
        k = k + 1;
    }
    proof {
        assert(values =~~= values.subrange(0, done));
        assert(values.len() == done);
        assert(out.deep_view() =~~= values);
        assert(out@.len() == out.deep_view().len());
    }
    if out.len() == 0 {
        return None;
    }
    Some(out)
}

/// The big-endian 16-bit entries at offset `i`, `count` of them, where all
/// fit in the data.
pub open spec fn spec_u16_list(data: Seq<u8>, i: int, count: int) -> Seq<u16> {
    Seq::new(count as nat, |k: int| crate::frame::be_u16(data[i + 2 * k], data[i + 2 * k + 1]))
}

/// The offset just past `count` length-prefixed parameter values starting
/// at `i`, or nothing where one is truncated.  A negative length carries no
/// bytes.
pub open spec fn spec_skip_params(data: Seq<u8>, i: int, count: int) -> Option<int>
    decreases count,
{
    if count <= 0 {
        Some(i)
    } else if i < 0 || i + 4 > data.len() {
        None
    } else {
        let l = crate::frame::as_i32(
            crate::frame::be_u32(data[i], data[i + 1], data[i + 2], data[i + 3]),
        );
        if l < 0 {
            spec_skip_params(data, i + 4, count - 1)
        } else if i + 4 + l > data.len() {
            None
        } else {
            spec_skip_params(data, i + 4 + l, count - 1)
        }
    }
}

/// The structure of a Bind body: portal and statement names, the parameter
/// format codes, the parameter count, and the result format codes, or
/// nothing where any part is truncated.
pub open spec fn spec_bind_parts(data: Seq<u8>) -> Option<(Seq<u8>, Seq<u8>, u16, Seq<u16>, u16, u16, Seq<u16>)> {
    let len = data.len() as int;
    let e1 = find_nul(data, 0);
    if e1 >= len {
        None
    } else {
        let portal = data.subrange(0, e1);
        let e2 = find_nul(data, e1 + 1);
        if e2 >= len {
            None
        } else {
            let stmt = data.subrange(e1 + 1, e2);
            let i0 = e2 + 1;
            if i0 + 2 > len {
                None
            } else {
                let pfc = crate::frame::be_u16(data[i0], data[i0 + 1]);
                let i1 = i0 + 2;
                if i1 + 2 * pfc > len {
                    None
                } else {
                    let pformats = spec_u16_list(data, i1, pfc as int);
                    let i2 = i1 + 2 * pfc;
                    if i2 + 2 > len {
                        None
                    } else {
                        let pc = crate::frame::be_u16(data[i2], data[i2 + 1]);
                        match spec_skip_params(data, i2 + 2, pc as int) {
                            None => None,
                            Some(i4) => {
                                if i4 + 2 > len {
                                    None
                                } else {
                                    let rfc = crate::frame::be_u16(data[i4], data[i4 + 1]);
                                    let i5 = i4 + 2;
                                    if i5 + 2 * rfc > len {
                                        None
                                    } else {
                                        Some(
                                            (
                                                portal,
                                                stmt,
                                                pfc,
                                                pformats,
                                                pc,
                                                rfc,
                                                spec_u16_list(data, i5, rfc as int),
                                            ),
                                        )
                                    }
                                }
                            },
                        }
                    }
                }
            }
        }
    }
}

/// The summary line of a Bind body.
pub open spec fn spec_bind_summary(data: Seq<u8>) -> Option<Seq<char>> {
    match spec_bind_parts(data) {
        None => None,
        Some(p) => Some(
            "Portal='"@ + spec_format_identifier(p.0) + "', Statement='"@ + spec_format_identifier(
                p.1,
            ) + "', Parameters="@ + spec_dec(p.4 as u64) + ", "@ + spec_describe_format_codes(
                "ParamFormats"@,
                p.2,
                p.3,
            ) + ", "@ + spec_describe_format_codes("ResultFormats"@, p.5, p.6),
        ),
    }
}

/// Reads `count` big-endian 16-bit entries at offset `i`.
fn read_u16_list(data: &[u8], i: usize, count: u16) -> (r: Vec<u16>)
    requires
        i + 2 * count <= data@.len(),
    ensures
        r@ == spec_u16_list(data@, i as int, count as int),
{
    let n = data.len();
    let mut v: Vec<u16> = Vec::new();
    let mut k: u16 = 0;
    while k < count
        invariant
            n == data@.len(),
            i + 2 * count <= n,
            k <= count,
            v@ =~= spec_u16_list(data@, i as int, count as int).subrange(0, k as int),
        decreases count - k,
    {
        let off = i + 2 * (k as usize);
        v.push(crate::frame::read_be_u16(data, off));
        proof {
            assert(v@ =~= spec_u16_list(data@, i as int, count as int).subrange(
                0,
                (k + 1) as int,
            ));
        }
        k = k + 1;
    }
    proof {
        assert(spec_u16_list(data@, i as int, count as int).subrange(0, count as int)
            =~= spec_u16_list(data@, i as int, count as int));
    }
    v
}

/// Decodes a Bind body into its summary line, or nothing where any part of
/// the body is truncated.
pub fn parse_bind_message(data: &[u8]) -> (r: Option<String>)
    ensures
        match spec_bind_summary(data@) {
            None => r is None,
            Some(t) => r matches Some(s) && s@ == t,
        },
{
    let n = data.len();
    proof {
        lemma_find_nul(data@, 0);
    }
    let e1 = nul_pos(data, 0);
    if e1 >= n {
        return None;
    }
    let portal = vstd::slice::slice_subrange(data, 0, e1);
    proof {
        lemma_find_nul(data@, e1 + 1 as int);
    }
    let e2 = nul_pos(data, e1 + 1);
    if e2 >= n {
        return None;
    }
    let stmt = vstd::slice::slice_subrange(data, e1 + 1, e2);
    let i0 = e2 + 1;
    if n < 2 || i0 > n - 2 {
        return None;
    }
    let pfc = crate::frame::read_be_u16(data, i0);
    let i1 = i0 + 2;
    if (pfc as usize) > (n - i1) / 2 {
        proof {
            assert(i1 + 2 * pfc > n);
        }
        return None;
    }
    proof {
        assert(i1 + 2 * pfc <= n);
    }
    let pformats = read_u16_list(data, i1, pfc);
    let i2 = i1 + 2 * (pfc as usize);
    if i2 > n - 2 {
        return None;
    }
    let pc = crate::frame::read_be_u16(data, i2);
    let i3 = i2 + 2;

    let ghost skip_from = i3 as int;
    let mut i = i3;
    let mut k: u16 = 0;
    let mut truncated = false;
    while k < pc
        invariant
            n == data@.len(),
            0 <= i <= n,
            k <= pc,
            !truncated ==> spec_skip_params(data@, skip_from, pc as int) == spec_skip_params(
                data@,
                i as int,
                (pc - k) as int,
            ),
            truncated ==> spec_skip_params(data@, skip_from, pc as int) is None,
        ensures
            truncated || k >= pc,
        decreases pc - k,
    {
        if n < 4 || i > n - 4 {
            truncated = true;
            break ;
        }
        let l = crate::frame::read_be_i32(data, i);
        if l < 0 {
            i = i + 4;
        } else {
            let ll = l as usize;
            if ll > n - (i + 4) {
                proof {
                    assert(i + 4 + l > n);
                }
                truncated = true;
                break ;
            }
            i = i + 4 + ll;
        }
        k = k + 1;
    }
    if truncated {
        return None;
    }
    proof {
        assert(spec_skip_params(data@, i as int, (pc - k) as int) == Some(i as int));
        assert(spec_skip_params(data@, skip_from, pc as int) == Some(i as int));
    }
    let i4 = i;
    if i4 > n - 2 {
        return None;
    }
    let rfc = crate::frame::read_be_u16(data, i4);
    let i5 = i4 + 2;
    if (rfc as usize) > (n - i5) / 2 {
        proof {
            assert(i5 + 2 * rfc > n);
        }
        return None;
    }
    proof {
        assert(i5 + 2 * rfc <= n);
    }
    let rformats = read_u16_list(data, i5, rfc);

    let portal_str = format_identifier(portal);
    let stmt_str = format_identifier(stmt);
    let param_formats_desc = describe_format_codes("ParamFormats", pfc, &pformats);
    let result_formats_desc = describe_format_codes("ResultFormats", rfc, &rformats);

    let mut out = String::new();
    out.append("Portal='");
    out.append(portal_str.as_str());
    out.append("', Statement='");
    out.append(stmt_str.as_str());
    out.append("', Parameters=");
    let pc_dec = u64_to_dec(pc as u64);
    out.append(pc_dec.as_str());
    out.append(", ");
    out.append(param_formats_desc.as_str());
    out.append(", ");
    out.append(result_formats_desc.as_str());
    proof {
        assert(out@ =~= spec_bind_summary(data@).unwrap());
    }
    Some(out)
}

/// The lower-case hex rendering of `n` without leading zeros.
pub open spec fn spec_hex_u64(n: u64) -> Seq<char>
    decreases n,
{
    if n < 16 {
        seq![crate::strutil::hex_digit(n as u8)]
    } else {
        spec_hex_u64(n / 16).push(crate::strutil::hex_digit((n % 16) as u8))
    }
}

/// The hex rendering of `n`, zero-padded on the left to at least four
/// digits.
pub open spec fn spec_hex4(n: u64) -> Seq<char> {
    let h = spec_hex_u64(n);
    if h.len() >= 4 {
        h
    } else {
        spec_repeat('0', (4 - h.len()) as nat) + h
    }
}

/// A string padded on the right with spaces to at least `w` characters.
pub open spec fn spec_pad_right(s: Seq<char>, w: nat) -> Seq<char> {
    if s.len() >= w {
        s
    } else {
        s + spec_repeat(' ', (w - s.len()) as nat)
    }
}

/// How one byte shows in the ASCII column: itself where printable, a dot
/// otherwise.
pub open spec fn spec_ascii_char(b: u8) -> char {
    if 0x20 <= b && b <= 0x7e {
        b as char
    } else {
        '.'
    }
}

/// One hex-dump line: the address tag, the four-digit offset, the hex
/// bytes padded to forty-eight columns, and the ASCII column.
pub open spec fn spec_hex_dump_line(data: Seq<u8>, addr: Seq<char>, k: int) -> Seq<char> {
    let chunk_end = if 16 * k + 16 <= data.len() {
        16 * k + 16
    } else {
        data.len() as int
    };
    let chunk = data.subrange(16 * k, chunk_end);
    "["@ + addr + "]   "@ + spec_hex4((16 * k) as u64) + ": "@ + spec_pad_right(
        spec_hex_spaced(chunk),
        48,
    ) + "  "@ + chunk.map_values(|b: u8| spec_ascii_char(b))
}

/// All hex-dump lines of a byte string, sixteen bytes a line.
pub open spec fn spec_hex_dump_lines(data: Seq<u8>, addr: Seq<char>) -> Seq<Seq<char>> {
    Seq::new(((data.len() + 15) / 16) as nat, |k: int| spec_hex_dump_line(data, addr, k))
}

/// Renders `n` in lower-case hex.
pub fn u64_to_hex(n: u64) -> (r: String)
    ensures
        r@ == spec_hex_u64(n),
    decreases n,
{
    if n < 16 {
        let mut s = String::new();
        let d: u64 = n % 16;
        push_hex_digit(&mut s, (n % 16) as u8);
        assert(s@ =~= spec_hex_u64(n));
        s
    } else {
        let mut s = u64_to_hex(n / 16);
        push_hex_digit(&mut s, (n % 16) as u8);
        s
    }
}

/// Appends one hex digit.
fn push_hex_digit(s: &mut String, d: u8)
    requires
        d < 16,
    ensures
        final(s)@ == old(s)@.push(crate::strutil::hex_digit(d)),
{
    if d < 10 {
        match d {
            0 => push_char(s, '0'),
            1 => push_char(s, '1'),
            2 => push_char(s, '2'),
            3 => push_char(s, '3'),
            4 => push_char(s, '4'),
            5 => push_char(s, '5'),
            6 => push_char(s, '6'),
            7 => push_char(s, '7'),
            8 => push_char(s, '8'),
            _ => push_char(s, '9'),
        }
    } else {
        match d {
            10 => push_char(s, 'a'),
            11 => push_char(s, 'b'),
            12 => push_char(s, 'c'),
            13 => push_char(s, 'd'),
            14 => push_char(s, 'e'),
            _ => push_char(s, 'f'),
        }
    }
}

/// Renders `n` as at least four hex digits.
fn hex4(n: u64) -> (r: String)
    ensures
        r@ == spec_hex4(n),
{
    let body = u64_to_hex(n);
    let len = body.as_str().unicode_len();
    if len >= 4 {
        body
    } else {
        let mut s = String::new();
        push_repeat(&mut s, '0', 4 - len);
        s.append(body.as_str());
        proof {
            assert(s@ =~= spec_hex4(n));
        }
        s
    }
}

/// How one byte shows in the ASCII column.
fn ascii_char(b: u8) -> (r: char)
    ensures
        r == spec_ascii_char(b),
{
    if 0x20 <= b && b <= 0x7e {
        b as char
    } else {
        '.'
    }
}

/// Renders a frame's raw bytes as hex-dump lines, sixteen bytes a line,
/// each tagged with the client address: offset, hex bytes, ASCII column.
pub fn log_hex_dump(data: &[u8], client_addr: &str) -> (lines: Vec<String>)
    ensures
        lines.deep_view() == spec_hex_dump_lines(data@, client_addr@),
{
    let n = data.len();
    let ghost nchunks = ((data@.len() + 15) / 16) as int;
    let mut lines: Vec<String> = Vec::new();
    let mut off: usize = 0;
    let ghost done: int = 0;
    while off < n
        invariant
            n == data@.len(),
            off <= n,
            off < n ==> off == 16 * done,
            0 <= done,
            done <= nchunks,
            nchunks == ((data@.len() + 15) / 16) as int,
            off >= n ==> done == nchunks,
            lines.deep_view() =~~= spec_hex_dump_lines(data@, client_addr@).subrange(0, done),
        decreases n - off,
    {
        let chunk_end = if n - off < 16 {
            n
        } else {
            off + 16
        };
        let chunk = vstd::slice::slice_subrange(data, off, chunk_end);
        let mut line = String::new();
        line.append("[");
        line.append(client_addr);
        line.append("]   ");
        let offs = hex4(off as u64);
        line.append(offs.as_str());
        line.append(": ");
        let hex = hex_spaced(chunk);
        let hex_len = hex.as_str().unicode_len();
        line.append(hex.as_str());
        if hex_len < 48 {
            push_repeat(&mut line, ' ', 48 - hex_len);
        }
        line.append("  ");
        let m = chunk.len();
        let mut k: usize = 0;
        let ghost line_before_ascii = line@;
        while k < m
            invariant
                m == chunk@.len(),
                k <= m,
                line@ == line_before_ascii + chunk@.subrange(0, k as int).map_values(
                    |b: u8| spec_ascii_char(b),
                ),
            decreases m - k,
        {
            push_char(&mut line, ascii_char(chunk[k]));
            proof {
                assert(chunk@.subrange(0, (k + 1) as int).map_values(|b: u8| spec_ascii_char(b))
                    =~= chunk@.subrange(0, k as int).map_values(|b: u8| spec_ascii_char(b)).push(
                    spec_ascii_char(chunk@[k as int]),
                ));
                assert(line@ =~= line_before_ascii + chunk@.subrange(0, (k + 1) as int).map_values(
                    |b: u8| spec_ascii_char(b),
                ));
            }
            k = k + 1;
        }
        proof {
            assert(chunk@.subrange(0, m as int) =~= chunk@);
            assert(chunk@.map_values(|b: u8| spec_ascii_char(b)) =~= chunk@.subrange(
                0,
                m as int,
            ).map_values(|b: u8| spec_ascii_char(b)));
            assert(done < nchunks) by {
                assert(16 * done < n);
                assert(16 * nchunks + 15 >= n + 15) by (nonlinear_arith)
                    requires
                        nchunks == (n + 15int) / 16int,
                        n >= 0,
                ;
                assert(16 * done < 16 * nchunks ==> done < nchunks) by (nonlinear_arith);
            }
            assert(line@ =~= spec_hex_dump_line(data@, client_addr@, done));
            crate::strutil::lemma_deep_view_is_seq_deep(&lines);
        }
        let ghost pv = lines@;
        lines.push(line);
        proof {
            crate::strutil::lemma_seq_deep_push(pv, line);
            crate::strutil::lemma_deep_view_is_seq_deep(&lines);
            assert(lines.deep_view() =~~= spec_hex_dump_lines(data@, client_addr@).subrange(
                0,
                done + 1,
            ));
        }
        let ghost old_off = off as int;
        off = chunk_end;
        proof {
            done = done + 1;
            if off >= n {
                assert(16 * (done - 1) < n <= 16 * done) by {
                    assert(old_off == 16 * (done - 1));
                    assert(old_off < n);
                    assert(n <= old_off + 16);
                }
                assert(done == nchunks) by (nonlinear_arith)
                    requires
                        16 * (done - 1) < n <= 16 * done,
                        nchunks == (n + 15int) / 16int,
                ;
            } else {
                assert(off == old_off + 16);
                assert(off == 16 * done);
            }
        }
    }
    proof {
        if n == 0 {
            assert(nchunks == 0);
        }
        assert(done == nchunks);
        assert(spec_hex_dump_lines(data@, client_addr@).subrange(0, nchunks)
            =~~= spec_hex_dump_lines(data@, client_addr@));
    }
    lines
}

/// The `"[addr] <arrow> "` prefix of a message line.
pub open spec fn spec_msg_prefix(addr: Seq<char>, arrow: Seq<char>) -> Seq<char> {
    "["@ + addr + "] "@ + arrow + " "@
}

fn msg_prefix(client_addr: &str, arrow: &str) -> (r: String)
    ensures
        r@ == spec_msg_prefix(client_addr@, arrow@),
{
    let mut s = String::new();
    s.append("[");
    s.append(client_addr);
    s.append("] ");
    s.append(arrow);
    s.append(" ");
    proof {
        assert(s@ =~= spec_msg_prefix(client_addr@, arrow@));
    }
    s
}

/// The `"[addr]    "` prefix of a detail line.
pub open spec fn spec_detail_prefix(addr: Seq<char>) -> Seq<char> {
    "["@ + addr + "]    "@
}

fn detail_prefix(client_addr: &str) -> (r: String)
    ensures
        r@ == spec_detail_prefix(client_addr@),
{
    let mut s = String::new();
    s.append("[");
    s.append(client_addr);
    s.append("]    ");
    proof {
        assert(s@ =~= spec_detail_prefix(client_addr@));
    }
    s
}

/// A one-line result.
pub(crate) fn vec1(a: String) -> (r: Vec<String>)
    ensures
        r.deep_view() =~~= seq![a@],
{
    let mut v: Vec<String> = Vec::new();
    proof {
        crate::strutil::lemma_deep_view_is_seq_deep(&v);
    }
    let ghost pv = v@;
    v.push(a);
    proof {
        crate::strutil::lemma_seq_deep_push(pv, a);
        crate::strutil::lemma_deep_view_is_seq_deep(&v);
    }
    v
}

/// Appends one line.
pub(crate) fn push_line(v: &mut Vec<String>, a: String)
    ensures
        final(v).deep_view() =~~= old(v).deep_view().push(a@),
{
    proof {
        crate::strutil::lemma_deep_view_is_seq_deep(v);
    }
    let ghost pv = v@;
    v.push(a);
    proof {
        crate::strutil::lemma_seq_deep_push(pv, a);
        crate::strutil::lemma_deep_view_is_seq_deep(v);
    }
}

/// Numbered detail lines, one per item: `"[addr]    <label> <i>: <text>"`.
pub open spec fn spec_numbered(addr: Seq<char>, label: Seq<char>, texts: Seq<Seq<char>>) -> Seq<
    Seq<char>,
> {
    Seq::new(
        texts.len(),
        |i: int| spec_detail_prefix(addr) + label + " "@ + spec_dec((i + 1) as u64) + ": "@
            + texts[i],
    )
}

/// Appends one numbered detail line per item text.
fn push_numbered(out: &mut Vec<String>, client_addr: &str, label: &str, texts: &Vec<String>)
    ensures
        final(out).deep_view() =~~= old(out).deep_view() + spec_numbered(
            client_addr@,
            label@,
            texts.deep_view(),
        ),
{
    let n = texts.len();
    let mut i: usize = 0;
    while i < n
        invariant
            n == texts@.len(),
            i <= n,
            out.deep_view() =~~= old(out).deep_view() + spec_numbered(
                client_addr@,
                label@,
                texts.deep_view(),
            ).subrange(0, i as int),
        decreases n - i,
    {
        let mut line = detail_prefix(client_addr);
        line.append(label);
        line.append(" ");
        let num = u64_to_dec(i as u64 + 1);
        line.append(num.as_str());
        line.append(": ");
        line.append(texts[i].as_str());
        proof {
            assert(line@ =~= spec_numbered(client_addr@, label@, texts.deep_view())[i as int]);
        }
        push_line(out, line);
        proof {
            assert(out.deep_view() =~~= old(out).deep_view() + spec_numbered(
                client_addr@,
                label@,
                texts.deep_view(),
            ).subrange(0, (i + 1) as int));
        }
        i = i + 1;
    }
    proof {
        assert(spec_numbered(client_addr@, label@, texts.deep_view()).subrange(0, n as int)
            =~~= spec_numbered(client_addr@, label@, texts.deep_view()));
    }
}

/// The body of a Query or CopyFail message: everything up to the trailing
/// NUL byte.
pub open spec fn spec_drop_last(data: Seq<u8>) -> Seq<u8> {
    if data.len() > 0 {
        data.subrange(0, data.len() - 1)
    } else {
        data
    }
}

/// The log lines of one client-to-server message, by its kind byte.
#[verifier::opaque]
pub open spec fn spec_client_lines(
    t: char,
    data: Seq<u8>,
    addr: Seq<char>,
    arrow: Seq<char>,
) -> Seq<Seq<char>> {
    let pre = spec_msg_prefix(addr, arrow);
    let nbytes = spec_dec(data.len() as u64);
    if t == 'Q' {
        let qb = spec_drop_last(data);
        if vstd::utf8::valid_utf8(qb) {
            seq![pre + "Query: "@ + vstd::utf8::decode_utf8(qb)]
        } else {
            seq![pre + "Query (invalid UTF-8, "@ + nbytes + " bytes)"@]
        }
    } else if t == 'P' {
        seq![pre + "Parse (prepared statement, "@ + nbytes + " bytes)"@] + (
        match spec_parse_summary(data) {
            Some(d) => seq![spec_detail_prefix(addr) + d],
            None => Seq::<Seq<char>>::empty(),
        })
    } else if t == 'B' {
        seq![pre + "Bind ("@ + nbytes + " bytes)"@] + (match spec_bind_summary(data) {
            Some(d) => seq![spec_detail_prefix(addr) + d],
            None => Seq::<Seq<char>>::empty(),
        })
    } else if t == 'E' {
        seq![pre + "Execute ("@ + nbytes + " bytes)"@]
    } else if t == 'D' {
        if data.len() == 0 {
            seq![pre + "Describe (unknown)"@]
        } else {
            let name = data.subrange(1, find_nul(data, 1));
            let shown = if name.len() == 0 {
                "(unnamed)"@
            } else {
                lossy_of(name)
            };
            if data[0] == 83 {
                seq![pre + "Describe (statement '"@ + shown + "', "@ + nbytes + " bytes)"@]
            } else if data[0] == 80 {
                seq![pre + "Describe (portal '"@ + shown + "', "@ + nbytes + " bytes)"@]
            } else {
                seq![pre + "Describe (unknown, "@ + nbytes + " bytes)"@]
            }
        }
    } else if t == 'S' {
        seq![pre + "Sync"@]
    } else if t == 'X' {
        seq![pre + "Terminate"@]
    } else if t == 'p' {
        seq![pre + "PasswordMessage ("@ + nbytes + " bytes)"@]
    } else if t == 'C' {
        seq![pre + "Close ("@ + nbytes + " bytes)"@]
    } else if t == 'H' {
        seq![pre + "Flush"@]
    } else if t == 'd' {
        seq![pre + "CopyData ("@ + nbytes + " bytes)"@]
    } else if t == 'c' {
        seq![pre + "CopyDone"@]
    } else if t == 'f' {
        let mb = spec_drop_last(data);
        if vstd::utf8::valid_utf8(mb) {
            seq![pre + "CopyFail: "@ + vstd::utf8::decode_utf8(mb)]
        } else {
            seq![pre + "CopyFail"@]
        }
    } else {
        seq![pre + "Unknown message type '"@ + seq![t] + "' ("@ + nbytes + " bytes)"@]
    }
}

/// How one client-to-server message changes the timing marks.
pub open spec fn spec_client_timing(t: char, tv: TimingView, now: u64) -> TimingView {
    if t == 'Q' {
        TimingView { simple_query: Some(now), ..tv }
    } else if t == 'P' {
        TimingView { parse: Some(now), ..tv }
    } else if t == 'B' {
        TimingView { bind: Some(now), ..tv }
    } else if t == 'E' {
        TimingView { execute: Some(now), ..tv }
    } else {
        tv
    }
}

/// Renders one client-to-server message as log lines and marks the timing
/// slot its kind calls for.
pub fn parse_client_message(
    msg_type: char,
    data: &[u8],
    client_addr: &str,
    arrow: &str,
    timings: &mut ConnectionTiming,
    now: u64,
) -> (lines: Vec<String>)
    ensures
        lines.deep_view() == spec_client_lines(msg_type, data@, client_addr@, arrow@),
        final(timings)@ == spec_client_timing(msg_type, old(timings)@, now),
{
    proof {
        reveal(spec_client_lines);
    }
    let pre = msg_prefix(client_addr, arrow);
    let nbytes = u64_to_dec(data.len() as u64);
    if msg_type == 'Q' {
        timings.mark_simple_query(now);
        let qb = if data.len() > 0 {
            vstd::slice::slice_subrange(data, 0, data.len() - 1)
        } else {
            vstd::slice::slice_subrange(data, 0, 0)
        };
        proof {
            assert(qb@ =~= spec_drop_last(data@));
        }
        match crate::strutil::utf8_string(qb) {
            Some(q) => {
                let mut line = pre;
                line.append("Query: ");
                line.append(q.as_str());
                proof {
                    assert(line@ =~= spec_client_lines(msg_type, data@, client_addr@, arrow@)[0]);
                }
                vec1(line)
            },
            None => {
                let mut line = pre;
                line.append("Query (invalid UTF-8, ");
                line.append(nbytes.as_str());
                line.append(" bytes)");
                proof {
                    assert(line@ =~= spec_client_lines(msg_type, data@, client_addr@, arrow@)[0]);
                }
                vec1(line)
            },
        }
    } else if msg_type == 'P' {
        timings.mark_parse(now);
        let mut line = pre;
        line.append("Parse (prepared statement, ");
        line.append(nbytes.as_str());
        line.append(" bytes)");
        let mut out = vec1(line);
        match parse_parse_message(data) {
            Some(details) => {
                let mut d = detail_prefix(client_addr);
                d.append(details.as_str());
                push_line(&mut out, d);
                proof {
                    assert(out.deep_view() =~~= spec_client_lines(
                        msg_type,
                        data@,
                        client_addr@,
                        arrow@,
                    ));
                }
            },
            None => {
                proof {
                    assert(out.deep_view() =~~= spec_client_lines(
                        msg_type,
                        data@,
                        client_addr@,
                        arrow@,
                    ));
                }
            },
        }
        out
    } else if msg_type == 'B' {
        timings.mark_bind(now);
        let mut line = pre;
        line.append("Bind (");
        line.append(nbytes.as_str());
        line.append(" bytes)");
        let mut out = vec1(line);
        match parse_bind_message(data) {
            Some(details) => {
                let mut d = detail_prefix(client_addr);
                d.append(details.as_str());
                push_line(&mut out, d);
                proof {
                    assert(out.deep_view() =~~= spec_client_lines(
                        msg_type,
                        data@,
                        client_addr@,
                        arrow@,
                    ));
                }
            },
            None => {
                proof {
                    assert(out.deep_view() =~~= spec_client_lines(
                        msg_type,
                        data@,
                        client_addr@,
                        arrow@,
                    ));
                }
            },
        }
        out
    } else if msg_type == 'E' {
        timings.mark_execute(now);
        let mut line = pre;
        line.append("Execute (");
        line.append(nbytes.as_str());
        line.append(" bytes)");
        proof {
            assert(line@ =~= spec_client_lines(msg_type, data@, client_addr@, arrow@)[0]);
        }
        vec1(line)
    } else if msg_type == 'D' {
        if data.len() == 0 {
            let mut line = pre;
            line.append("Describe (unknown)");
            proof {
                assert(line@ =~= spec_client_lines(msg_type, data@, client_addr@, arrow@)[0]);
            }
            return vec1(line);
        }
        let target = data[0];
        proof {
            lemma_find_nul(data@, 1);
        }
        let e = nul_pos(data, 1);
        let name = vstd::slice::slice_subrange(data, 1, e);
        let shown = format_identifier(name);
        let mut line = pre;
        if target == 83 {
            line.append("Describe (statement '");
            line.append(shown.as_str());
            line.append("', ");
            line.append(nbytes.as_str());
            line.append(" bytes)");
        } else if target == 80 {
            line.append("Describe (portal '");
            line.append(shown.as_str());
            line.append("', ");
            line.append(nbytes.as_str());
            line.append(" bytes)");
        } else {
            line.append("Describe (unknown, ");
            line.append(nbytes.as_str());
            line.append(" bytes)");
        }
        proof {
            assert(line@ =~= spec_client_lines(msg_type, data@, client_addr@, arrow@)[0]);
        }
        vec1(line)
    } else if msg_type == 'S' {
        let mut line = pre;
        line.append("Sync");
        proof {
            assert(line@ =~= spec_client_lines(msg_type, data@, client_addr@, arrow@)[0]);
        }
        vec1(line)
    } else if msg_type == 'X' {
        let mut line = pre;
        line.append("Terminate");
        proof {
            assert(line@ =~= spec_client_lines(msg_type, data@, client_addr@, arrow@)[0]);
        }
        vec1(line)
    } else if msg_type == 'p' {
        let mut line = pre;
        line.append("PasswordMessage (");
        line.append(nbytes.as_str());
        line.append(" bytes)");
        proof {
            assert(line@ =~= spec_client_lines(msg_type, data@, client_addr@, arrow@)[0]);
        }
        vec1(line)
    } else if msg_type == 'C' {
        let mut line = pre;
        line.append("Close (");
        line.append(nbytes.as_str());
        line.append(" bytes)");
        proof {
            assert(line@ =~= spec_client_lines(msg_type, data@, client_addr@, arrow@)[0]);
        }
        vec1(line)
    } else if msg_type == 'H' {
        let mut line = pre;
        line.append("Flush");
        proof {
            assert(line@ =~= spec_client_lines(msg_type, data@, client_addr@, arrow@)[0]);
        }
        vec1(line)
    } else if msg_type == 'd' {
        let mut line = pre;
        line.append("CopyData (");
        line.append(nbytes.as_str());
        line.append(" bytes)");
        proof {
            assert(line@ =~= spec_client_lines(msg_type, data@, client_addr@, arrow@)[0]);
        }
        vec1(line)
    } else if msg_type == 'c' {
        let mut line = pre;
        line.append("CopyDone");
        proof {
            assert(line@ =~= spec_client_lines(msg_type, data@, client_addr@, arrow@)[0]);
        }
        vec1(line)
    } else if msg_type == 'f' {
        let mb = if data.len() > 0 {
            vstd::slice::slice_subrange(data, 0, data.len() - 1)
        } else {
            vstd::slice::slice_subrange(data, 0, 0)
        };
        proof {
            assert(mb@ =~= spec_drop_last(data@));
        }
        match crate::strutil::utf8_string(mb) {
            Some(m) => {
                let mut line = pre;
                line.append("CopyFail: ");
                line.append(m.as_str());
                proof {
                    assert(line@ =~= spec_client_lines(msg_type, data@, client_addr@, arrow@)[0]);
                }
                vec1(line)
            },
            None => {
                let mut line = pre;
                line.append("CopyFail");
                proof {
                    assert(line@ =~= spec_client_lines(msg_type, data@, client_addr@, arrow@)[0]);
                }
                vec1(line)
            },
        }
    } else {
        let mut line = pre;
        line.append("Unknown message type '");
        push_char(&mut line, msg_type);
        line.append("' (");
        line.append(nbytes.as_str());
        line.append(" bytes)");
        proof {
            assert(line@ =~= spec_client_lines(msg_type, data@, client_addr@, arrow@)[0]);
        }
        vec1(line)
    }
}

/// The name of an authentication sub-kind code.
pub open spec fn spec_auth_name(code: u32) -> Seq<char> {
    if code == 0 {
        "AuthenticationOk"@
    } else if code == 2 {
        "AuthenticationKerberosV5"@
    } else if code == 3 {
        "AuthenticationCleartextPassword"@
    } else if code == 5 {
        "AuthenticationMD5Password"@
    } else if code == 6 {
        "AuthenticationSCMCredential"@
    } else if code == 7 {
        "AuthenticationGSS"@
    } else if code == 8 {
        "AuthenticationGSSContinue"@
    } else if code == 9 {
        "AuthenticationSSPI"@
    } else if code == 10 {
        "AuthenticationSASL"@
    } else if code == 11 {
        "AuthenticationSASLContinue"@
    } else if code == 12 {
        "AuthenticationSASLFinal"@
    } else {
        "Unknown"@
    }
}

/// Names an authentication sub-kind code.
pub fn auth_name(code: u32) -> (r: &'static str)
    ensures
        r@ == spec_auth_name(code),
{
    if code == 0 {
        "AuthenticationOk"
    } else if code == 2 {
        "AuthenticationKerberosV5"
    } else if code == 3 {
        "AuthenticationCleartextPassword"
    } else if code == 5 {
        "AuthenticationMD5Password"
    } else if code == 6 {
        "AuthenticationSCMCredential"
    } else if code == 7 {
        "AuthenticationGSS"
    } else if code == 8 {
        "AuthenticationGSSContinue"
    } else if code == 9 {
        "AuthenticationSSPI"
    } else if code == 10 {
        "AuthenticationSASL"
    } else if code == 11 {
        "AuthenticationSASLContinue"
    } else if code == 12 {
        "AuthenticationSASLFinal"
    } else {
        "Unknown"
    }
}

/// The transaction status word of a ReadyForQuery body.
pub open spec fn spec_ready_status(data: Seq<u8>) -> Seq<char> {
    if data.len() > 0 {
        if data[0] == 73 {
            "idle"@
        } else if data[0] == 84 {
            "in transaction"@
        } else if data[0] == 69 {
            "error in transaction"@
        } else {
            "unknown"@
        }
    } else {
        "unknown"@
    }
}

/// How one server-to-client message renders, and how it changes the timing
/// marks and the table state.
#[verifier::opaque]
pub open spec fn spec_server_step(
    t: char,
    data: Seq<u8>,
    addr: Seq<char>,
    arrow: Seq<char>,
    tv: TimingView,
    now: u64,
    tbl: crate::table_formatter::TableView,
) -> (Seq<Seq<char>>, TimingView, crate::table_formatter::TableView) {
    let pre = spec_msg_prefix(addr, arrow);
    let nbytes = spec_dec(data.len() as u64);
    if t == 'R' {
        let lines = if data.len() >= 4 {
            seq![
                pre + "Authentication: "@ + spec_auth_name(
                    crate::frame::be_u32(data[0], data[1], data[2], data[3]),
                ),
            ]
        } else {
            seq![pre + "Authentication"@]
        };
        (lines, tv, tbl)
    } else if t == 'K' {
        (seq![pre + "BackendKeyData"@], tv, tbl)
    } else if t == 'Z' {
        (seq![pre + "ReadyForQuery ("@ + spec_ready_status(data) + ")"@], tv, tbl)
    } else if t == 'S' {
        let lines = match spec_cstring_pair(data) {
            Some(p) => seq![
                pre + "ParameterStatus: "@ + lossy_of(p.0) + " = "@ + lossy_of(p.1),
            ],
            None => seq![pre + "ParameterStatus"@],
        };
        (lines, tv, tbl)
    } else if t == 'T' {
        if data.len() < 2 {
            (seq![pre + "RowDescription"@], tv, tbl)
        } else {
            let fields = spec_rd_fields(data, 2, be_u16_of(data) as int);
            let head = seq![
                pre + "RowDescription ("@ + spec_dec(be_u16_of(data) as u64) + " fields)"@,
            ];
            if fields.len() == 0 {
                (head, tv, tbl)
            } else {
                (
                    head + spec_numbered(
                        addr,
                        "Field"@,
                        fields.map_values(|f: SpecField| spec_rd_desc(f)),
                    ),
                    tv,
                    crate::table_formatter::spec_table_set_rd(
                        tbl,
                        fields.map_values(|f: SpecField| lossy_of(f.name)),
                    ),
                )
            }
        }
    } else if t == 'D' {
        if data.len() < 2 {
            (seq![pre + "DataRow ("@ + nbytes + " bytes)"@], tv, tbl)
        } else {
            let values = spec_data_values(data, 2, be_u16_of(data) as int);
            if values.len() == 0 {
                (Seq::empty(), tv, tbl)
            } else if tbl.mode {
                let r = crate::table_formatter::spec_table_print_row(tbl, values, addr);
                (r.0, tv, r.1)
            } else {
                (
                    seq![
                        pre + "DataRow ("@ + spec_dec(be_u16_of(data) as u64) + " fields, "@
                            + nbytes + " bytes)"@,
                    ] + spec_numbered(addr, "Value"@, values),
                    tv,
                    tbl,
                )
            }
        }
    } else if t == 'C' {
        let fin = crate::table_formatter::spec_table_finish(tbl, addr);
        let tagb = spec_drop_last(data);
        let tv1 = TimingView {
            simple_query: None,
            execute: if tv.simple_query is Some {
                tv.execute
            } else {
                None
            },
            ..tv
        };
        let line = match spec_finish(tv.simple_query, now).1 {
            Some(d) => if vstd::utf8::valid_utf8(tagb) {
                pre + "CommandComplete: "@ + vstd::utf8::decode_utf8(tagb) + " (query took "@
                    + spec_format_duration(d) + ")"@
            } else {
                pre + "CommandComplete (query took "@ + spec_format_duration(d) + ")"@
            },
            None => match spec_finish(tv.execute, now).1 {
                Some(d) => if vstd::utf8::valid_utf8(tagb) {
                    pre + "CommandComplete: "@ + vstd::utf8::decode_utf8(tagb)
                        + " (execute took "@ + spec_format_duration(d) + ")"@
                } else {
                    pre + "CommandComplete (execute took "@ + spec_format_duration(d) + ")"@
                },
                None => if vstd::utf8::valid_utf8(tagb) {
                    pre + "CommandComplete: "@ + vstd::utf8::decode_utf8(tagb)
                } else {
                    pre + "CommandComplete"@
                },
            },
        };
        (fin.0 + seq![line], tv1, fin.1)
    } else if t == 'E' {
        let fin = crate::table_formatter::spec_table_finish(tbl, addr);
        let lines = seq![pre + "ErrorResponse"@] + (if spec_error_fields(data, 0).len() > 0 {
            seq![spec_detail_prefix(addr) + spec_error_summary(data)]
        } else {
            Seq::<Seq<char>>::empty()
        });
        (fin.0 + lines, tv, fin.1)
    } else if t == 'N' {
        let lines = seq![pre + "NoticeResponse"@] + (if spec_error_fields(data, 0).len() > 0 {
            seq![spec_detail_prefix(addr) + spec_error_summary(data)]
        } else {
            Seq::<Seq<char>>::empty()
        });
        (lines, tv, tbl)
    } else if t == '1' {
        let tv1 = TimingView { parse: None, ..tv };
        let line = match spec_finish(tv.parse, now).1 {
            Some(d) => pre + "ParseComplete (took "@ + spec_format_duration(d) + ")"@,
            None => pre + "ParseComplete"@,
        };
        (seq![line], tv1, tbl)
    } else if t == '2' {
        let tv1 = TimingView { bind: None, ..tv };
        let line = match spec_finish(tv.bind, now).1 {
            Some(d) => pre + "BindComplete (took "@ + spec_format_duration(d) + ")"@,
            None => pre + "BindComplete"@,
        };
        (seq![line], tv1, tbl)
    } else if t == '3' {
        (seq![pre + "CloseComplete"@], tv, tbl)
    } else if t == 'n' {
        (seq![pre + "NoData"@], tv, tbl)
    } else if t == 's' {
        (seq![pre + "PortalSuspended"@], tv, tbl)
    } else if t == 't' {
        if data.len() < 2 {
            (seq![pre + "ParameterDescription"@], tv, tbl)
        } else {
            let oids = spec_param_oids(data, 2, be_u16_of(data) as int);
            let head = seq![
                pre + "ParameterDescription ("@ + spec_dec(be_u16_of(data) as u64)
                    + " parameters)"@,
            ];
            if oids.len() == 0 {
                (head, tv, tbl)
            } else {
                (
                    head + spec_numbered(
                        addr,
                        "Param"@,
                        oids.map_values(|o: u32| spec_param_text(o)),
                    ),
                    tv,
                    tbl,
                )
            }
        }
    } else if t == 'I' {
        let fin = crate::table_formatter::spec_table_finish(tbl, addr);
        (fin.0 + seq![pre + "EmptyQueryResponse"@], tv, fin.1)
    } else if t == 'd' {
        (seq![pre + "CopyData ("@ + nbytes + " bytes)"@], tv, tbl)
    } else if t == 'c' {
        (seq![pre + "CopyDone"@], tv, tbl)
    } else if t == 'G' {
        (seq![pre + "CopyInResponse"@], tv, tbl)
    } else if t == 'H' {
        (seq![pre + "CopyOutResponse"@], tv, tbl)
    } else if t == 'W' {
        (seq![pre + "CopyBothResponse"@], tv, tbl)
    } else {
        (
            seq![pre + "Unknown message type '"@ + seq![t] + "' ("@ + nbytes + " bytes)"@],
            tv,
            tbl,
        )
    }
}

/// Renders one server-to-client message as log lines, finishing the timing
/// mark its kind completes and driving the table formatter.
pub fn parse_server_message(
    msg_type: char,
    data: &[u8],
    client_addr: &str,
    arrow: &str,
    timings: &mut ConnectionTiming,
    now: u64,
    client_state: &mut ClientState,
) -> (lines: Vec<String>)
    requires
        old(client_state).table_state.wf(),
    ensures
        final(client_state).table_state.wf(),
        ({
            let r = spec_server_step(
                msg_type,
                data@,
                client_addr@,
                arrow@,
                old(timings)@,
                now,
                old(client_state).table_state@,
            );
            &&& lines.deep_view() == r.0
            &&& final(timings)@ == r.1
            &&& final(client_state).table_state@ == r.2
        }),
{
    proof {
        reveal(spec_server_step);
    }
    let ghost target = spec_server_step(
        msg_type,
        data@,
        client_addr@,
        arrow@,
        old(timings)@,
        now,
        old(client_state).table_state@,
    );
    let pre = msg_prefix(client_addr, arrow);
    let nbytes = u64_to_dec(data.len() as u64);
    if msg_type == 'R' {
        let mut line = pre;
        if data.len() >= 4 {
            let code = crate::frame::read_be_u32(data, 0);
            line.append("Authentication: ");
            line.append(auth_name(code));
        } else {
            line.append("Authentication");
        }
        proof {
            assert(line@ =~= target.0[0]);
        }
        vec1(line)
    } else if msg_type == 'K' {
        let mut line = pre;
        line.append("BackendKeyData");
        proof {
            assert(line@ =~= target.0[0]);
        }
        vec1(line)
    } else if msg_type == 'Z' {
        let mut line = pre;
        line.append("ReadyForQuery (");
        if data.len() > 0 {
            let b = data[0];
            if b == 73 {
                line.append("idle");
            } else if b == 84 {
                line.append("in transaction");
            } else if b == 69 {
                line.append("error in transaction");
            } else {
                line.append("unknown");
            }
        } else {
            line.append("unknown");
        }
        line.append(")");
        proof {
            assert(line@ =~= target.0[0]);
        }
        vec1(line)
    } else if msg_type == 'S' {
        match parse_cstring_pair(data) {
            Some((name, value)) => {
                let mut line = pre;
                line.append("ParameterStatus: ");
                line.append(name.as_str());
                line.append(" = ");
                line.append(value.as_str());
                proof {
                    assert(line@ =~= target.0[0]);
                }
                vec1(line)
            },
            None => {
                let mut line = pre;
                line.append("ParameterStatus");
                proof {
                    assert(line@ =~= target.0[0]);
                }
                vec1(line)
            },
        }
    } else if msg_type == 'T' {
        if data.len() < 2 {
            let mut line = pre;
            line.append("RowDescription");
            proof {
                assert(line@ =~= target.0[0]);
            }
            return vec1(line);
        }
        let count = crate::frame::read_be_u16(data, 0);
        let mut line = pre;
        line.append("RowDescription (");
        let cdec = u64_to_dec(count as u64);
        line.append(cdec.as_str());
        line.append(" fields)");
        proof {
            assert(line@ =~= target.0[0]);
        }
        let mut out = vec1(line);
        match parse_row_description(data) {
            Some(fields) => {
                let ghost sfields = spec_rd_fields(data@, 2, count as int);
                let n = fields.len();
                let mut descs: Vec<String> = Vec::new();
                let mut infos: Vec<crate::table_formatter::FieldInfo> = Vec::new();
                let mut i: usize = 0;
                while i < n
                    invariant
                        n == fields@.len(),
                        n == sfields.len(),
                        i <= n,
                        forall|k: int|
                            0 <= k < n ==> {
                                &&& (#[trigger] fields@[k]).field_info.name@ == lossy_of(
                                    sfields[k].name,
                                )
                                &&& fields@[k].field_info.data_type@ == spec_pg_type(
                                    sfields[k].type_oid,
                                )
                                &&& fields@[k].description@ == spec_rd_desc(sfields[k])
                            },
                        descs.deep_view() =~~= sfields.map_values(
                            |f: SpecField| spec_rd_desc(f),
                        ).subrange(0, i as int),
                        infos@.len() == i,
                        forall|k: int|
                            0 <= k < i ==> (#[trigger] infos@[k]).name@ == lossy_of(
                                sfields[k].name,
                            ),
                    decreases n - i,
                {
                    let d = fields[i].description.clone();
                    proof {
                        crate::strutil::lemma_deep_view_is_seq_deep(&descs);
                    }
                    let ghost pv = descs@;
                    descs.push(d);
                    proof {
                        crate::strutil::lemma_seq_deep_push(pv, d);
                        crate::strutil::lemma_deep_view_is_seq_deep(&descs);
                        assert(descs.deep_view() =~~= sfields.map_values(
                            |f: SpecField| spec_rd_desc(f),
                        ).subrange(0, (i + 1) as int));
                    }
                    let nm = fields[i].field_info.name.clone();
                    let ty = fields[i].field_info.data_type.clone();
                    infos.push(crate::table_formatter::FieldInfo { name: nm, data_type: ty });
                    i = i + 1;
                }
                proof {
                    assert(descs.deep_view() =~~= sfields.map_values(
                        |f: SpecField| spec_rd_desc(f),
                    ));
                }
                push_numbered(&mut out, client_addr, "Field", &descs);
                client_state.table_state.set_row_description(infos);
                proof {
                    assert(crate::table_formatter::spec_fi_names(infos@) =~~= sfields.map_values(
                        |f: SpecField| lossy_of(f.name),
                    ));
                    assert(out.deep_view() =~~= target.0);
                    assert(client_state.table_state@ == target.2);
                }
                out
            },
            None => {
                proof {
                    assert(out.deep_view() =~~= target.0);
                }
                out
            },
        }
    } else if msg_type == 'D' {
        if data.len() < 2 {
            let mut line = pre;
            line.append("DataRow (");
            line.append(nbytes.as_str());
            line.append(" bytes)");
            proof {
                assert(line@ =~= target.0[0]);
            }
            return vec1(line);
        }
        let count = crate::frame::read_be_u16(data, 0);
        match parse_data_row(data) {
            Some(values) => {
                if client_state.table_state.is_table_mode() {
                    let lines = client_state.table_state.print_data_row(&values, client_addr);
                    proof {
                        assert(lines.deep_view() =~~= target.0);
                    }
                    lines
                } else {
                    let mut line = pre;
                    line.append("DataRow (");
                    let cdec = u64_to_dec(count as u64);
                    line.append(cdec.as_str());
                    line.append(" fields, ");
                    line.append(nbytes.as_str());
                    line.append(" bytes)");
                    proof {
                        assert(line@ =~= target.0[0]);
                    }
                    let mut out = vec1(line);
                    push_numbered(&mut out, client_addr, "Value", &values);
                    proof {
                        assert(out.deep_view() =~~= target.0);
                    }
                    out
                }
            },
            None => {
                let out: Vec<String> = Vec::new();
                proof {
                    crate::strutil::lemma_deep_view_is_seq_deep(&out);
                    assert(out.deep_view() =~~= target.0);
                }
                out
            },
        }
    } else if msg_type == 'C' {
        let mut out = client_state.table_state.finish_result_set(client_addr);
        let tagb = if data.len() > 0 {
            vstd::slice::slice_subrange(data, 0, data.len() - 1)
        } else {
            vstd::slice::slice_subrange(data, 0, 0)
        };
        proof {
            assert(tagb@ =~= spec_drop_last(data@));
        }
        let tag = crate::strutil::utf8_string(tagb);
        let mut line = pre;
        match timings.finish_simple_query(now) {
            Some(d) => {
                match tag {
                    Some(tg) => {
                        line.append("CommandComplete: ");
                        line.append(tg.as_str());
                        line.append(" (query took ");
                        let dur = format_duration(d);
                        line.append(dur.as_str());
                        line.append(")");
                    },
                    None => {
                        line.append("CommandComplete (query took ");
                        let dur = format_duration(d);
                        line.append(dur.as_str());
                        line.append(")");
                    },
                }
            },
            None => {
                match timings.finish_execute(now) {
                    Some(d) => {
                        match tag {
                            Some(tg) => {
                                line.append("CommandComplete: ");
                                line.append(tg.as_str());
                                line.append(" (execute took ");
                                let dur = format_duration(d);
                                line.append(dur.as_str());
                                line.append(")");
                            },
                            None => {
                                line.append("CommandComplete (execute took ");
                                let dur = format_duration(d);
                                line.append(dur.as_str());
                                line.append(")");
                            },
                        }
                    },
                    None => {
                        match tag {
                            Some(tg) => {
                                line.append("CommandComplete: ");
                                line.append(tg.as_str());
                            },
                            None => {
                                line.append("CommandComplete");
                            },
                        }
                    },
                }
            },
        }
        proof {
            if old(timings)@.simple_query is None {
                assert(timings@ == target.1);
            } else {
                assert(timings@ == target.1);
            }
        }
        push_line(&mut out, line);
        proof {
            assert(out.deep_view() =~~= target.0);
        }
        out
    } else if msg_type == 'E' {
        let mut out = client_state.table_state.finish_result_set(client_addr);
        let mut line = pre;
        line.append("ErrorResponse");
        push_line(&mut out, line);
        match parse_error_response(data) {
            Some(msg) => {
                let mut d = detail_prefix(client_addr);
                d.append(msg.as_str());
                push_line(&mut out, d);
                proof {
                    assert(out.deep_view() =~~= target.0);
                }
            },
            None => {
                proof {
                    assert(out.deep_view() =~~= target.0);
                }
            },
        }
        out
    } else if msg_type == 'N' {
        let mut line = pre;
        line.append("NoticeResponse");
        let mut out = vec1(line);
        match parse_error_response(data) {
            Some(msg) => {
                let mut d = detail_prefix(client_addr);
                d.append(msg.as_str());
                push_line(&mut out, d);
                proof {
                    assert(out.deep_view() =~~= target.0);
                }
            },
            None => {
                proof {
                    assert(out.deep_view() =~~= target.0);
                }
            },
        }
        out
    } else if msg_type == '1' {
        let mut line = pre;
        match timings.finish_parse(now) {
            Some(d) => {
                line.append("ParseComplete (took ");
                let dur = format_duration(d);
                line.append(dur.as_str());
                line.append(")");
            },
            None => {
                line.append("ParseComplete");
            },
        }
        proof {
            assert(line@ =~= target.0[0]);
        }
        vec1(line)
    } else if msg_type == '2' {
        let mut line = pre;
        match timings.finish_bind(now) {
            Some(d) => {
                line.append("BindComplete (took ");
                let dur = format_duration(d);
                line.append(dur.as_str());
                line.append(")");
            },
            None => {
                line.append("BindComplete");
            },
        }
        proof {
            assert(line@ =~= target.0[0]);
        }
        vec1(line)
    } else if msg_type == '3' {
        let mut line = pre;
        line.append("CloseComplete");
        proof {
            assert(line@ =~= target.0[0]);
        }
        vec1(line)
    } else if msg_type == 'n' {
        let mut line = pre;
        line.append("NoData");
        proof {
            assert(line@ =~= target.0[0]);
        }
        vec1(line)
    } else if msg_type == 's' {
        let mut line = pre;
        line.append("PortalSuspended");
        proof {
            assert(line@ =~= target.0[0]);
        }
        vec1(line)
    } else if msg_type == 't' {
        if data.len() < 2 {
            let mut line = pre;
            line.append("ParameterDescription");
            proof {
                assert(line@ =~= target.0[0]);
            }
            return vec1(line);
        }
        let count = crate::frame::read_be_u16(data, 0);
        let mut line = pre;
        line.append("ParameterDescription (");
        let cdec = u64_to_dec(count as u64);
        line.append(cdec.as_str());
        line.append(" parameters)");
        proof {
            assert(line@ =~= target.0[0]);
        }
        let mut out = vec1(line);
        match parse_parameter_description(data) {
            Some(params) => {
                push_numbered(&mut out, client_addr, "Param", &params);
                proof {
                    assert(out.deep_view() =~~= target.0);
                }
            },
            None => {
                proof {
                    assert(out.deep_view() =~~= target.0);
                }
            },
        }
        out
    } else if msg_type == 'I' {
        let mut out = client_state.table_state.finish_result_set(client_addr);
        let mut line = pre;
        line.append("EmptyQueryResponse");
        push_line(&mut out, line);
        proof {
            assert(out.deep_view() =~~= target.0);
        }
        out
    } else if msg_type == 'd' {
        let mut line = pre;
        line.append("CopyData (");
        line.append(nbytes.as_str());
        line.append(" bytes)");
        proof {
            assert(line@ =~= target.0[0]);
        }
        vec1(line)
    } else if msg_type == 'c' {
        let mut line = pre;
        line.append("CopyDone");
        proof {
            assert(line@ =~= target.0[0]);
        }
        vec1(line)
    } else if msg_type == 'G' {
        let mut line = pre;
        line.append("CopyInResponse");
        proof {
            assert(line@ =~= target.0[0]);
        }
        vec1(line)
    } else if msg_type == 'H' {
        let mut line = pre;
        line.append("CopyOutResponse");
        proof {
            assert(line@ =~= target.0[0]);
        }
        vec1(line)
    } else if msg_type == 'W' {
        let mut line = pre;
        line.append("CopyBothResponse");
        proof {
            assert(line@ =~= target.0[0]);
        }
        vec1(line)
    } else {
        let mut line = pre;
        line.append("Unknown message type '");
        push_char(&mut line, msg_type);
        line.append("' (");
        line.append(nbytes.as_str());
        line.append(" bytes)");
        proof {
            assert(line@ =~= target.0[0]);
        }
        vec1(line)
    }
}

/// The direction arrow of a log line.
pub open spec fn spec_arrow(direction: MessageDirection) -> Seq<char> {
    match direction {
        MessageDirection::ClientToServer => "→"@,
        MessageDirection::ServerToClient => "←"@,
    }
}

/// Appends every line of `src` to `dst`.
pub(crate) fn extend_lines(dst: &mut Vec<String>, src: &Vec<String>)
    ensures
        final(dst).deep_view() =~~= old(dst).deep_view() + src.deep_view(),
{
    let n = src.len();
    let mut i: usize = 0;
    while i < n
        invariant
            n == src@.len(),
            i <= n,
            dst.deep_view() =~~= old(dst).deep_view() + src.deep_view().subrange(0, i as int),
        decreases n - i,
    {
        let s = src[i].clone();
        push_line(dst, s);
        proof {
            assert(dst.deep_view() =~~= old(dst).deep_view() + src.deep_view().subrange(
                0,
                (i + 1) as int,
            ));
        }
        i = i + 1;
    }
    proof {
        assert(src.deep_view().subrange(0, n as int) =~~= src.deep_view());
    }
}

/// What one frame contributes: its log lines and the states after, by
/// direction.
pub open spec fn spec_frame_step(
    f: crate::frame::SpecFrame,
    addr: Seq<char>,
    direction: MessageDirection,
    tv: TimingView,
    tbl: crate::table_formatter::TableView,
    now: u64,
) -> (Seq<Seq<char>>, TimingView, crate::table_formatter::TableView) {
    let arrow = spec_arrow(direction);
    match direction {
        MessageDirection::ClientToServer => (
            spec_client_lines(f.kind as char, f.body, addr, arrow),
            spec_client_timing(f.kind as char, tv, now),
            tbl,
        ),
        MessageDirection::ServerToClient => spec_server_step(
            f.kind as char,
            f.body,
            addr,
            arrow,
            tv,
            now,
            tbl,
        ),
    }
}

/// The log lines of a run of frames, with the hex dump of each frame's raw
/// bytes where enabled, and the timing and table states after.
pub open spec fn spec_process_frames(
    frames: Seq<crate::frame::SpecFrame>,
    addr: Seq<char>,
    direction: MessageDirection,
    tv: TimingView,
    tbl: crate::table_formatter::TableView,
    hex_dump: bool,
    now: u64,
) -> (Seq<Seq<char>>, TimingView, crate::table_formatter::TableView)
    decreases frames.len(),
{
    if frames.len() == 0 {
        (Seq::empty(), tv, tbl)
    } else {
        let step = spec_frame_step(frames[0], addr, direction, tv, tbl, now);
        let hex = if hex_dump {
            spec_hex_dump_lines(crate::frame::frame_bytes(frames[0]), addr)
        } else {
            Seq::<Seq<char>>::empty()
        };
        let rec = spec_process_frames(frames.skip(1), addr, direction, step.1, step.2, hex_dump, now);
        (step.0 + hex + rec.0, rec.1, rec.2)
    }
}

/// The note after the last complete frame: a malformed length field, a
/// trailing partial frame of fewer than five bytes, or nothing.
pub open spec fn spec_tail_lines(rest: Seq<u8>, addr: Seq<char>, arrow: Seq<char>) -> Seq<
    Seq<char>,
> {
    if rest.len() >= 5 && crate::frame::head_len(rest) < 4 {
        seq![
            spec_msg_prefix(addr, arrow) + "Malformed frame (declared length "@ + spec_dec(
                crate::frame::head_len(rest) as u64,
            ) + ")"@,
        ]
    } else if 0 < rest.len() < 5 {
        seq![
            spec_msg_prefix(addr, arrow) + "Partial message ("@ + spec_dec(rest.len() as u64)
                + " bytes)"@,
        ]
    } else {
        Seq::<Seq<char>>::empty()
    }
}

/// Splits a chunk into its complete frames and renders each one as log
/// lines, updating the timing and table state per message; a trailing
/// incomplete or malformed frame is noted and left unconsumed.
#[verifier::rlimit(100)]
#[verifier::spinoff_prover]
pub fn parse_message(
    data: &[u8],
    direction: MessageDirection,
    client_addr: &str,
    timings: &mut ConnectionTiming,
    client_state: &mut ClientState,
    hex_dump: bool,
    now: u64,
) -> (lines: Vec<String>)
    requires
        old(client_state).table_state.wf(),
    ensures
        final(client_state).table_state.wf(),
        ({
            let fr = crate::frame::take_frames(data@);
            let p = spec_process_frames(
                fr.0,
                client_addr@,
                direction,
                old(timings)@,
                old(client_state).table_state@,
                hex_dump,
                now,
            );
            &&& lines.deep_view() == p.0 + spec_tail_lines(
                fr.1,
                client_addr@,
                spec_arrow(direction),
            )
            &&& final(timings)@ == p.1
            &&& final(client_state).table_state@ == p.2
        }),
{
    let arrow: &str = match direction {
        MessageDirection::ClientToServer => "→",
        MessageDirection::ServerToClient => "←",
    };
    proof {
        assert(arrow@ == spec_arrow(direction));
    }
    let n = data.len();
    let ghost fr = crate::frame::take_frames(data@);
    let ghost p = spec_process_frames(
        fr.0,
        client_addr@,
        direction,
        old(timings)@,
        old(client_state).table_state@,
        hex_dump,
        now,
    );
    let mut lines: Vec<String> = Vec::new();
    let mut off: usize = 0;
    proof {
        assert(data@.skip(0) =~= data@);
        crate::strutil::lemma_deep_view_is_seq_deep(&lines);
    }
    while n - off >= 5
        invariant
            n == data@.len(),
            off <= n,
            client_state.table_state.wf(),
            fr == crate::frame::take_frames(data@),
            p == spec_process_frames(
                fr.0,
                client_addr@,
                direction,
                old(timings)@,
                old(client_state).table_state@,
                hex_dump,
                now,
            ),
            arrow@ == spec_arrow(direction),
            fr.1 == crate::frame::take_frames(data@.skip(off as int)).1,
            p.0 =~~= lines.deep_view() + spec_process_frames(
                crate::frame::take_frames(data@.skip(off as int)).0,
                client_addr@,
                direction,
                timings@,
                client_state.table_state@,
                hex_dump,
                now,
            ).0,
            p.1 == spec_process_frames(
                crate::frame::take_frames(data@.skip(off as int)).0,
                client_addr@,
                direction,
                timings@,
                client_state.table_state@,
                hex_dump,
                now,
            ).1,
            p.2 == spec_process_frames(
                crate::frame::take_frames(data@.skip(off as int)).0,
                client_addr@,
                direction,
                timings@,
                client_state.table_state@,
                hex_dump,
                now,
            ).2,
        ensures
            crate::frame::take_frames(data@.skip(off as int)).0 =~= Seq::<
                crate::frame::SpecFrame,
            >::empty(),
            crate::frame::take_frames(data@.skip(off as int)).1 =~= data@.skip(off as int),
        decreases n - off,
    {
        let ghost rem = data@.skip(off as int);
        proof {
            assert(rem.len() == n - off >= 5);
            assert forall|j: int| 0 <= j < rem.len() implies rem[j] == data@[off + j] by {}
        }
        let length_u32 = crate::frame::read_be_u32(data, off + 1);
        let length = length_u32 as usize;
        proof {
            assert(crate::frame::head_len(rem) == length);
        }
        if length < 4 {
            proof {
                assert(crate::frame::take_frames(rem).0 =~= Seq::<crate::frame::SpecFrame>::empty());
                assert(crate::frame::take_frames(rem).1 =~= rem);
            }
            break ;
        }
        if length > n - off - 1 {
            proof {
                assert(rem.len() < crate::frame::head_len(rem) + 1);
                assert(crate::frame::take_frames(rem).0 =~= Seq::<crate::frame::SpecFrame>::empty());
                assert(crate::frame::take_frames(rem).1 =~= rem);
            }
            break ;
        }
        let kind = data[off];
        let body = vstd::slice::slice_subrange(data, off + 5, off + 1 + length);
        let ghost f = crate::frame::SpecFrame { kind: rem[0], body: rem.subrange(5, length + 1) };
        proof {
            assert(body@ =~= f.body);
            assert(crate::frame::take_frames(rem).0 == seq![f] + crate::frame::take_frames(
                rem.skip(length + 1),
            ).0);
            assert(crate::frame::take_frames(rem).1 == crate::frame::take_frames(
                rem.skip(length + 1),
            ).1);
        }
        let ghost tv_before = timings@;
        let ghost tbl_before = client_state.table_state@;
        let frame_lines = match direction {
            MessageDirection::ClientToServer => parse_client_message(
                kind as char,
                body,
                client_addr,
                arrow,
                timings,
                now,
            ),
            MessageDirection::ServerToClient => parse_server_message(
                kind as char,
                body,
                client_addr,
                arrow,
                timings,
                now,
                client_state,
            ),
        };
        let ghost step = spec_frame_step(f, client_addr@, direction, tv_before, tbl_before, now);
        proof {
            assert(frame_lines.deep_view() == step.0);
            assert(timings@ == step.1);
            assert(client_state.table_state@ == step.2);
        }
        let ghost lines_before = lines.deep_view();
        let ghost hex_ghost = if hex_dump {
            spec_hex_dump_lines(crate::frame::frame_bytes(f), client_addr@)
        } else {
            Seq::<Seq<char>>::empty()
        };
        extend_lines(&mut lines, &frame_lines);
        if hex_dump {
            let full_frame = vstd::slice::slice_subrange(data, off, off + 1 + length);
            proof {
                crate::frame::lemma_be_bytes_u32_roundtrip(rem[1], rem[2], rem[3], rem[4]);
                assert(full_frame@ =~= crate::frame::frame_bytes(f));
            }
            let hex_lines = log_hex_dump(full_frame, client_addr);
            extend_lines(&mut lines, &hex_lines);
        }
        proof {
            assert(lines.deep_view() =~~= lines_before + (step.0 + hex_ghost));
            assert(rem.skip(length + 1) =~= data@.skip(off + length + 1));
            let rem_frames = crate::frame::take_frames(rem).0;
            let next_frames = crate::frame::take_frames(data@.skip(off + length + 1)).0;
            assert(rem_frames[0] == f);
            assert(rem_frames.skip(1) =~= next_frames);
            let q = spec_process_frames(
                rem_frames,
                client_addr@,
                direction,
                tv_before,
                tbl_before,
                hex_dump,
                now,
            );
            let next = spec_process_frames(
                next_frames,
                client_addr@,
                direction,
                step.1,
                step.2,
                hex_dump,
                now,
            );
            assert(q.0 == step.0 + hex_ghost + next.0 && q.1 == next.1 && q.2 == next.2);
            assert(p.0 =~~= lines_before + q.0);
            assert(lines_before + (step.0 + hex_ghost + next.0) =~~= (lines_before + (step.0
                + hex_ghost)) + next.0);
            assert(p.0 =~~= lines.deep_view() + next.0);
        }
        off = off + 1 + length;
    }
    proof {
        if n - off < 5 {
            assert(data@.skip(off as int).len() < 5);
        }
        assert(fr.1 =~= data@.skip(off as int));
        assert(p.0 =~~= lines.deep_view());
        assert(p.1 == timings@);
        assert(p.2 == client_state.table_state@);
    }
    if n - off >= 5 {
        let length_u32 = crate::frame::read_be_u32(data, off + 1);
        proof {
            assert forall|j: int| 0 <= j < data@.skip(off as int).len() implies data@.skip(
                off as int,
            )[j] == data@[off + j] by {}
            assert(crate::frame::head_len(data@.skip(off as int)) == length_u32);
        }
        if length_u32 < 4 {
            let mut line = msg_prefix(client_addr, arrow);
            line.append("Malformed frame (declared length ");
            let dec = u64_to_dec(length_u32 as u64);
            line.append(dec.as_str());
            line.append(")");
            proof {
                assert(line@ =~= spec_tail_lines(fr.1, client_addr@, spec_arrow(direction))[0]);
            }
            push_line(&mut lines, line);
            proof {
                assert(lines.deep_view() =~~= p.0 + spec_tail_lines(
                    fr.1,
                    client_addr@,
                    spec_arrow(direction),
                ));
            }
        } else {
            proof {
                assert(spec_tail_lines(fr.1, client_addr@, spec_arrow(direction)) =~~= Seq::<
                    Seq<char>,
                >::empty());
                assert(lines.deep_view() =~~= p.0 + spec_tail_lines(
                    fr.1,
                    client_addr@,
                    spec_arrow(direction),
                ));
            }
        }
    } else if n - off > 0 {
        let mut line = msg_prefix(client_addr, arrow);
        line.append("Partial message (");
        let dec = u64_to_dec((n - off) as u64);
        line.append(dec.as_str());
        line.append(" bytes)");
        proof {
            assert(line@ =~= spec_tail_lines(fr.1, client_addr@, spec_arrow(direction))[0]);
        }
        push_line(&mut lines, line);
        proof {
            assert(lines.deep_view() =~~= p.0 + spec_tail_lines(
                fr.1,
                client_addr@,
                spec_arrow(direction),
            ));
        }
    } else {
        proof {
            assert(lines.deep_view() =~~= p.0 + spec_tail_lines(
                fr.1,
                client_addr@,
                spec_arrow(direction),
            ));
        }
    }
    lines
}

} // verus!
