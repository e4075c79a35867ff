//! Log-line shaping: the three output formats, the coloring rule for
//! client, server and hex-dump lines, and the timestamp source.

use vstd::prelude::*;
use owo_colors::{AnsiColors, OwoColorize};

verus! {

/// The shape of an emitted log line: timestamp, level and target; timestamp
/// only; or the bare message.
#[derive(Copy, Clone, Debug, Eq, PartialEq, Structural)]
pub enum LogFormat {
    Full,
    Short,
    Bare,
}

impl Default for LogFormat {
    /// The default format carries timestamp, level and target.
    fn default() -> (r: Self)
        ensures
            r == LogFormat::Full,
    {
        LogFormat::Full
    }
}

/// The severity of a log line.
#[derive(Copy, Clone, Debug, Eq, PartialEq, Structural)]
pub enum LogLevel {
    Trace,
    Debug,
    Info,
    Warn,
    Error,
}

/// The level name right-aligned to five characters, as the full format
/// prints it.
pub open spec fn spec_level_label(level: LogLevel) -> Seq<char> {
    match level {
        LogLevel::Trace => "TRACE"@,
        LogLevel::Debug => "DEBUG"@,
        LogLevel::Info => " INFO"@,
        LogLevel::Warn => " WARN"@,
        LogLevel::Error => "ERROR"@,
    }
}

/// The level name, right-aligned to five characters.
pub fn level_label(level: LogLevel) -> (r: &'static str)
    ensures
        r@ == spec_level_label(level),
{
    match level {
        LogLevel::Trace => "TRACE",
        LogLevel::Debug => "DEBUG",
        LogLevel::Info => " INFO",
        LogLevel::Warn => " WARN",
        LogLevel::Error => "ERROR",
    }
}

/// One log line in the given format: tab-separated timestamp, padded level
/// and target before the message in full; timestamp and message in short;
/// the message alone in bare.
pub open spec fn spec_log_line(
    log_format: LogFormat,
    ts: Seq<char>,
    level: LogLevel,
    target: Seq<char>,
    message: Seq<char>,
) -> Seq<char> {
    match log_format {
        LogFormat::Full => ts + "\t"@ + spec_level_label(level) + "\t"@ + target + "\t"@ + message,
        LogFormat::Short => ts + "\t"@ + message,
        LogFormat::Bare => message,
    }
}

/// Shapes one log line.  A missing timestamp is filled from the clock in
/// the full and short formats.
pub fn format_log_line(
    log_format: LogFormat,
    timestamp: Option<String>,
    level: LogLevel,
    target: &str,
    message: &str,
) -> (r: String)
    ensures
        timestamp matches Some(ts) ==> r@ == spec_log_line(
            log_format,
            ts@,
            level,
            target@,
            message@,
        ),
        timestamp is None ==> exists|ts: Seq<char>|
            r@ == spec_log_line(log_format, ts, level, target@, message@),
        log_format is Bare ==> r@ == message@,
{
    match log_format {
        LogFormat::Full => {
            let ts = match timestamp {
                Some(t) => t,
                None => current_timestamp(),
            };
            let ghost tsv = ts@;
            let mut s = ts;
            s.append("\t");
            s.append(level_label(level));
            s.append("\t");
            s.append(target);
            s.append("\t");
            s.append(message);
            proof {
                assert(s@ == spec_log_line(log_format, tsv, level, target@, message@));
            }
            s
        },
        LogFormat::Short => {
            let ts = match timestamp {
                Some(t) => t,
                None => current_timestamp(),
            };
            let ghost tsv = ts@;
            let mut s = ts;
            s.append("\t");
            s.append(message);
            proof {
                assert(s@ == spec_log_line(log_format, tsv, level, target@, message@));
            }
            s
        },
        LogFormat::Bare => {
            let mut s = String::new();
            s.append(message);
            proof {
                assert(s@ =~= message@);
                assert(s@ == spec_log_line(log_format, Seq::<char>::empty(), level, target@, message@));
            }
            s
        },
    }
}

/// Relies on time's OffsetDateTime::now_utc and RFC 3339 formatting: the
/// result is the current UTC time as text and depends on the clock, so
/// nothing is promised of it.
#[verifier::external_body]
fn current_timestamp() -> String {
    time::OffsetDateTime::now_utc().format(
        &time::format_description::well_known::Rfc3339,
    ).unwrap_or_else(|_| "1970-01-01T00:00:00Z".to_string())
}

/// The position of the first occurrence of `needle` at or after `i`, where
/// one exists.
pub open spec fn spec_find(hay: Seq<char>, needle: Seq<char>, i: int) -> Option<int>
    decreases hay.len() - i + 1,
{
    if i < 0 || i + needle.len() > hay.len() {
        None
    } else if hay.subrange(i, i + needle.len()) == needle {
        Some(i)
    } else {
        spec_find(hay, needle, i + 1)
    }
}

/// Whether `needle` occurs in `hay`.
pub open spec fn spec_contains(hay: Seq<char>, needle: Seq<char>) -> bool {
    spec_find(hay, needle, 0) is Some
}

/// Whether `needle` occurs at position `i` of `hay`.
fn matches_at(hay: &str, hn: usize, needle: &str, nn: usize, i: usize) -> (r: bool)
    requires
        hn == hay@.len(),
        nn == needle@.len(),
        i + nn <= hn,
    ensures
        r == (hay@.subrange(i as int, i + nn) == needle@),
{
    let mut j: usize = 0;
    while j < nn
        invariant
            hn == hay@.len(),
            nn == needle@.len(),
            i + nn <= hn,
            j <= nn,
            forall|k: int| 0 <= k < j ==> hay@[i + k] == needle@[k],
        decreases nn - j,
    {
        if hay.get_char(i + j) != needle.get_char(j) {
            proof {
                assert(hay@.subrange(i as int, i + nn)[j as int] != needle@[j as int]);
            }
            return false;
        }
        j = j + 1;
    }
    proof {
        assert(hay@.subrange(i as int, i + nn) =~= needle@);
    }
    true
}

/// Finds the first occurrence of `needle` in `hay`.
pub fn find_str(hay: &str, needle: &str) -> (r: Option<usize>)
    ensures
        match spec_find(hay@, needle@, 0) {
            Some(i) => r matches Some(j) && j == i,
            None => r is None,
        },
{
    let hn = hay.unicode_len();
    let nn = needle.unicode_len();
    if nn > hn {
        return None;
    }
    if nn == 0 {
        proof {
            assert(hay@.subrange(0, 0) =~= needle@);
        }
        return Some(0);
    }
    let mut i: usize = 0;
    while i <= hn - nn
        invariant
            hn == hay@.len(),
            nn == needle@.len(),
            0 < nn <= hn,
            i <= hn - nn + 1,
            spec_find(hay@, needle@, 0) == spec_find(hay@, needle@, i as int),
        decreases hn - nn - i + 1,
    {
        if matches_at(hay, hn, needle, nn, i) {
            return Some(i);
        }
        proof {
            assert(spec_find(hay@, needle@, i as int) == spec_find(hay@, needle@, i + 1 as int));
        }
        i = i + 1;
    }
    None
}

/// Whether `needle` occurs in `hay`.
pub fn contains_str(hay: &str, needle: &str) -> (r: bool)
    ensures
        r == spec_contains(hay@, needle@),
{
    match find_str(hay, needle) {
        Some(_) => true,
        None => false,
    }
}

/// Whether `c` is an ASCII hexadecimal digit.
pub open spec fn spec_is_hexdigit(c: char) -> bool {
    ('0' <= c && c <= '9') || ('a' <= c && c <= 'f') || ('A' <= c && c <= 'F')
}

/// Whether a line is a hex-dump continuation line: after the first
/// `"]   "`, four hex digits and a colon.
pub open spec fn spec_is_hex_dump_line(line: Seq<char>) -> bool {
    match spec_find(line, "]   "@, 0) {
        None => false,
        Some(i) => {
            let rest = line.skip(i + 4);
            &&& rest.len() >= 5
            &&& spec_is_hexdigit(rest[0])
            &&& spec_is_hexdigit(rest[1])
            &&& spec_is_hexdigit(rest[2])
            &&& spec_is_hexdigit(rest[3])
            &&& rest[4] == ':'
        },
    }
}

fn is_hexdigit(c: char) -> (r: bool)
    ensures
        r == spec_is_hexdigit(c),
{
    ('0' <= c && c <= '9') || ('a' <= c && c <= 'f') || ('A' <= c && c <= 'F')
}

/// Recognises a hex-dump continuation line: after the address tag's
/// `"]   "`, a four-digit hex offset and a colon.
pub fn is_hex_dump_line(line: &str) -> (r: bool)
    ensures
        r == spec_is_hex_dump_line(line@),
{
    let n = line.unicode_len();
    match find_str(line, "]   ") {
        None => false,
        Some(i) => {
            proof {
                reveal_strlit("]   ");
                lemma_find_bounds(line@, "]   "@, 0);
            }
            if n - (i + 4) < 5 {
                return false;
            }
            let r0 = line.get_char(i + 4);
            let r1 = line.get_char(i + 5);
            let r2 = line.get_char(i + 6);
            let r3 = line.get_char(i + 7);
            let r4 = line.get_char(i + 8);
            is_hexdigit(r0) && is_hexdigit(r1) && is_hexdigit(r2) && is_hexdigit(r3) && r4 == ':'
        },
    }
}

/// A found occurrence lies within the haystack.
proof fn lemma_find_bounds(hay: Seq<char>, needle: Seq<char>, i: int)
    requires
        i >= 0,
    ensures
        spec_find(hay, needle, i) matches Some(j) ==> i <= j && j + needle.len() <= hay.len(),
    decreases hay.len() - i + 1,
{
    if !(i < 0 || i + needle.len() > hay.len()) {
        if hay.subrange(i, i + needle.len()) == needle {
        } else {
            lemma_find_bounds(hay, needle, i + 1);
        }
    }
}

/// The escape that paints a line green, and the reset after it.
pub open spec fn spec_green(line: Seq<char>) -> Seq<char> {
    "\u{1b}[32m"@ + line + "\u{1b}[39m"@
}

/// The escape that paints a line cyan, and the reset after it.
pub open spec fn spec_cyan(line: Seq<char>) -> Seq<char> {
    "\u{1b}[36m"@ + line + "\u{1b}[39m"@
}

/// The escape that paints a line bright black, and the reset after it.
pub open spec fn spec_bright_black(line: Seq<char>) -> Seq<char> {
    "\u{1b}[90m"@ + line + "\u{1b}[39m"@
}

/// Relies on owo_colors' OwoColorize::color with AnsiColors::Green: the
/// rendered text is the green foreground escape, the text, and the
/// default-foreground reset.
#[verifier::external_body]
fn paint_green(line: &str) -> (r: String)
    ensures
        r@ == spec_green(line@),
{
    line.color(AnsiColors::Green).to_string()
}

/// Relies on owo_colors' OwoColorize::color with AnsiColors::Cyan: the
/// rendered text is the cyan foreground escape, the text, and the
/// default-foreground reset.
#[verifier::external_body]
fn paint_cyan(line: &str) -> (r: String)
    ensures
        r@ == spec_cyan(line@),
{
    line.color(AnsiColors::Cyan).to_string()
}

/// Relies on owo_colors' OwoColorize::color with AnsiColors::BrightBlack:
/// the rendered text is the bright-black foreground escape, the text, and
/// the default-foreground reset.
#[verifier::external_body]
fn paint_bright_black(line: &str) -> (r: String)
    ensures
        r@ == spec_bright_black(line@),
{
    line.color(AnsiColors::BrightBlack).to_string()
}

/// Which color a line gets: bright black for hex-dump continuations, green
/// for client-to-server lines, cyan for server-to-client lines, none
/// otherwise.
pub open spec fn spec_colorize(line: Seq<char>) -> Option<Seq<char>> {
    if spec_is_hex_dump_line(line) {
        Some(spec_bright_black(line))
    } else if spec_contains(line, "] \u{2192}"@) {
        Some(spec_green(line))
    } else if spec_contains(line, "] \u{2190}"@) {
        Some(spec_cyan(line))
    } else {
        None
    }
}

/// Colors a line by its kind: hex-dump continuations bright black, client
/// lines green, server lines cyan; other lines are left alone.
pub fn colorize_if_needed(line: &str) -> (r: Option<String>)
    ensures
        match spec_colorize(line@) {
            Some(t) => r matches Some(s) && s@ == t,
            None => r is None,
        },
{
    if is_hex_dump_line(line) {
        return Some(paint_bright_black(line));
    }
    if contains_str(line, "] \u{2192}") {
        return Some(paint_green(line));
    }
    if contains_str(line, "] \u{2190}") {
        return Some(paint_cyan(line));
    }
    None
}

} // verus!
