//! Logging in the format `runc` itself uses.
use crate::text;
use crate::util::log::Level;
use std::time::{Duration, UNIX_EPOCH};
use vstd::prelude::*;

verus! {

/// One log record, with the field names logrus uses.
#[derive(Debug)]
pub struct Message {
    pub level: &'static str,
    pub msg: String,
    pub time: String,
}

/// The name by which logrus knows a level.
pub open spec fn level_name(level: Level) -> Seq<char> {
    match level {
        Level::Error => "error"@,
        Level::Warn => "warning"@,
        Level::Info => "info"@,
        Level::Debug => "debug"@,
        Level::Trace => "trace"@,
    }
}

/// The name by which logrus knows a level.
pub fn map_log_level(level: Level) -> (r: &'static str)
    ensures
        r@ == level_name(level),
{
    match level {
        Level::Error => "error",
        Level::Warn => "warning",
        Level::Info => "info",
        Level::Debug => "debug",
        Level::Trace => "trace",
    }
}

/// The first second, counted from 1970, that has no timestamp: the one after the year 9999.
pub const END_OF_TIME: u64 = 253402300800;

/// What `humantime::format_rfc3339_seconds` shows for a time, given in seconds since 1970.
pub uninterp spec fn timestamp(seconds: u64) -> Seq<char>;

/// `humantime::format_rfc3339_seconds` gives the RFC 3339 timestamp, in UTC and without fractions
/// of a second, of a time up to the year 9999. The text is a function of the seconds since 1970
/// alone, and is only given a name.
#[verifier::external_body]
fn rfc3339(seconds: u64) -> (r: String)
    requires
        seconds < END_OF_TIME,
    ensures
        r@ == timestamp(seconds),
{
    humantime::format_rfc3339_seconds(UNIX_EPOCH + Duration::from_secs(seconds)).to_string()
}

/// The level, text and time of the message for `msg`, logged the given number of seconds after 1970.
pub open spec fn recorded(level: Level, msg: Seq<char>, seconds: u64) -> (
    Seq<char>,
    Seq<char>,
    Seq<char>,
) {
    (level_name(level), msg, timestamp(seconds))
}

/// JSON logger compatible with logrus (the logging library used by runc and many go projects), with
/// one message to a line.
///
/// Used with `--log-format=json`, so that a container manager parsing `runc`'s log file can read
/// these messages too.
#[derive(Debug)]
pub struct JsonLogger<W> {
    /// Where messages go.
    pub target: W,
}

impl<W> JsonLogger<W> {
    /// Log to `target`, typically the file named by `--log`.
    pub fn new(target: W) -> (r: JsonLogger<W>)
        ensures
            r.target == target,
    {
        JsonLogger { target }
    }

    /// The message to write for `msg`, logged the given number of seconds after 1970.
    pub fn message(&self, level: Level, msg: String, seconds: u64) -> (r: Message)
        requires
            seconds < END_OF_TIME,
        ensures
            r.level@ == level_name(level),
            r.msg == msg,
            r.time@ == timestamp(seconds),
            (r.level@, r.msg@, r.time@) == recorded(level, msg@, seconds),
    {
        Message { level: map_log_level(level), msg, time: rfc3339(seconds) }
    }

    /// The line to write for the JSON text of a message.
    pub open spec fn spec_line(json: Seq<char>) -> Seq<char> {
        json.push('\n')
    }

    /// The line to write for the JSON text of a message.
    pub fn line(&self, json: &str) -> (r: String)
        ensures
            r@ == json@.push('\n'),
            r@ == Self::spec_line(json@),
    {
        let mut r = String::new();
        text::push_str(&mut r, json);
        assert(r@ =~= json@);
        r.push('\n');
        r
    }
}

/// Messages can be told apart again: as long as no message holds a line feed of its own, which JSON
/// text has no need for, the lines of the log are the messages.
pub proof fn log_is_line_delimited(log: Seq<char>, json: Seq<char>)
    requires
        forall|i: int| 0 <= i < json.len() ==> json[i] != '\n',
        log.len() == 0 || log.last() == '\n',
    ensures
        text::split(log + json.push('\n'), '\n') == text::split(log, '\n').drop_last().push(
            json,
        ).push(seq![]),
{
    let none = Seq::<char>::empty();
    text::lemma_split_join(json, '\n', none);
    text::lemma_split_none(json, '\n');
    text::lemma_split_none(none, '\n');
    assert(json.push('\n') + none =~= json.push('\n'));
    if log.len() == 0 {
        assert(log + json.push('\n') =~= json.push('\n'));
        assert(text::split(log, '\n') =~= seq![none]) by {
            assert(log =~= none);
        }
        assert(text::split(json.push('\n'), '\n') =~= text::split(log, '\n').drop_last().push(
            json,
        ).push(none));
    } else {
        let front = log.drop_last();
        assert(log + json.push('\n') =~= front.push('\n') + json.push('\n'));
        text::lemma_split_join(front, '\n', json.push('\n'));
        text::lemma_split_join(front, '\n', none);
        assert(front.push('\n') + none =~= log);
        assert(text::split(log, '\n').drop_last() =~= text::split(front, '\n'));
        assert(text::split(log + json.push('\n'), '\n') =~= text::split(front, '\n').push(
            json,
        ).push(none));
    }
}

/// The levels go by the names that logrus has for them, each by one of its own.
pub proof fn levels_have_the_names_of_logrus(a: Level, b: Level)
    ensures
        level_name(Level::Error) == seq!['e', 'r', 'r', 'o', 'r'],
        level_name(Level::Warn) == seq!['w', 'a', 'r', 'n', 'i', 'n', 'g'],
        level_name(Level::Info) == seq!['i', 'n', 'f', 'o'],
        level_name(Level::Debug) == seq!['d', 'e', 'b', 'u', 'g'],
        level_name(Level::Trace) == seq!['t', 'r', 'a', 'c', 'e'],
        level_name(a) == level_name(b) ==> a == b,
{
    reveal_strlit("error");
    reveal_strlit("warning");
    reveal_strlit("info");
    reveal_strlit("debug");
    reveal_strlit("trace");
    assert(level_name(Level::Error) =~= seq!['e', 'r', 'r', 'o', 'r']);
    assert(level_name(Level::Warn) =~= seq!['w', 'a', 'r', 'n', 'i', 'n', 'g']);
    assert(level_name(Level::Info) =~= seq!['i', 'n', 'f', 'o']);
    assert(level_name(Level::Debug) =~= seq!['d', 'e', 'b', 'u', 'g']);
    assert(level_name(Level::Trace) =~= seq!['t', 'r', 'a', 'c', 'e']);
    if level_name(a) == level_name(b) {
        assert(level_name(a)[0] == level_name(b)[0]);
    }
}

/// What is logged is kept as it is, whatever its level and time, and two messages differ in their level
/// just if they were logged at different levels.
pub proof fn messages_are_kept_as_they_are(
    level: Level,
    other: Level,
    msg: Seq<char>,
    text: Seq<char>,
    seconds: u64,
    later: u64,
)
    ensures
        recorded(level, msg, seconds).1 == msg,
        recorded(level, msg, seconds).0 == recorded(other, text, later).0 <==> level == other,
        recorded(level, msg, seconds).2 == recorded(other, text, seconds).2,
        recorded(level, msg, seconds).2 == timestamp(seconds),
{
    levels_have_the_names_of_logrus(level, other);
}

/// The text of a message is the one line of what is written for it.
pub proof fn one_line_for_each_message<W>(json: Seq<char>, rest: Seq<char>)
    requires
        !json.contains('\n'),
        json.len() > 0 ==> json.last() != '\r',
    ensures
        text::lines(JsonLogger::<W>::spec_line(json) + rest) == seq![json] + text::lines(rest),
{
    text::line_feeds_end_lines(json, rest);
}

} // verus!
