//! Logging infrastructure.
//!
//! Where messages should go is only known progressively: stderr at first, then possibly a `runc`
//! log file, and finally syslog once the process becomes a daemon and nobody is reading the log file
//! any more. A process-wide logger can only be installed once, so a [`ReplaceableLogger`] is
//! installed as that logger and delegates to whichever logger [`global_replace`] was most recently
//! given.
use crate::number;
use crate::path;
use crate::path::PathBuf;
use crate::text;
use vstd::prelude::*;

verus! {

/// How important a message is.
#[derive(Debug, Clone, Copy, PartialEq, Eq, Structural)]
pub enum Level {
    Error,
    Warn,
    Info,
    Debug,
    Trace,
}

/// A logger that stands for another one, which can be swapped out at runtime.
#[derive(Debug)]
pub struct ReplaceableLogger<L> {
    /// The logger to delegate to.
    pub logger: L,
}

impl<L> ReplaceableLogger<L> {
    /// Wrap an initial logger.
    pub fn new(logger: L) -> (r: ReplaceableLogger<L>)
        ensures
            r.logger == logger,
    {
        ReplaceableLogger { logger }
    }

    /// Install `logger`. The previous one is handed back, to be dropped once the caller no longer
    /// holds on to this logger.
    pub fn replace(&mut self, logger: L) -> (r: L)
        ensures
            final(self).logger == logger,
            r == old(self).logger,
    {
        let mut other = logger;
        std::mem::swap(&mut self.logger, &mut other);
        other
    }
}

/// The slot, and what is handed back, once `logger` is installed.
pub open spec fn installed<L>(slot: Option<ReplaceableLogger<L>>, logger: L) -> (
    Option<ReplaceableLogger<L>>,
    Option<L>,
) {
    (
        Some(ReplaceableLogger { logger }),
        match slot {
            Some(previous) => Some(previous.logger),
            None => None,
        },
    )
}

/// Make `logger` the destination for all messages from now on.
///
/// Can be called any number of times: the first call fills the process-wide `slot`, and subsequent
/// ones just swap out what it delegates to and hand back the previous logger.
pub fn global_replace<L>(slot: &mut Option<ReplaceableLogger<L>>, logger: L) -> (r: Option<L>)
    ensures
        *final(slot) == Some(ReplaceableLogger { logger }),
        r == match *old(slot) {
            Some(previous) => Some(previous.logger),
            None => None,
        },
        (*final(slot), r) == installed(*old(slot), logger),
{
    match slot.take() {
        None => {
            *slot = Some(ReplaceableLogger::new(logger));
            None
        },
        Some(mut this) => {
            let previous = this.replace(logger);
            *slot = Some(this);
            Some(previous)
        },
    }
}

/// The severity by which syslog knows a level.
pub open spec fn severity(level: Level) -> u32 {
    match level {
        Level::Error => 3,
        Level::Warn => 4,
        Level::Info => 5,
        Level::Debug => 6,
        Level::Trace => 7,
    }
}

/// Messages from user-level programs.
pub const FACILITY: u32 = 1;

/// The priority of a message: the facility above the three bits of the severity.
pub open spec fn priority(level: Level) -> u32 {
    (8 * FACILITY + severity(level)) as u32
}

/// Why the name of the program is not known.
#[derive(Debug, Clone, Copy, PartialEq, Eq, Structural)]
pub enum ProcessNameError {
    /// The path of the program has no name.
    Missing,
    /// The name is not valid UTF-8.
    NotUtf8,
}

impl ProcessNameError {
    pub open spec fn spec_message(self) -> Seq<char> {
        match self {
            ProcessNameError::Missing => "cannot get process name"@,
            ProcessNameError::NotUtf8 => "process name is not UTF-8"@,
        }
    }

    /// What is said of the error.
    pub fn message(&self) -> (r: &'static str)
        ensures
            r@ == self.spec_message(),
    {
        match self {
            ProcessNameError::Missing => "cannot get process name",
            ProcessNameError::NotUtf8 => "process name is not UTF-8",
        }
    }
}

/// The name of the program at a path.
pub open spec fn process_name(exe: Seq<u8>) -> Result<Seq<char>, ProcessNameError> {
    match path::final_name(exe) {
        None => Err(ProcessNameError::Missing),
        Some(name) => if vstd::utf8::valid_utf8(name) {
            Ok(vstd::utf8::decode_utf8(name))
        } else {
            Err(ProcessNameError::NotUtf8)
        },
    }
}

/// An RFC 3164-style message.
pub open spec fn syslog_message(exe: Seq<char>, pid: u32, level: Level, msg: Seq<char>) -> Seq<char> {
    "<"@ + number::decimal(priority(level) as nat) + ">"@ + exe + "["@ + number::decimal(pid as nat)
        + "]: "@ + msg
}

/// Logger for RFC 3164-style messages.
///
/// Used by the daemon process: once `runc create` has returned, its log file is no longer read by
/// the container manager, but the hotplug events for the container's whole lifetime are worth
/// keeping. Every message is logged, whatever its level.
#[derive(Debug)]
pub struct SyslogLogger<S> {
    /// Where messages go.
    pub socket: S,
    /// The program's name, used as the syslog tag.
    pub exe: String,
    pub pid: u32,
}

impl<S> SyslogLogger<S> {
    /// A logger that logs to `socket`, for the process `pid` running the program at `exe`.
    pub fn new(socket: S, exe: &PathBuf, pid: u32) -> (r: Result<SyslogLogger<S>, ProcessNameError>)
        ensures
            match r {
                Ok(l) => {
                    &&& process_name(exe@) == Ok::<Seq<char>, ProcessNameError>(l.exe@)
                    &&& l.socket == socket
                    &&& l.pid == pid
                },
                Err(e) => process_name(exe@) == Err::<Seq<char>, ProcessNameError>(e),
            },
    {
        match exe.file_name() {
            None => Err(ProcessNameError::Missing),
            Some(name) => match text::from_utf8(name) {
                None => Err(ProcessNameError::NotUtf8),
                Some(exe) => Ok(SyslogLogger { socket, exe, pid }),
            },
        }
    }

    /// The message to send for `msg`.
    pub fn message(&self, level: Level, msg: &str) -> (r: String)
        ensures
            r@ == syslog_message(self.exe@, self.pid, level, msg@),
    {
        let severity: u32 = match level {
            Level::Error => 3,
            Level::Warn => 4,
            Level::Info => 5,
            Level::Debug => 6,
            Level::Trace => 7,
        };
        assert(1u32 << 3 | severity == 8 + severity) by (bit_vector)
            requires
                severity < 8,
        ;
        let priority: u32 = FACILITY << 3 | severity;
        let mut r = text::concat3("<", number::to_decimal(priority).as_str(), ">");
        text::push_str(&mut r, self.exe.as_str());
        text::push_str(&mut r, "[");
        text::push_str(&mut r, number::to_decimal(self.pid).as_str());
        text::push_str(&mut r, "]: ");
        text::push_str(&mut r, msg);
        r
    }
}

/// A message that matters more has a lower number, down to 3 for errors, and all are from user-level
/// programs: the facility takes the bits above the three of the severity.
pub proof fn priorities_are_those_of_syslog(level: Level)
    ensures
        priority(level) / 8 == 1,
        priority(level) % 8 == severity(level),
        severity(Level::Error) == 3,
        severity(Level::Warn) == severity(Level::Error) + 1,
        severity(Level::Info) == severity(Level::Warn) + 1,
        severity(Level::Debug) == severity(Level::Info) + 1,
        severity(Level::Trace) == severity(Level::Debug) + 1,
{
}

/// A message has its priority in angle brackets, then who says it, and then what is said.
pub proof fn messages_say_who_says_them(exe: Seq<char>, pid: u32, level: Level, msg: Seq<char>)
    ensures
        syslog_message(exe, pid, level, msg) == seq!['<'] + number::decimal(
            (8 + severity(level)) as nat,
        ) + seq!['>'] + exe + seq!['['] + number::decimal(pid as nat) + seq![']', ':', ' '] + msg,
{
    reveal_strlit("<");
    reveal_strlit(">");
    reveal_strlit("[");
    reveal_strlit("]: ");
    assert("<"@ =~= seq!['<']);
    assert(">"@ =~= seq!['>']);
    assert("["@ =~= seq!['[']);
    assert("]: "@ =~= seq![']', ':', ' ']);
}

/// The name of a program is the last part of its path, whatever directory it is in.
pub proof fn programs_go_by_their_file_name(dir: Seq<u8>, name: Seq<char>)
    requires
        dir.len() > 0,
        path::is_name(vstd::utf8::encode_utf8(name)),
        vstd::utf8::encode_utf8(name) != seq![46u8, 46u8],
    ensures
        process_name(path::joined(dir, vstd::utf8::encode_utf8(name))) == Ok::<
            Seq<char>,
            ProcessNameError,
        >(name),
        process_name(seq![47u8]) == Err::<Seq<char>, ProcessNameError>(ProcessNameError::Missing),
{
    vstd::utf8::encode_utf8_valid_utf8(name);
    vstd::utf8::encode_utf8_decode_utf8(name);
    path::names_and_parents_of_files(dir, vstd::utf8::encode_utf8(name));
}

/// A name that is no text is an error of its own.
pub proof fn program_names_are_text(dir: Seq<u8>, name: Seq<u8>)
    requires
        dir.len() > 0,
        path::is_name(name),
        !vstd::utf8::valid_utf8(name),
        name != seq![46u8, 46u8],
    ensures
        process_name(path::joined(dir, name)) == Err::<Seq<char>, ProcessNameError>(
            ProcessNameError::NotUtf8,
        ),
{
    path::names_and_parents_of_files(dir, name);
}

/// The logger that was installed last is the one that counts, and it is handed back once another takes
/// its place. The first takes the place of none.
pub proof fn last_logger_counts<L>(slot: Option<ReplaceableLogger<L>>, first: L, second: L)
    ensures
        installed(slot, first).0 matches Some(r) && r.logger == first,
        installed(installed(slot, first).0, second).1 == Some(first),
        installed(installed(slot, first).0, second).0 matches Some(r) && r.logger == second,
        installed(None::<ReplaceableLogger<L>>, first).1 is None,
{
}

} // verus!
