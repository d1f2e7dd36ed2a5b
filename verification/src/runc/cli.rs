//! As much of `runc`'s command line as matters here.
//!
//! Only the options that are acted on are there. Unrecognised subcommands are captured by
//! [`Subcommand::Other`] and the arguments are handed to `runc` verbatim, so there is no need to
//! model nor to reconstruct them.
use crate::path::PathBuf;
use vstd::prelude::*;

verus! {

/// Format of `runc`'s log output, from `--log-format`.
#[derive(Debug, Clone, Copy, PartialEq, Eq, Structural)]
pub enum LogFormat {
    /// Line-delimited logrus-style JSON. See [`crate::runc::log::JsonLogger`].
    Json,
    Text,
}

/// runc command line.
#[derive(Debug)]
pub struct Command {
    pub global: GlobalOptions,
    pub command: Subcommand,
}

/// Options accepted before the subcommand.
#[derive(Debug)]
pub struct GlobalOptions {
    pub debug: bool,
    /// File to append log messages to, instead of stderr.
    pub log: Option<PathBuf>,
    pub log_format: LogFormat,
    /// Directory holding `runc`'s per-container state, with its `state.json`.
    pub root: PathBuf,
    pub systemd_cgroup: bool,
}

/// The verb `runc` was invoked with.
#[derive(Debug)]
pub enum Subcommand {
    /// The one verb with added behaviour.
    Create(CreateOptions),
    /// Shorthand for `create` followed by `start`. Rejected: it leaves no point at which to start
    /// the hotplug daemon before the entrypoint runs, and container managers do not use it.
    Run { args: Vec<String> },
    /// Any other verb, forwarded to `runc` unchanged.
    Other(Vec<String>),
}

/// Options of the `create` subcommand.
#[derive(Debug)]
pub struct CreateOptions {
    /// The OCI bundle directory, which is where `config.json` and its hotplug annotations are.
    pub bundle: PathBuf,
    pub console_socket: Option<PathBuf>,
    pub pid_file: Option<PathBuf>,
    pub container_id: String,
}

/// Where messages go.
#[derive(Debug)]
pub enum LogTarget {
    /// To stderr, as at first.
    Unchanged,
    /// As JSON to the file at the given path, which is appended to.
    Json(PathBuf),
    /// As text to the file at the given path, which takes the place of stderr.
    Stderr(PathBuf),
}

/// What to do about the verb.
#[derive(Debug, Clone, Copy, PartialEq, Eq, Structural)]
pub enum Verb {
    /// Create the container and supervise it.
    Create,
    /// Fail: the verb is not supported.
    Reject,
    /// Replace this process by `runc` with the same arguments.
    Forward,
}

/// How to start.
#[derive(Debug)]
pub enum Startup {
    /// Fail: device access can only be controlled by root.
    NotRoot,
    /// Switch to the log target, then see to the verb.
    Proceed(LogTarget, Verb),
}

pub enum LogTargetView {
    Unchanged,
    Json(Seq<u8>),
    Stderr(Seq<u8>),
}

pub enum StartupView {
    NotRoot,
    Proceed(LogTargetView, Verb),
}

impl View for LogTarget {
    type V = LogTargetView;

    open spec fn view(&self) -> LogTargetView {
        match self {
            LogTarget::Unchanged => LogTargetView::Unchanged,
            LogTarget::Json(p) => LogTargetView::Json(p@),
            LogTarget::Stderr(p) => LogTargetView::Stderr(p@),
        }
    }
}

impl View for Startup {
    type V = StartupView;

    open spec fn view(&self) -> StartupView {
        match self {
            Startup::NotRoot => StartupView::NotRoot,
            Startup::Proceed(target, verb) => StartupView::Proceed(target@, *verb),
        }
    }
}

/// Where messages go under some options.
pub open spec fn log_target_of(options: GlobalOptions) -> LogTargetView {
    match options.log {
        None => LogTargetView::Unchanged,
        Some(p) => if options.log_format == LogFormat::Json {
            LogTargetView::Json(p@)
        } else {
            LogTargetView::Stderr(p@)
        },
    }
}

/// What to do about a subcommand: only `create` is acted on, and only `run` is refused.
pub open spec fn verb_of(command: Subcommand) -> Verb {
    match command {
        Subcommand::Create(_) => Verb::Create,
        Subcommand::Run { .. } => Verb::Reject,
        Subcommand::Other(_) => Verb::Forward,
    }
}

/// How to start: not at all without being root.
pub open spec fn startup_of(command: Command, is_root: bool) -> StartupView {
    if is_root {
        StartupView::Proceed(log_target_of(command.global), verb_of(command.command))
    } else {
        StartupView::NotRoot
    }
}

impl GlobalOptions {
    /// Where messages go.
    pub fn log_target(&self) -> (r: LogTarget)
        ensures
            r@ == log_target_of(*self),
    {
        match &self.log {
            None => LogTarget::Unchanged,
            Some(p) => if self.log_format == LogFormat::Json {
                LogTarget::Json(p.clone())
            } else {
                LogTarget::Stderr(p.clone())
            },
        }
    }
}

impl Subcommand {
    /// What to do about the verb.
    ///
    /// When a container is started, `runc` is executed multiple times with different verbs:
    ///
    /// * `create`: create cgroup for the container
    /// * `start`: start the entrypoint
    /// * `kill`: kill the container (skipped if the container init exits cleanly)
    /// * `delete`: delete the cgroup
    ///
    /// The hotplug controller must run after the cgroup is created and last until it is deleted. It
    /// monitors the state of the container by itself, so only `create` needs to be intercepted, and
    /// the rest can be forwarded to `runc` directly.
    pub fn verb(&self) -> (r: Verb)
        ensures
            r == verb_of(*self),
    {
        match self {
            Subcommand::Create(_) => Verb::Create,
            Subcommand::Run { .. } => Verb::Reject,
            Subcommand::Other(_) => Verb::Forward,
        }
    }
}

impl Command {
    /// How to start, as root or not.
    pub fn startup(&self, is_root: bool) -> (r: Startup)
        ensures
            r@ == startup_of(*self, is_root),
    {
        if is_root {
            Startup::Proceed(self.global.log_target(), self.command.verb())
        } else {
            Startup::NotRoot
        }
    }
}

impl Startup {
    /// What is said where this is a failure.
    pub open spec fn spec_refusal(self) -> Option<Seq<char>> {
        match self {
            Startup::NotRoot => Some("This program must be run as root"@),
            Startup::Proceed(_, Verb::Reject) => Some(
                "container-hotplug does not support `run` command."@,
            ),
            _ => None,
        }
    }

    /// What is said where this is a failure.
    pub fn refusal(&self) -> (r: Option<&'static str>)
        ensures
            match r {
                Some(s) => self.spec_refusal() == Some(s@),
                None => self.spec_refusal() is None,
            },
    {
        match self {
            Startup::NotRoot => Some("This program must be run as root"),
            Startup::Proceed(_, Verb::Reject) => Some(
                "container-hotplug does not support `run` command.",
            ),
            _ => None,
        }
    }
}

/// The exit code to pass on from a process: its own, or 1 if a signal ended it.
pub open spec fn passed_on(code: Option<i32>) -> i32 {
    match code {
        Some(code) => code,
        None => 1,
    }
}

/// The exit code to pass on from a process.
pub fn exit_code(code: Option<i32>) -> (r: i32)
    ensures
        r == passed_on(code),
{
    match code {
        Some(code) => code,
        None => 1,
    }
}

/// What the process that the caller waits for does once the pipe to the daemon is readable.
#[derive(Debug, Clone, Copy, PartialEq, Eq, Structural)]
pub enum Handover {
    /// The daemon is ready: return successfully.
    Ready,
    /// The daemon ended without saying so: wait for it, and pass its exit code on.
    PassOn,
}

/// What to do after `read` bytes came from the daemon.
pub open spec fn handed_over(read: usize) -> Handover {
    if read == 0 {
        Handover::PassOn
    } else {
        Handover::Ready
    }
}

/// What to do after `read` bytes came from the daemon.
pub fn handover(read: usize) -> (r: Handover)
    ensures
        r == if read == 0 {
            Handover::PassOn
        } else {
            Handover::Ready
        },
        r == handed_over(read),
{
    if read == 0 {
        Handover::PassOn
    } else {
        Handover::Ready
    }
}

/// Messages go to the file that is named, in the format that is named. Without a file they stay where
/// they are, whatever the format.
pub proof fn logs_go_where_they_are_asked_to(options: GlobalOptions)
    ensures
        options.log is None <==> log_target_of(options) is Unchanged,
        options.log matches Some(p) ==> match options.log_format {
            LogFormat::Json => log_target_of(options) == LogTargetView::Json(p@),
            LogFormat::Text => log_target_of(options) == LogTargetView::Stderr(p@),
        },
{
}

/// `create` is the one verb that is acted on and `run` is the one that is refused. Every other verb is
/// left to `runc`.
pub proof fn only_create_is_acted_on(command: Subcommand)
    ensures
        verb_of(command) is Create <==> command is Create,
        verb_of(command) is Reject <==> command is Run,
        verb_of(command) is Forward <==> command is Other,
{
}

/// Only root gets anywhere. It is said why where there is nothing to be done, and only there.
pub proof fn only_root_proceeds(command: Command, is_root: bool, s: Startup)
    ensures
        startup_of(command, is_root) is NotRoot <==> !is_root,
        startup_of(command, is_root) matches StartupView::Proceed(target, verb) ==> target
            == log_target_of(command.global) && verb == verb_of(command.command),
        s.spec_refusal() is Some <==> s is NotRoot || (s matches Startup::Proceed(_, v)
            && v is Reject),
{
}

/// An exit code is passed on as it is. A process that was ended by a signal has none, and counts as
/// having failed.
pub proof fn exit_codes_are_passed_on(code: i32)
    ensures
        passed_on(Some(code)) == code,
        passed_on(None) != 0,
{
}

/// The caller may go on just if the daemon wrote something.
pub proof fn any_byte_means_ready(read: usize)
    ensures
        handed_over(read) is Ready <==> read > 0,
        handed_over(read) is PassOn <==> read == 0,
{
}

} // verus!
