//! The bridge's decisions: one supervised connection to a CasparCG server,
//! the command log, and the snapshot's bookkeeping.
//!
//! Everything the console shows comes from the bridge, and the console holds
//! no authoritative state of its own. The daemon owns the sockets, the timers
//! and the locks; what it does at each turn is decided here.
//!
//! Telemetry deserves a note. Caspar pushes OSC over UDP, by default to the IP
//! of every connected AMCP client on one shared port, which is contended when
//! another client runs on the same machine. So on connect the bridge binds a
//! port of its own and asks for its own feed with `OSC SUBSCRIBE <port>`; if
//! the server refuses, the shared port is bound as a fallback.

use vstd::prelude::*;

use crate::amcp::client::{error_text, Error as AmcpError};
use crate::amcp::command::{command_views, Command, CommandView};
use crate::amcp::commands::{info_paths, osc_subscribe, version};
use crate::amcp::response::{texts, Response};
use crate::control::ApiError;
use crate::show::compile::{compiled_all, outcome, show_mapping};
use crate::show::model::{first_cue, Show, UnknownScreen};
use crate::text::{decimal, push_str, string_from};

verus! {

broadcast use vstd::string::group_string_axioms;

/// How many recent commands the console's log panel keeps.
pub const LOG_CAPACITY: usize = 300;

/// The shared port CasparCG sends OSC to unless configured otherwise.
pub const OSC_DEFAULT_PORT: u16 = 6250;

/// Where to find the server.
#[derive(Debug, Clone, PartialEq)]
pub struct Config {
    pub host: String,
    pub amcp_port: u16,
    pub scanner_host: String,
    pub scanner_port: u16,
    /// The shared OSC port to bind as a fallback for pre-2.5 servers.
    pub osc_fallback_port: u16,
}

impl Default for Config {
    /// Everything on this machine, on the default ports.
    fn default() -> (r: Config)
        ensures
            r.host@ == "127.0.0.1"@,
            r.amcp_port == crate::amcp::client::DEFAULT_PORT,
            r.scanner_host@ == "127.0.0.1"@,
            r.scanner_port == crate::scanner::DEFAULT_PORT,
            r.osc_fallback_port == OSC_DEFAULT_PORT,
    {
        Config {
            host: string_from("127.0.0.1"),
            amcp_port: crate::amcp::client::DEFAULT_PORT,
            scanner_host: string_from("127.0.0.1"),
            scanner_port: crate::scanner::DEFAULT_PORT,
            osc_fallback_port: OSC_DEFAULT_PORT,
        }
    }
}

// ---------------------------------------------------------------------- errors

/// Why a command could not be run.
#[derive(Debug, Clone, PartialEq)]
pub enum Error {
    /// There is no connection to a server.
    Offline,
    /// The server, or the connection to it, failed the command.
    Amcp(AmcpError),
    /// A cue referred to something the show does not have.
    Show(UnknownScreen),
}

/// How a bridge error reads to the operator.
pub open spec fn bridge_error_text(e: Error) -> Seq<char> {
    match e {
        Error::Offline => "not connected to a CasparCG server"@,
        Error::Amcp(a) => error_text(a),
        Error::Show(u) => "action refers to unknown screen '"@ + u.0@ + "'"@,
    }
}

impl Error {
    /// How this error reads to the operator.
    pub fn message(&self) -> (r: String)
        ensures
            r@ == bridge_error_text(*self),
    {
        match self {
            Error::Offline => string_from("not connected to a CasparCG server"),
            Error::Amcp(a) => a.message(),
            Error::Show(u) => u.message(),
        }
    }
}

/// How a failed command is answered: offline is the server's fault, not the
/// request's (503); a show problem is the request's (400); a refusal by the
/// server is a bad gateway (502).
pub fn api_error(e: &Error) -> (r: ApiError)
    ensures
        r.status == match *e {
            Error::Offline => 503u16,
            Error::Show(_) => 400u16,
            Error::Amcp(_) => 502u16,
        },
        r.message@ == bridge_error_text(*e),
{
    let status: u16 = match e {
        Error::Offline => 503,
        Error::Show(_) => 400,
        Error::Amcp(_) => 502,
    };
    ApiError { status, message: e.message() }
}

// -------------------------------------------------------------------- batches

/// The texts of commands joined by ` · `, as the log shows a batch.
pub open spec fn joined(texts: Seq<Seq<char>>) -> Seq<char>
    decreases texts.len(),
{
    if texts.len() == 0 {
        Seq::empty()
    } else if texts.len() == 1 {
        texts[0]
    } else {
        joined(texts.drop_last()) + " · "@ + texts.last()
    }
}

/// The texts of commands, as the log shows them.
pub open spec fn command_texts(v: Seq<Command>) -> Seq<Seq<char>> {
    v.map_values(|c: Command| c@.text())
}

/// How a batch is written in the log.
pub fn batch_text(cmds: &[Command]) -> (r: String)
    ensures
        r@ == joined(command_texts(cmds@)),
{
    let mut out = String::new();
    for i in 0..cmds.len()
        invariant
            out@ == joined(command_texts(cmds@).take(i as int)),
    {
        let ghost t = command_texts(cmds@);
        assert(t.take(i + 1).drop_last() == t.take(i as int));
        assert(t.take(i + 1).last() == cmds@[i as int]@.text());
        if i > 0 {
            push_str(&mut out, " · ");
        } else {
            assert(t.take(0).len() == 0);
        }
        let text = cmds[i].to_string();
        push_str(&mut out, text.as_str());
    }
    assert(command_texts(cmds@).take(cmds@.len() as int) == command_texts(cmds@));
    out
}

/// The commands a batch request runs, and how it is logged; an empty batch
/// has nothing to run and is answered as offline.
pub fn batch_request(cmds: Vec<Command>) -> (r: Result<(Vec<Command>, String), Error>)
    ensures
        cmds@.len() == 0 <==> r == Err::<(Vec<Command>, String), Error>(Error::Offline),
        cmds@.len() > 0 ==> r is Ok,
        r matches Ok((v, text)) ==> v@ == cmds@ && text@ == joined(command_texts(cmds@)),
{
    if cmds.len() == 0 {
        return Err(Error::Offline);
    }
    let text = batch_text(cmds.as_slice());
    Ok((cmds, text))
}

/// The commands a cue fires, by the cue's id.
pub fn cue_request(show: &Show, cue_id: &str) -> (r: Result<Vec<Command>, Error>)
    ensures
        match r {
            Ok(v) => outcome(Ok(v)) == match first_cue(show.cues@, cue_id@) {
                Some(c) => compiled_all(show.screens@, c.actions@),
                None => Err(cue_id@),
            },
            Err(Error::Show(u)) => outcome(Err(u)) == match first_cue(show.cues@, cue_id@) {
                Some(c) => compiled_all(show.screens@, c.actions@),
                None => Err(cue_id@),
            },
            Err(_) => false,
        },
{
    match show.cue_commands(cue_id) {
        Ok(v) => Ok(v),
        Err(u) => Err(Error::Show(u)),
    }
}

/// The commands that push every screen's mapping; a show with no screens has
/// nothing to push and is answered as offline.
pub fn mapping_request(show: &Show) -> (r: Result<Vec<Command>, Error>)
    ensures
        show_mapping(show.screens@).len() == 0 <==> r == Err::<Vec<Command>, Error>(Error::Offline),
        show_mapping(show.screens@).len() > 0 ==> r is Ok,
        r matches Ok(v) ==> command_views(v@) == show_mapping(show.screens@),
{
    let v = show.mapping_commands();
    if v.len() == 0 {
        return Err(Error::Offline);
    }
    Ok(v)
}

// ------------------------------------------------------------------------ log

/// One line in the command log.
#[derive(Debug, Clone, PartialEq)]
pub struct LogEntry {
    /// Milliseconds since the Unix epoch.
    pub at: u64,
    pub command: String,
    pub code: Option<u16>,
    pub status: String,
    pub ok: bool,
}

impl LogEntry {
    /// The entry for a command the server answered.
    pub fn answered(at: u64, command: &str, resp: &Response) -> (r: LogEntry)
        ensures
            r.at == at,
            r.command@ == command@,
            r.code == Some(resp.code),
            r.status@ == resp.status@,
            r.ok == (200 <= resp.code < 300),
    {
        LogEntry {
            at,
            command: string_from(command),
            code: Some(resp.code),
            status: resp.status.clone(),
            ok: resp.is_ok(),
        }
    }

    /// The entry for a command that failed.
    pub fn failed(at: u64, command: &str, err: &AmcpError) -> (r: LogEntry)
        ensures
            r.at == at,
            r.command@ == command@,
            r.code is None,
            r.status@ == error_text(*err),
            !r.ok,
    {
        LogEntry { at, command: string_from(command), code: None, status: err.message(), ok: false }
    }
}

/// The most recent `n` of `s`.
pub open spec fn last_n<T>(s: Seq<T>, n: int) -> Seq<T> {
    if s.len() <= n {
        s
    } else {
        s.skip(s.len() - n)
    }
}

/// The recent commands, oldest first, at most [`LOG_CAPACITY`] of them.
#[derive(Debug)]
pub struct CommandLog {
    entries: Vec<LogEntry>,
}

impl View for CommandLog {
    type V = Seq<LogEntry>;

    closed spec fn view(&self) -> Seq<LogEntry> {
        self.entries@
    }
}

impl CommandLog {
    #[verifier::type_invariant]
    spec fn inv(self) -> bool {
        self.entries@.len() <= LOG_CAPACITY
    }

    /// An empty log.
    pub fn new() -> (r: CommandLog)
        ensures
            r@ == Seq::<LogEntry>::empty(),
    {
        CommandLog { entries: Vec::new() }
    }

    /// Add an entry, dropping the oldest when the log is full.
    pub fn record(&mut self, entry: LogEntry)
        ensures
            final(self)@ == last_n(old(self)@.push(entry), LOG_CAPACITY as int),
            final(self)@.len() <= LOG_CAPACITY,
    {
        proof {
            use_type_invariant(&*self);
        }
        let mut v: Vec<LogEntry> = Vec::new();
        std::mem::swap(&mut v, &mut self.entries);
        let ghost before = v@;
        if v.len() == LOG_CAPACITY {
            v.remove(0);
        }
        v.push(entry);
        assert(v@ =~= last_n(before.push(entry), LOG_CAPACITY as int));
        self.entries = v;
    }

    /// The entries, oldest first.
    pub fn entries(&self) -> (r: &Vec<LogEntry>)
        ensures
            r@ == self@,
    {
        &self.entries
    }
}

/// The log keeps exactly the most recent entries: recording entries one by
/// one leaves the last [`LOG_CAPACITY`] of everything recorded, oldest first.
pub proof fn lemma_log_keeps_the_latest(before: Seq<LogEntry>, e: LogEntry, all: Seq<LogEntry>)
    requires
        before == last_n(all, LOG_CAPACITY as int),
    ensures
        last_n(before.push(e), LOG_CAPACITY as int) == last_n(all.push(e), LOG_CAPACITY as int),
{
    let n = LOG_CAPACITY as int;
    if all.len() <= n {
        assert(before == all);
    } else {
        assert(before == all.skip(all.len() - n));
        assert(before.push(e).len() == n + 1);
        assert(last_n(before.push(e), n) =~= last_n(all.push(e), n));
    }
}

// --------------------------------------------------------------- supervision

/// The connection's health, as the console displays it.
#[derive(Debug, Clone, Copy, PartialEq, Eq, Structural)]
pub enum Health {
    Connecting,
    Connected,
    Down,
}

/// The wait before the first reconnect.
pub const FIRST_BACKOFF_MS: u64 = 500;

/// The longest wait between reconnects.
pub const MAX_BACKOFF_MS: u64 = 5000;

/// The connection's supervisor: whether it is up, whether an attempt has
/// finished yet, and how long to wait before the next one.
#[derive(Debug)]
pub struct Supervisor {
    backoff_ms: u64,
    connected: bool,
    attempted: bool,
}

/// The abstract state of a [`Supervisor`].
pub struct SupervisorView {
    pub backoff_ms: u64,
    pub connected: bool,
    pub attempted: bool,
}

impl View for Supervisor {
    type V = SupervisorView;

    closed spec fn view(&self) -> SupervisorView {
        SupervisorView {
            backoff_ms: self.backoff_ms,
            connected: self.connected,
            attempted: self.attempted,
        }
    }
}

/// Health before any attempt has finished is "connecting"; after one, a
/// connection that is not up is "down".
pub open spec fn health_of(connected: bool, attempted: bool) -> Health {
    if connected {
        Health::Connected
    } else if attempted {
        Health::Down
    } else {
        Health::Connecting
    }
}

/// The wait after a failed attempt that waited `ms`: doubled, up to the cap.
pub open spec fn next_backoff(ms: u64) -> u64 {
    if 2 * ms <= MAX_BACKOFF_MS {
        (2 * ms) as u64
    } else {
        MAX_BACKOFF_MS
    }
}

impl Supervisor {
    #[verifier::type_invariant]
    spec fn inv(self) -> bool {
        FIRST_BACKOFF_MS <= self.backoff_ms <= MAX_BACKOFF_MS
    }

    /// Nothing tried yet.
    pub fn new() -> (r: Supervisor)
        ensures
            r@.backoff_ms == FIRST_BACKOFF_MS,
            !r@.connected,
            !r@.attempted,
    {
        Supervisor { backoff_ms: FIRST_BACKOFF_MS, connected: false, attempted: false }
    }

    /// The health to show.
    pub fn health(&self) -> (r: Health)
        ensures
            r == health_of(self@.connected, self@.attempted),
    {
        if self.connected {
            Health::Connected
        } else if self.attempted {
            Health::Down
        } else {
            Health::Connecting
        }
    }

    /// Whether the connection is up.
    pub fn is_connected(&self) -> (r: bool)
        ensures
            r == self@.connected,
    {
        self.connected
    }

    /// A connection was made: it is up, and the backoff starts over.
    pub fn connected(&mut self)
        ensures
            final(self)@.connected,
            final(self)@.attempted,
            final(self)@.backoff_ms == FIRST_BACKOFF_MS,
    {
        self.backoff_ms = FIRST_BACKOFF_MS;
        self.connected = true;
        self.attempted = true;
    }

    /// The connection dropped. The next attempt is made at once.
    pub fn lost(&mut self)
        ensures
            !final(self)@.connected,
            final(self)@.attempted == old(self)@.attempted,
            final(self)@.backoff_ms == old(self)@.backoff_ms,
    {
        proof {
            use_type_invariant(&*self);
        }
        self.connected = false;
    }

    /// An attempt failed. Returns how long to wait before the next one; the
    /// wait after that is doubled, up to [`MAX_BACKOFF_MS`].
    pub fn failed(&mut self) -> (wait_ms: u64)
        ensures
            wait_ms == old(self)@.backoff_ms,
            FIRST_BACKOFF_MS <= wait_ms <= MAX_BACKOFF_MS,
            !final(self)@.connected,
            final(self)@.attempted,
            final(self)@.backoff_ms == next_backoff(old(self)@.backoff_ms),
    {
        proof {
            use_type_invariant(&*self);
        }
        let wait = self.backoff_ms;
        self.connected = false;
        self.attempted = true;
        self.backoff_ms = if wait <= MAX_BACKOFF_MS / 2 {
            2 * wait
        } else {
            MAX_BACKOFF_MS
        };
        wait
    }
}

/// The waits after `n` failures in a row, starting from `ms`.
pub open spec fn backoff_after(ms: u64, n: nat) -> u64
    decreases n,
{
    if n == 0 {
        ms
    } else {
        next_backoff(backoff_after(ms, (n - 1) as nat))
    }
}

/// Reconnects back off by doubling from half a second, and never wait more
/// than five seconds: after `n` failures in a row the wait is
/// `min(500 · 2ⁿ, 5000)` milliseconds.
pub proof fn lemma_backoff_doubles_to_the_cap(n: nat)
    ensures
        backoff_after(FIRST_BACKOFF_MS, n) == if n >= 4 {
            MAX_BACKOFF_MS as int
        } else {
            FIRST_BACKOFF_MS * vstd::arithmetic::power2::pow2(n)
        },
    decreases n,
{
    vstd::arithmetic::power2::lemma2_to64();
    if n > 0 {
        lemma_backoff_doubles_to_the_cap((n - 1) as nat);
    }
}

// ------------------------------------------------------------------ handshake

/// Static facts about the connected server.
#[derive(Debug, Clone, PartialEq)]
pub struct ServerInfo {
    pub host: String,
    pub port: u16,
    pub version: Option<String>,
    /// The server's media/template/data/log paths, as `INFO PATHS` reports
    /// them — the fastest way to explain why a clip "isn't there".
    pub paths: Option<String>,
    /// The OSC port telemetry is actually arriving on.
    pub osc_port: Option<u16>,
}

impl ServerInfo {
    /// What is known of a server before it answers anything.
    pub fn new(host: &str, port: u16) -> (r: ServerInfo)
        ensures
            r.host@ == host@,
            r.port == port,
            r.version is None,
            r.paths is None,
            r.osc_port is None,
    {
        ServerInfo { host: string_from(host), port, version: None, paths: None, osc_port: None }
    }
}

/// Lines joined by `\n`.
pub open spec fn joined_lines(ls: Seq<Seq<char>>) -> Seq<char>
    decreases ls.len(),
{
    if ls.len() == 0 {
        Seq::empty()
    } else if ls.len() == 1 {
        ls[0]
    } else {
        joined_lines(ls.drop_last()) + "\n"@ + ls.last()
    }
}

fn join_lines(ls: &Vec<String>) -> (r: String)
    ensures
        r@ == joined_lines(texts(ls@)),
{
    let mut out = String::new();
    for i in 0..ls.len()
        invariant
            out@ == joined_lines(texts(ls@).take(i as int)),
    {
        let ghost t = texts(ls@);
        assert(t.take(i + 1).drop_last() == t.take(i as int));
        assert(t.take(i + 1).last() == ls@[i as int]@);
        if i > 0 {
            push_str(&mut out, "\n");
        } else {
            assert(t.take(0).len() == 0);
        }
        push_str(&mut out, ls[i].as_str());
    }
    assert(texts(ls@).take(ls@.len() as int) == texts(ls@));
    out
}

/// Where the handshake with a newly connected server stands.
#[derive(Debug, Clone, Copy, PartialEq, Eq, Structural)]
pub enum Handshake {
    /// Waiting for the answer to `VERSION`.
    Version,
    /// Waiting for the answer to `INFO PATHS`.
    Paths,
    /// Waiting for a port of our own to be bound.
    Private,
    /// Waiting for the answer to `OSC SUBSCRIBE` for this port.
    Subscribing(u16),
    /// Waiting for the shared port to be bound.
    Shared,
    /// Finished.
    Done,
}

/// What the daemon does next in a handshake.
#[derive(Debug)]
pub enum Step {
    /// Send this command and report its outcome.
    Send(Command),
    /// Bind a port of the system's choosing and report which.
    BindPrivate,
    /// Bind this shared port and report whether it worked.
    BindShared(u16),
    /// Receive telemetry on the port just bound.
    Listen(u16),
    /// Nothing more: no telemetry this time, commands still work.
    Finish,
}

/// What the daemon reports back.
#[derive(Debug)]
pub enum Heard {
    /// The outcome of the command sent.
    Reply(Result<Response, AmcpError>),
    /// The port bound, or none.
    Bound(Option<u16>),
}

/// A step, as plain values.
pub enum StepView {
    Send(CommandView),
    BindPrivate,
    BindShared(u16),
    Listen(u16),
    Finish,
}

/// The view of a step.
pub open spec fn step_view(s: Step) -> StepView {
    match s {
        Step::Send(c) => StepView::Send(c@),
        Step::BindPrivate => StepView::BindPrivate,
        Step::BindShared(p) => StepView::BindShared(p),
        Step::Listen(p) => StepView::Listen(p),
        Step::Finish => StepView::Finish,
    }
}

/// The `OSC SUBSCRIBE` command for a port.
pub open spec fn subscribe_command(port: u16) -> CommandView {
    crate::amcp::commands::cmd(
        "OSC SUBSCRIBE"@,
        crate::amcp::command::Target::Server,
        seq![decimal(port as nat)],
    )
}

/// Where the handshake goes from `h` on hearing `heard`, and what to do.
pub open spec fn handshake_next(h: Handshake, heard: Heard, fallback: u16) -> (Handshake, StepView) {
    match (h, heard) {
        (Handshake::Version, Heard::Reply(_)) => (
            Handshake::Paths,
            StepView::Send(
                crate::amcp::commands::cmd(
                    "INFO PATHS"@,
                    crate::amcp::command::Target::Server,
                    Seq::empty(),
                ),
            ),
        ),
        (Handshake::Paths, Heard::Reply(_)) => (Handshake::Private, StepView::BindPrivate),
        (Handshake::Private, Heard::Bound(Some(port))) => (
            Handshake::Subscribing(port),
            StepView::Send(subscribe_command(port)),
        ),
        (Handshake::Private, Heard::Bound(None)) => (Handshake::Shared, StepView::BindShared(fallback)),
        (Handshake::Subscribing(port), Heard::Reply(Ok(_))) => (Handshake::Done, StepView::Listen(port)),
        (Handshake::Subscribing(_), Heard::Reply(Err(_))) => (
            Handshake::Shared,
            StepView::BindShared(fallback),
        ),
        (Handshake::Shared, Heard::Bound(Some(_))) => (Handshake::Done, StepView::Listen(fallback)),
        _ => (Handshake::Done, StepView::Finish),
    }
}

/// What the handshake learns about the server from `heard` in state `h`: the
/// version from a `VERSION` reply's line, the paths from an `INFO PATHS`
/// reply's lines, and the OSC port once telemetry has one.
pub open spec fn learned(info: ServerInfo, h: Handshake, heard: Heard, fallback: u16) -> (
    Option<Seq<char>>,
    Option<Seq<char>>,
    Option<u16>,
) {
    let version = crate::amcp::response::opt_view(info.version);
    let paths = crate::amcp::response::opt_view(info.paths);
    match (h, heard) {
        (Handshake::Version, Heard::Reply(Ok(r))) => (
            if r.lines@.len() > 0 {
                Some(r.lines@[0]@)
            } else {
                None
            },
            paths,
            info.osc_port,
        ),
        (Handshake::Paths, Heard::Reply(Ok(r))) => (
            version,
            Some(joined_lines(texts(r.lines@))),
            info.osc_port,
        ),
        (Handshake::Subscribing(port), Heard::Reply(Ok(_))) => (version, paths, Some(port)),
        (Handshake::Shared, Heard::Bound(Some(_))) => (version, paths, Some(fallback)),
        _ => (version, paths, info.osc_port),
    }
}

impl Handshake {
    /// The first step with a new connection: ask the server's version.
    pub fn start() -> (r: (Handshake, Command))
        ensures
            r.0 == Handshake::Version,
            r.1@ == crate::amcp::commands::cmd(
                "VERSION"@,
                crate::amcp::command::Target::Server,
                Seq::empty(),
            ),
    {
        (Handshake::Version, version())
    }

    /// Take in what was heard, note what it says about the server, and say
    /// what to do next.
    pub fn advance(self, info: &mut ServerInfo, heard: Heard, fallback: u16) -> (r: (Handshake, Step))
        ensures
            (r.0, step_view(r.1)) == handshake_next(self, heard, fallback),
            (
                crate::amcp::response::opt_view(final(info).version),
                crate::amcp::response::opt_view(final(info).paths),
                final(info).osc_port,
            ) == learned(*old(info), self, heard, fallback),
            final(info).host == old(info).host,
            final(info).port == old(info).port,
    {
        match (self, heard) {
            (Handshake::Version, Heard::Reply(reply)) => {
                if let Ok(r) = &reply {
                    info.version = match r.single() {
                        Some(s) => Some(string_from(s)),
                        None => None,
                    };
                }
                (Handshake::Paths, Step::Send(info_paths()))
            },
            (Handshake::Paths, Heard::Reply(reply)) => {
                if let Ok(r) = &reply {
                    info.paths = Some(join_lines(&r.lines));
                }
                (Handshake::Private, Step::BindPrivate)
            },
            (Handshake::Private, Heard::Bound(Some(port))) => (
                Handshake::Subscribing(port),
                Step::Send(osc_subscribe(port)),
            ),
            (Handshake::Private, Heard::Bound(None)) => (Handshake::Shared, Step::BindShared(fallback)),
            (Handshake::Subscribing(port), Heard::Reply(Ok(_))) => {
                info.osc_port = Some(port);
                (Handshake::Done, Step::Listen(port))
            },
            (Handshake::Subscribing(_), Heard::Reply(Err(_))) => (
                Handshake::Shared,
                Step::BindShared(fallback),
            ),
            (Handshake::Shared, Heard::Bound(Some(_))) => {
                info.osc_port = Some(fallback);
                (Handshake::Done, Step::Listen(fallback))
            },
            _ => (Handshake::Done, Step::Finish),
        }
    }
}

// -------------------------------------------------------------------- library

/// The media library as last read from the scanner.
#[derive(Debug, Clone)]
pub struct Library<M, T> {
    pub media: Vec<M>,
    pub templates: Vec<T>,
    pub fonts: Vec<String>,
    /// Whether the scanner answered the last time it was asked.
    pub up: bool,
}

impl<M, T> Library<M, T> {
    /// Nothing read yet.
    pub fn new() -> (r: Library<M, T>)
        ensures
            r.media@.len() == 0,
            r.templates@.len() == 0,
            r.fonts@.len() == 0,
            !r.up,
    {
        Library { media: Vec::new(), templates: Vec::new(), fonts: Vec::new(), up: false }
    }

    /// Take in one round of reads. The scanner is up when the media listing
    /// came back; only then are the listings replaced, a failed templates or
    /// fonts read counting as empty. When it is down the last good listings
    /// are kept.
    pub fn refresh(
        &mut self,
        media: Option<Vec<M>>,
        templates: Option<Vec<T>>,
        fonts: Option<Vec<String>>,
    )
        ensures
            final(self).up == media is Some,
            media is Some ==> final(self).media@ == media->0@,
            media is Some ==> final(self).templates@ == match templates {
                Some(t) => t@,
                None => Seq::empty(),
            },
            media is Some ==> final(self).fonts@ == match fonts {
                Some(f) => f@,
                None => Seq::empty(),
            },
            media is None ==> final(self).media@ == old(self).media@ && final(self).templates@ == old(
                self,
            ).templates@ && final(self).fonts@ == old(self).fonts@,
    {
        match media {
            Some(m) => {
                self.media = m;
                self.templates = match templates {
                    Some(t) => t,
                    None => Vec::new(),
                };
                self.fonts = match fonts {
                    Some(f) => f,
                    None => Vec::new(),
                };
                self.up = true;
            },
            None => {
                self.up = false;
            },
        }
    }
}

} // verus!
