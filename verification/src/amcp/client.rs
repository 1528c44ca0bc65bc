//! The bookkeeping of an AMCP connection.
//!
//! Every command is sent as `REQ <id> <COMMAND>` and matched to its reply by
//! the `RES <id>` prefix. That is not belt-and-braces: the server dispatches
//! to one queue per channel, so a reply for channel 2 can overtake a reply for
//! channel 1, and pairing replies by arrival order would mis-attribute them.
//!
//! A [`Session`] decides what is written for each request, which id its reply
//! will carry, and where each decoded response goes. The socket, the tasks
//! and the timers are the caller's: it writes what a plan says, hands every
//! decoded response to [`Session::route`], and settles each awaited reply
//! with [`settle`].

use vstd::prelude::*;

use crate::amcp::command::{Command, CommandView};
use crate::amcp::response::{opt_view, Response, ResponseView};
use crate::text::{chars_of, decimal, digit_char, push_char, push_decimal, push_str, string_from};

verus! {

broadcast use vstd::string::group_string_axioms;

/// The port CasparCG listens on for AMCP by default.
pub const DEFAULT_PORT: u16 = 5250;

/// Something that went wrong talking to the server.
#[derive(Debug, Clone, PartialEq)]
pub enum Error {
    /// The socket failed; the text is the system's.
    Io(String),
    /// The connection to the server was lost.
    Disconnected,
    /// No reply came in time to the command named.
    Timeout(String),
    /// The server refused a command.
    Amcp { command: String, code: u16, status: String },
}

/// How an error reads to the operator.
pub open spec fn error_text(e: Error) -> Seq<char> {
    match e {
        Error::Io(m) => "i/o error: "@ + m@,
        Error::Disconnected => "connection to the server was lost"@,
        Error::Timeout(c) => "timed out waiting for a reply to "@ + c@,
        Error::Amcp { command, code, status } => command@ + " failed: "@ + decimal(code as nat)
            + " "@ + status@,
    }
}

impl Error {
    /// How this error reads to the operator.
    pub fn message(&self) -> (r: String)
        ensures
            r@ == error_text(*self),
    {
        match self {
            Error::Io(m) => {
                let mut s = string_from("i/o error: ");
                push_str(&mut s, m.as_str());
                s
            },
            Error::Disconnected => string_from("connection to the server was lost"),
            Error::Timeout(c) => {
                let mut s = string_from("timed out waiting for a reply to ");
                push_str(&mut s, c.as_str());
                s
            },
            Error::Amcp { command, code, status } => {
                let mut s = string_from(command.as_str());
                push_str(&mut s, " failed: ");
                push_decimal(&mut s, *code as u64);
                push_str(&mut s, " ");
                push_str(&mut s, status.as_str());
                s
            },
        }
    }
}

// ---------------------------------------------------------------------- plans

/// One write to the server, and the id of the reply it opens, if it opens
/// one. `BEGIN` and the commands inside a batch open none: the server never
/// answers `BEGIN`, and a batch is answered once, for its `COMMIT`.
#[derive(Debug)]
pub struct Outgoing {
    pub wire: String,
    pub reply_to: Option<u64>,
}

/// The reply a request waits for.
#[derive(Debug, Clone, Copy, PartialEq, Eq, Structural)]
pub enum Awaited {
    /// The reply tagged `RES <id>`.
    Tagged(u64),
    /// A `PONG`, which carries no id and is picked off the notifications.
    Pong,
}

/// What to do for one request.
#[derive(Debug)]
pub struct Plan {
    /// What to write, in order.
    pub writes: Vec<Outgoing>,
    /// The reply to wait for.
    pub awaited: Awaited,
    /// The name a timeout is reported under.
    pub label: String,
    /// For a checked send: the command an error reply is reported against.
    pub checked: Option<String>,
}

/// A write, as plain values.
pub open spec fn write_view(o: Outgoing) -> (Seq<char>, Option<u64>) {
    (o.wire@, o.reply_to)
}

/// The writes of a plan, as plain values.
pub open spec fn writes_of(p: Plan) -> Seq<(Seq<char>, Option<u64>)> {
    p.writes@.map_values(|o: Outgoing| write_view(o))
}

/// Whether `r` is a plan with these writes, awaiting this reply, under this
/// label, checked against this text.
pub open spec fn plans(
    r: Result<Plan, Error>,
    writes: Seq<(Seq<char>, Option<u64>)>,
    awaited: Awaited,
    label: Seq<char>,
    checked: Option<Seq<char>>,
) -> bool {
    &&& r is Ok
    &&& writes_of(r->Ok_0) == writes
    &&& r->Ok_0.awaited == awaited
    &&& r->Ok_0.label@ == label
    &&& opt_view(r->Ok_0.checked) == checked
}

/// `REQ <id> ` in front of a line.
pub open spec fn tagged(id: u64, line: Seq<char>) -> Seq<char> {
    "REQ "@ + decimal(id as nat) + " "@ + line
}

/// The line that opens batch `id`.
pub open spec fn begin_line(id: u64) -> Seq<char> {
    tagged(id, "BEGIN\r\n"@)
}

/// ASCII lower case.
pub open spec fn ascii_lower(c: char) -> char {
    if 'A' <= c <= 'Z' {
        ((c as u32) + 32) as char
    } else {
        c
    }
}

/// Equal ignoring ASCII case.
pub open spec fn same_ignoring_ascii_case(a: Seq<char>, b: Seq<char>) -> bool {
    a.len() == b.len() && forall|i: int| 0 <= i < a.len() ==> ascii_lower(a[i]) == ascii_lower(b[i])
}

/// Whether a command is a `PING`, whose `PONG` answer has no id or code.
pub open spec fn is_ping(c: CommandView) -> bool {
    same_ignoring_ascii_case(c.name, "PING"@)
}

fn either_case(c: char, upper: char, lower: char) -> (r: bool)
    requires
        'A' <= upper <= 'Z',
        lower as u32 == upper as u32 + 32,
    ensures
        r == (ascii_lower(c) == ascii_lower(upper)),
{
    assert(ascii_lower(upper) == lower);
    c == upper || c == lower
}

fn names_ping(name: &str) -> (r: bool)
    ensures
        r == same_ignoring_ascii_case(name@, "PING"@),
{
    let a = chars_of(name);
    proof {
        reveal_strlit("PING");
    }
    if a.len() != 4 {
        return false;
    }
    let r = either_case(a[0], 'P', 'p') && either_case(a[1], 'I', 'i') && either_case(a[2], 'N', 'n')
        && either_case(a[3], 'G', 'g');
    assert(r == (forall|i: int| 0 <= i < 4 ==> ascii_lower(a@[i]) == ascii_lower("PING"@[i]))) by {
        if !r {
            if ascii_lower(a@[0]) != ascii_lower('P') {
                assert(ascii_lower(a@[0]) != ascii_lower("PING"@[0]));
            } else if ascii_lower(a@[1]) != ascii_lower('I') {
                assert(ascii_lower(a@[1]) != ascii_lower("PING"@[1]));
            } else if ascii_lower(a@[2]) != ascii_lower('N') {
                assert(ascii_lower(a@[2]) != ascii_lower("PING"@[2]));
            } else {
                assert(ascii_lower(a@[3]) != ascii_lower("PING"@[3]));
            }
        }
    }
    r
}

fn tagged_line(id: u64, line: &str) -> (r: String)
    ensures
        r@ == tagged(id, line@),
{
    let mut s = string_from("REQ ");
    push_decimal(&mut s, id);
    push_str(&mut s, " ");
    push_str(&mut s, line);
    s
}

// -------------------------------------------------------------------- session

/// The bookkeeping of one connection.
#[derive(Debug)]
pub struct Session {
    next_id: u64,
    pending: Vec<u64>,
    closed: bool,
}

/// The abstract state of a [`Session`].
pub struct SessionView {
    /// The id the next request gets.
    pub next_id: u64,
    /// The ids whose replies are awaited, in the order they were opened.
    pub pending: Seq<u64>,
    /// Whether the connection has gone away.
    pub closed: bool,
}

impl View for Session {
    type V = SessionView;

    closed spec fn view(&self) -> SessionView {
        SessionView { next_id: self.next_id, pending: self.pending@, closed: self.closed }
    }
}

/// The id after `id`; ids wrap round rather than run out.
pub open spec fn after(id: u64) -> u64 {
    if id == u64::MAX {
        0
    } else {
        (id + 1) as u64
    }
}

/// Where a decoded response goes.
#[derive(Debug, Clone, Copy, PartialEq, Eq, Structural)]
pub enum Route {
    /// To the request waiting on this id.
    Deliver(u64),
    /// To everyone listening for notifications: a 1xx, an untagged reply, or
    /// one whose request has stopped waiting.
    Broadcast,
}

/// The first awaited id whose text is `id`.
pub open spec fn awaited_position(pending: Seq<u64>, id: Seq<char>) -> int
    decreases pending.len(),
{
    if pending.len() == 0 {
        0
    } else if decimal(pending[0] as nat) == id {
        0
    } else {
        1 + awaited_position(pending.drop_first(), id)
    }
}

/// Where a response goes when `pending` is awaited.
pub open spec fn route_of(pending: Seq<u64>, r: ResponseView) -> Route {
    if 100 <= r.code < 200 {
        Route::Broadcast
    } else {
        match r.id {
            Some(id) => if awaited_position(pending, id) < pending.len() {
                Route::Deliver(pending[awaited_position(pending, id)])
            } else {
                Route::Broadcast
            },
            None => Route::Broadcast,
        }
    }
}

proof fn lemma_awaited_position(pending: Seq<u64>, id: Seq<char>)
    ensures
        0 <= awaited_position(pending, id) <= pending.len(),
        forall|j: int|
            0 <= j < awaited_position(pending, id) ==> decimal(#[trigger] pending[j] as nat) != id,
        awaited_position(pending, id) < pending.len() ==> decimal(
            pending[awaited_position(pending, id)] as nat,
        ) == id,
    decreases pending.len(),
{
    if pending.len() > 0 && decimal(pending[0] as nat) != id {
        lemma_awaited_position(pending.drop_first(), id);
        assert forall|j: int| 0 <= j < awaited_position(pending, id) implies decimal(
            #[trigger] pending[j] as nat,
        ) != id by {
            if j > 0 {
                assert(pending[j] == pending.drop_first()[j - 1]);
            }
        }
    }
}

fn same_chars(a: &Vec<char>, b: &Vec<char>) -> (r: bool)
    ensures
        r == (a@ == b@),
{
    if a.len() != b.len() {
        return false;
    }
    for i in 0..a.len()
        invariant
            a@.len() == b@.len(),
            forall|k: int| 0 <= k < i ==> a@[k] == b@[k],
    {
        if a[i] != b[i] {
            return false;
        }
    }
    assert(a@ =~= b@);
    true
}

impl Session {
    #[verifier::type_invariant]
    spec fn inv(self) -> bool {
        self.pending@.no_duplicates()
    }

    /// A fresh connection: ids start at 1 and nothing is awaited.
    pub fn new() -> (r: Session)
        ensures
            r@.next_id == 1,
            r@.pending == Seq::<u64>::empty(),
            !r@.closed,
    {
        Session { next_id: 1, pending: Vec::new(), closed: false }
    }

    /// Whether the connection has gone away.
    pub fn is_closed(&self) -> (r: bool)
        ensures
            r == self@.closed,
    {
        self.closed
    }

    /// Mark the connection gone. Every awaited reply is abandoned, so its
    /// waiter sees `Disconnected` rather than a timeout.
    pub fn close(&mut self)
        ensures
            final(self)@.closed,
            final(self)@.pending == Seq::<u64>::empty(),
            final(self)@.next_id == old(self)@.next_id,
    {
        proof {
            use_type_invariant(&*self);
        }
        self.closed = true;
        self.pending = Vec::new();
    }

    fn take_id(&mut self) -> (id: u64)
        ensures
            id == old(self)@.next_id,
            final(self)@.next_id == after(id),
            final(self)@.pending == old(self)@.pending,
            final(self)@.closed == old(self)@.closed,
    {
        proof {
            use_type_invariant(&*self);
        }
        let id = self.next_id;
        self.next_id = self.next_id.wrapping_add(1);
        id
    }

    /// Plan a command whose reply is returned whatever its status.
    ///
    /// `PING` is written bare: it is answered `PONG …` with no code and no
    /// `RES` prefix, so it is picked off the notifications instead. Anything
    /// else is refused on a closed connection, or written as
    /// `REQ <id> <COMMAND>` under the next id.
    pub fn send_raw(&mut self, cmd: &Command) -> (r: Result<Plan, Error>)
        ensures
            is_ping(cmd@) ==> final(self)@ == old(self)@ && plans(
                r,
                seq![(cmd@.wire(), None::<u64>)],
                Awaited::Pong,
                cmd@.text(),
                None,
            ),
            !is_ping(cmd@) && old(self)@.closed ==> final(self)@ == old(self)@ && r == Err::<
                Plan,
                Error,
            >(Error::Disconnected),
            !is_ping(cmd@) && !old(self)@.closed ==> final(self)@.next_id == after(
                old(self)@.next_id,
            ) && final(self)@.pending == old(self)@.pending && !final(self)@.closed && plans(
                r,
                seq![(tagged(old(self)@.next_id, cmd@.wire()), Some(old(self)@.next_id))],
                Awaited::Tagged(old(self)@.next_id),
                cmd@.text(),
                None,
            ),
    {
        let label = cmd.to_string();
        if names_ping(cmd.name()) {
            let mut writes: Vec<Outgoing> = Vec::new();
            writes.push(Outgoing { wire: cmd.to_wire(), reply_to: None });
            let p = Plan { writes, awaited: Awaited::Pong, label, checked: None };
            assert(writes_of(p) =~= seq![(cmd@.wire(), None::<u64>)]);
            return Ok(p);
        }
        if self.closed {
            return Err(Error::Disconnected);
        }
        let id = self.take_id();
        let wire = cmd.to_wire();
        let mut writes: Vec<Outgoing> = Vec::new();
        writes.push(Outgoing { wire: tagged_line(id, wire.as_str()), reply_to: Some(id) });
        let p = Plan { writes, awaited: Awaited::Tagged(id), label, checked: None };
        assert(writes_of(p) =~= seq![(tagged(id, cmd@.wire()), Some(id))]);
        Ok(p)
    }

    /// Plan a command whose error reply is an error: as [`Session::send_raw`],
    /// with the command's text kept to report a refusal against.
    pub fn send(&mut self, cmd: &Command) -> (r: Result<Plan, Error>)
        ensures
            is_ping(cmd@) ==> final(self)@ == old(self)@ && plans(
                r,
                seq![(cmd@.wire(), None::<u64>)],
                Awaited::Pong,
                cmd@.text(),
                Some(cmd@.text()),
            ),
            !is_ping(cmd@) && old(self)@.closed ==> final(self)@ == old(self)@ && r == Err::<
                Plan,
                Error,
            >(Error::Disconnected),
            !is_ping(cmd@) && !old(self)@.closed ==> final(self)@.next_id == after(
                old(self)@.next_id,
            ) && final(self)@.pending == old(self)@.pending && !final(self)@.closed && plans(
                r,
                seq![(tagged(old(self)@.next_id, cmd@.wire()), Some(old(self)@.next_id))],
                Awaited::Tagged(old(self)@.next_id),
                cmd@.text(),
                Some(cmd@.text()),
            ),
    {
        match self.send_raw(cmd) {
            Ok(p) => {
                let text = cmd.to_string();
                Ok(Plan { checked: Some(text), ..p })
            },
            Err(e) => Err(e),
        }
    }

    /// Plan several commands as one atomic batch.
    ///
    /// The server locks every touched channel, queues the commands, then
    /// releases them together, so a multi-layer cue lands on one frame. An
    /// empty batch is refused as the server would refuse it; a single command
    /// is sent on its own, since the wrapper would be pointless. Otherwise
    /// `BEGIN` goes under a fresh id that the `COMMIT` reply will carry, each
    /// command under an id of its own, then `COMMIT`.
    pub fn batch(&mut self, cmds: &[Command]) -> (r: Result<Plan, Error>)
        ensures
            cmds@.len() == 0 ==> final(self)@ == old(self)@ && r is Err && r->Err_0 is Amcp
                && r->Err_0->command@ == "BEGIN"@ && r->Err_0->code == 400 && r->Err_0->status@
                == "empty batch"@,
            cmds@.len() == 1 && is_ping(cmds@[0]@) ==> final(self)@ == old(self)@ && plans(
                r,
                seq![(cmds@[0]@.wire(), None::<u64>)],
                Awaited::Pong,
                cmds@[0]@.text(),
                Some(cmds@[0]@.text()),
            ),
            cmds@.len() == 1 && !is_ping(cmds@[0]@) && old(self)@.closed ==> final(self)@ == old(
                self,
            )@ && r == Err::<Plan, Error>(Error::Disconnected),
            cmds@.len() == 1 && !is_ping(cmds@[0]@) && !old(self)@.closed ==> final(self)@.next_id
                == after(old(self)@.next_id) && final(self)@.pending == old(self)@.pending
                && !final(self)@.closed && plans(
                r,
                seq![(tagged(old(self)@.next_id, cmds@[0]@.wire()), Some(old(self)@.next_id))],
                Awaited::Tagged(old(self)@.next_id),
                cmds@[0]@.text(),
                Some(cmds@[0]@.text()),
            ),
            cmds@.len() > 1 && old(self)@.closed ==> final(self)@ == old(self)@ && r == Err::<
                Plan,
                Error,
            >(Error::Disconnected),
            cmds@.len() > 1 && !old(self)@.closed ==> final(self)@.pending == old(self)@.pending
                && !final(self)@.closed && final(self)@.next_id == ids_after(
                old(self)@.next_id,
                cmds@.len() + 1int,
            ) && plans(
                r,
                batch_writes(old(self)@.next_id, cmds@.map_values(|c: Command| c@)),
                Awaited::Tagged(old(self)@.next_id),
                "COMMIT"@,
                None,
            ),
    {
        if cmds.len() == 0 {
            return Err(
                Error::Amcp {
                    command: string_from("BEGIN"),
                    code: 400,
                    status: string_from("empty batch"),
                },
            );
        }
        if cmds.len() == 1 {
            return self.send(&cmds[0]);
        }
        if self.closed {
            return Err(Error::Disconnected);
        }
        let ghost start = self@.next_id;
        let ghost pending0 = self@.pending;
        let ghost views = cmds@.map_values(|c: Command| c@);
        let id = self.take_id();
        let mut writes: Vec<Outgoing> = Vec::new();
        writes.push(Outgoing { wire: tagged_line(id, "BEGIN\r\n"), reply_to: None });
        assert(writes@.map_values(|o: Outgoing| write_view(o)) =~= seq![(begin_line(id), None::<u64>)]);
        assert(views.take(0) =~= Seq::<CommandView>::empty());
        assert(ids_after(start, 0) == start);
        assert(ids_after(start, 1) == after(start));
        for i in 0..cmds.len()
            invariant
                id == start,
                views == cmds@.map_values(|c: Command| c@),
                self@.next_id == ids_after(start, i + 1),
                self@.pending == pending0,
                ids_after(start, 1) == after(start),
                !self@.closed,
                writes@.map_values(|o: Outgoing| write_view(o)) == seq![(begin_line(start), None::<u64>)]
                    + inner_writes(ids_after(start, 1), views.take(i as int)),
        {
            let ghost before = writes@.map_values(|o: Outgoing| write_view(o));
            let inner = self.take_id();
            let wire = cmds[i].to_wire();
            writes.push(Outgoing { wire: tagged_line(inner, wire.as_str()), reply_to: None });
            proof {
                lemma_inner_writes_step(ids_after(start, 1), views, i as int);
                assert(inner == ids_after(ids_after(start, 1), i as int)) by {
                    lemma_ids_after_add(start, 1, i as int);
                }
                assert(ids_after(start, i + 2) == after(ids_after(start, i + 1))) by {
                    lemma_ids_after_add(start, i + 1, 1);
                }
            }
            assert(writes@.map_values(|o: Outgoing| write_view(o)) =~= before.push(
                (tagged(inner, views[i as int].wire()), None::<u64>),
            ));
        }
        let ghost before = writes@.map_values(|o: Outgoing| write_view(o));
        writes.push(Outgoing { wire: string_from("COMMIT\r\n"), reply_to: Some(id) });
        assert(views.take(cmds@.len() as int) == views);
        assert(views.len() == cmds@.len());
        let p = Plan {
            writes,
            awaited: Awaited::Tagged(id),
            label: string_from("COMMIT"),
            checked: None,
        };
        assert(writes_of(p) =~= before.push(("COMMIT\r\n"@, Some(id))));
        assert(self@.pending == old(self)@.pending);
        assert(!self@.closed);
        assert(self@.next_id == ids_after(start, cmds@.len() + 1int));
        assert(writes_of(p) == batch_writes(start, views));
        assert(p.label@ == "COMMIT"@);
        assert(views == cmds@.map_values(|c: Command| c@));
        Ok(p)
    }

    /// Note that the reply to `id` is awaited. The writer does this *before*
    /// the bytes go out, so a fast reply never arrives ahead of its slot.
    pub fn expect(&mut self, id: u64)
        ensures
            final(self)@.pending == if old(self)@.pending.contains(id) {
                old(self)@.pending
            } else {
                old(self)@.pending.push(id)
            },
            final(self)@.next_id == old(self)@.next_id,
            final(self)@.closed == old(self)@.closed,
    {
        proof {
            use_type_invariant(&*self);
        }
        for k in 0..self.pending.len()
            invariant
                forall|j: int| 0 <= j < k ==> self.pending@[j] != id,
        {
            if self.pending[k] == id {
                return;
            }
        }
        assert(!self.pending@.contains(id));
        let mut p: Vec<u64> = Vec::new();
        std::mem::swap(&mut p, &mut self.pending);
        p.push(id);
        assert(p@.no_duplicates()) by {
            assert forall|a: int, b: int|
                0 <= a < p@.len() && 0 <= b < p@.len() && a != b implies p@[a] != p@[b] by {
                if a == p@.len() - 1 || b == p@.len() - 1 {
                } else {
                }
            }
        }
        self.pending = p;
    }

    /// Stop waiting for `id` — its request gave up.
    pub fn give_up(&mut self, id: u64)
        ensures
            final(self)@.pending == old(self)@.pending.filter(|x: u64| x != id),
            !final(self)@.pending.contains(id),
            final(self)@.next_id == old(self)@.next_id,
            final(self)@.closed == old(self)@.closed,
    {
        proof {
            use_type_invariant(&*self);
        }
        let ghost all = self.pending@;
        let ghost pred = |x: u64| x != id;
        let mut kept: Vec<u64> = Vec::new();
        assert(all.take(0).filter(pred) =~= Seq::<u64>::empty()) by {
            reveal(Seq::filter);
        }
        for k in 0..self.pending.len()
            invariant
                all == self.pending@,
                pred == (|x: u64| x != id),
                kept@ == all.take(k as int).filter(pred),
        {
            assert(all.take(k + 1) == all.take(k as int).push(all[k as int]));
            proof {
                all.take(k as int).lemma_filter_push(all[k as int], pred);
            }
            if self.pending[k] != id {
                kept.push(self.pending[k]);
            }
        }
        assert(all.take(all.len() as int) == all);
        proof {
            lemma_filter_keeps_distinct(all, pred);
            assert forall|j: int| 0 <= j < kept@.len() implies kept@[j] != id by {
                all.lemma_filter_pred(pred, j);
            }
        }
        self.pending = kept;
    }

    /// Where a decoded response goes. A 1xx is a notification; a reply
    /// tagged with an awaited id goes to its request, which then stops being
    /// awaited; anything else is broadcast.
    pub fn route(&mut self, resp: &Response) -> (r: Route)
        ensures
            r == route_of(old(self)@.pending, resp@),
            final(self)@.pending == match r {
                Route::Deliver(id) => old(self)@.pending.remove(
                    awaited_position(old(self)@.pending, resp@.id->0),
                ),
                Route::Broadcast => old(self)@.pending,
            },
            final(self)@.next_id == old(self)@.next_id,
            final(self)@.closed == old(self)@.closed,
    {
        proof {
            use_type_invariant(&*self);
        }
        if resp.is_notification() {
            return Route::Broadcast;
        }
        let id = match &resp.id {
            Some(id) => chars_of(id.as_str()),
            None => {
                return Route::Broadcast;
            },
        };
        proof {
            lemma_awaited_position(self.pending@, id@);
        }
        let mut k: usize = 0;
        while k < self.pending.len()
            invariant
                k <= self.pending@.len(),
                self.pending@ == old(self)@.pending,
                self@ == old(self)@,
                self.pending@.no_duplicates(),
                resp@.id == Some(id@),
                !(100 <= resp@.code < 200),
                forall|j: int| 0 <= j < k ==> decimal(#[trigger] self.pending@[j] as nat) != id@,
                0 <= awaited_position(self.pending@, id@) <= self.pending@.len(),
                forall|j: int|
                    0 <= j < awaited_position(self.pending@, id@) ==> decimal(
                        #[trigger] self.pending@[j] as nat,
                    ) != id@,
                awaited_position(self.pending@, id@) < self.pending@.len() ==> decimal(
                    self.pending@[awaited_position(self.pending@, id@)] as nat,
                ) == id@,
            decreases self.pending@.len() - k,
        {
            let text = chars_of(crate::text::decimal_string(self.pending[k]).as_str());
            if same_chars(&text, &id) {
                assert(k as int == awaited_position(self.pending@, id@)) by {
                    let pos = awaited_position(self.pending@, id@);
                    if pos < k {
                        assert(decimal(self.pending@[pos] as nat) != id@);
                    }
                    if pos > k {
                        assert(decimal(self.pending@[k as int] as nat) != id@);
                    }
                }
                let mut p: Vec<u64> = Vec::new();
                std::mem::swap(&mut p, &mut self.pending);
                let found = p.remove(k);
                proof {
                    lemma_remove_keeps_distinct(p@, old(self)@.pending, k as int);
                }
                self.pending = p;
                return Route::Deliver(found);
            }
            k = k + 1;
        }
        assert(awaited_position(self.pending@, id@) == self.pending@.len()) by {
            let pos = awaited_position(self.pending@, id@);
            if pos < self.pending@.len() {
                assert(decimal(self.pending@[pos] as nat) != id@);
            }
        }
        Route::Broadcast
    }
}

proof fn lemma_filter_keeps_distinct(s: Seq<u64>, pred: spec_fn(u64) -> bool)
    requires
        s.no_duplicates(),
    ensures
        s.filter(pred).no_duplicates(),
    decreases s.len(),
{
    reveal(Seq::filter);
    if s.len() > 0 {
        let w = s.drop_last();
        assert(w.no_duplicates());
        lemma_filter_keeps_distinct(w, pred);
        w.lemma_filter_push(s.last(), pred);
        assert(s == w.push(s.last()));
        if pred(s.last()) {
            let f = w.filter(pred);
            assert forall|j: int| 0 <= j < f.len() implies f[j] != s.last() by {
                assert(f.contains(f[j]));
                w.lemma_filter_contains_rev(pred, f[j]);
            }
        }
    }
}

proof fn lemma_remove_keeps_distinct(after_remove: Seq<u64>, s: Seq<u64>, k: int)
    requires
        s.no_duplicates(),
        0 <= k < s.len(),
        after_remove == s.remove(k),
    ensures
        after_remove.no_duplicates(),
{
    assert forall|a: int, b: int|
        0 <= a < after_remove.len() && 0 <= b < after_remove.len() && a != b implies after_remove[a]
        != after_remove[b] by {
        let a2 = if a < k { a } else { a + 1 };
        let b2 = if b < k { b } else { b + 1 };
        assert(after_remove[a] == s[a2]);
        assert(after_remove[b] == s[b2]);
    }
}

/// The id `n` requests after `id`.
pub open spec fn ids_after(id: u64, n: int) -> u64
    decreases n,
{
    if n <= 0 {
        id
    } else {
        after(ids_after(id, n - 1))
    }
}

proof fn lemma_ids_after_add(id: u64, a: int, b: int)
    requires
        a >= 0,
        b >= 0,
    ensures
        ids_after(ids_after(id, a), b) == ids_after(id, a + b),
    decreases b,
{
    if b > 0 {
        lemma_ids_after_add(id, a, b - 1);
    }
}

/// The writes for the commands inside a batch, numbered from `first`.
pub open spec fn inner_writes(first: u64, cmds: Seq<CommandView>) -> Seq<(Seq<char>, Option<u64>)>
    decreases cmds.len(),
{
    if cmds.len() == 0 {
        Seq::empty()
    } else {
        inner_writes(first, cmds.drop_last()).push(
            (tagged(ids_after(first, cmds.len() - 1), cmds.last().wire()), None),
        )
    }
}

proof fn lemma_inner_writes_step(first: u64, cmds: Seq<CommandView>, i: int)
    requires
        0 <= i < cmds.len(),
    ensures
        inner_writes(first, cmds.take(i + 1)) == inner_writes(first, cmds.take(i)).push(
            (tagged(ids_after(first, i), cmds[i].wire()), None::<u64>),
        ),
{
    assert(cmds.take(i + 1).drop_last() == cmds.take(i));
    assert(cmds.take(i + 1).last() == cmds[i]);
}

/// Everything a batch of several commands writes, opened under `id`:
/// `BEGIN` under `id`, each command under the ids after it, then `COMMIT`,
/// whose reply is the one awaited.
pub open spec fn batch_writes(id: u64, cmds: Seq<CommandView>) -> Seq<(Seq<char>, Option<u64>)> {
    seq![(begin_line(id), None::<u64>)] + inner_writes(after(id), cmds) + seq![
        ("COMMIT\r\n"@, Some(id)),
    ]
}

/// Settle an awaited reply: for a checked send, an error reply becomes the
/// error `Amcp` naming the command; otherwise the reply is returned as it is.
pub fn settle(checked: Option<String>, resp: Response) -> (r: Result<Response, Error>)
    ensures
        checked is None || resp.code < 400 ==> r == Ok::<Response, Error>(resp),
        checked is Some && resp.code >= 400 ==> r == Err::<Response, Error>(
            Error::Amcp { command: checked->0, code: resp.code, status: resp.status },
        ),
{
    match checked {
        Some(text) => if resp.is_error() {
            Err(Error::Amcp { command: text, code: resp.code, status: resp.status })
        } else {
            Ok(resp)
        },
        None => Ok(resp),
    }
}

/// Whether a notification is the `PONG` a `PING` waits for.
pub fn is_pong(resp: &Response) -> (r: bool)
    ensures
        r == crate::text::starts_with(resp.status@, "PONG"@),
{
    let s = chars_of(resp.status.as_str());
    crate::text::has_prefix(&s, "PONG")
}

proof fn lemma_decimal_shape(n: nat)
    ensures
        decimal(n).len() >= 1,
        n >= 10 ==> decimal(n).len() >= 2,
        n < 10 ==> decimal(n).len() == 1,
    decreases n,
{
    if n >= 10 {
        lemma_decimal_shape(n / 10);
    }
}

proof fn lemma_digit_char_injective(x: nat, y: nat)
    requires
        x < 10,
        y < 10,
        digit_char(x) == digit_char(y),
    ensures
        x == y,
{
    assert(digit_char(x) as u32 == 48 + x);
    assert(digit_char(y) as u32 == 48 + y);
}

/// Different numbers are written differently.
proof fn lemma_decimal_injective(a: nat, b: nat)
    requires
        decimal(a) == decimal(b),
    ensures
        a == b,
    decreases a,
{
    lemma_decimal_shape(a);
    lemma_decimal_shape(b);
    if a >= 10 && b >= 10 {
        assert(decimal(a).last() == digit_char(a % 10));
        assert(decimal(b).last() == digit_char(b % 10));
        assert(decimal(a).drop_last() == decimal(a / 10));
        assert(decimal(b).drop_last() == decimal(b / 10));
        lemma_decimal_injective(a / 10, b / 10);
        lemma_digit_char_injective(a % 10, b % 10);
    } else if a < 10 && b < 10 {
        assert(decimal(a)[0] == digit_char(a));
        assert(decimal(b)[0] == digit_char(b));
        lemma_digit_char_injective(a, b);
    }
}

/// A reply tagged with the id of a request that is waiting goes to that
/// request — whatever order replies arrive in.
pub proof fn lemma_reply_reaches_its_request(pending: Seq<u64>, id: u64, r: ResponseView)
    requires
        pending.contains(id),
        !(100 <= r.code < 200),
        r.id == Some(decimal(id as nat)),
    ensures
        route_of(pending, r) == Route::Deliver(id),
{
    let text = decimal(id as nat);
    lemma_awaited_position(pending, text);
    let k = choose|k: int| 0 <= k < pending.len() && pending[k] == id;
    let pos = awaited_position(pending, text);
    if pos > k {
        assert(decimal(pending[k] as nat) != text);
    }
    assert(pos < pending.len());
    lemma_decimal_injective(pending[pos] as nat, id as nat);
}

/// Each request under a session gets an id of its own: a plan for a request
/// that is written with an id moves the next id on by one per id it uses.
pub proof fn lemma_ids_advance(id: u64, n: int)
    requires
        0 <= n,
        id as int + n <= u64::MAX,
    ensures
        ids_after(id, n) == id + n,
    decreases n,
{
    if n > 0 {
        lemma_ids_advance(id, n - 1);
    }
}

} // verus!
