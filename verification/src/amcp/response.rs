//! Decoding AMCP responses.
//!
//! The framing is entirely determined by the status code, which is why this is
//! a small state machine rather than a line-per-response reader:
//!
//! - `100` — an asynchronous notification, no data.
//! - `101` — a notification with exactly one following line.
//! - `200` — success with *many* lines, terminated by an empty line.
//! - `201` — success with exactly one following line.
//! - `202` — success with no data.
//! - `400` — a malformed command, which the server echoes on one line.
//! - other `4xx` / `5xx` — a failure, single line, no data.
//!
//! Getting this wrong desynchronises the stream for every later command, so the
//! rules are encoded once, here.

use vstd::prelude::*;

use crate::amcp::command::{is_first, lemma_first_unique, split_once};
use crate::text::{
    chars_of, decode_lossy, is_ascii_digit, is_whitespace, sub_bytes, sub_string, trim_start,
    wire_text, whitespace,
};

verus! {

broadcast use vstd::string::group_string_axioms;

/// A decoded response.
#[derive(Debug, Clone, PartialEq, Eq)]
pub struct Response {
    /// The request id echoed back, when the command was sent as
    /// `REQ <id> <COMMAND>` and the server prefixed its reply `RES <id> `.
    pub id: Option<String>,
    /// The AMCP status code.
    pub code: u16,
    /// The rest of the status line — usually `<COMMAND> OK` or a failure note.
    pub status: String,
    /// Data lines, without the terminating empty line of a 200.
    pub lines: Vec<String>,
}

/// The abstract content of a [`Response`].
pub struct ResponseView {
    pub id: Option<Seq<char>>,
    pub code: u16,
    pub status: Seq<char>,
    pub lines: Seq<Seq<char>>,
}

/// The text of an optional string.
pub open spec fn opt_view(o: Option<String>) -> Option<Seq<char>> {
    match o {
        Some(s) => Some(s@),
        None => None,
    }
}

/// The texts of a list of strings.
pub open spec fn texts(v: Seq<String>) -> Seq<Seq<char>> {
    v.map_values(|s: String| s@)
}

impl View for Response {
    type V = ResponseView;

    open spec fn view(&self) -> ResponseView {
        ResponseView {
            id: opt_view(self.id),
            code: self.code,
            status: self.status@,
            lines: texts(self.lines@),
        }
    }
}

/// The views of a list of responses.
pub open spec fn views(v: Seq<Response>) -> Seq<ResponseView> {
    v.map_values(|r: Response| r@)
}

impl Response {
    /// True for 2xx.
    pub fn is_ok(&self) -> (r: bool)
        ensures
            r == (200 <= self.code < 300),
    {
        200 <= self.code && self.code < 300
    }

    /// True for the 1xx asynchronous notifications, which arrive unsolicited
    /// and must not be matched to a pending command.
    pub fn is_notification(&self) -> (r: bool)
        ensures
            r == (100 <= self.code < 200),
    {
        100 <= self.code && self.code < 200
    }

    /// True for 4xx (client fault) and 5xx (server fault).
    pub fn is_error(&self) -> (r: bool)
        ensures
            r == (self.code >= 400),
    {
        self.code >= 400
    }

    /// The single data line of a 201, if there is one.
    pub fn single(&self) -> (r: Option<&str>)
        ensures
            r is None <==> self.lines@.len() == 0,
            r matches Some(s) ==> s@ == self.lines@[0]@,
    {
        if self.lines.len() == 0 {
            None
        } else {
            Some(self.lines[0].as_str())
        }
    }
}

/// The synthetic code given to a `PONG`, which arrives with no status code of
/// its own. 200-range so [`Response::is_ok`] treats it as the success it is.
pub const PONG_CODE: u16 = 200;

/// How many data lines a code carries.
#[derive(Debug, Clone, Copy, PartialEq, Eq, Structural)]
pub enum Framing {
    /// A bare status line.
    NoData,
    /// Exactly one data line follows.
    OneLine,
    /// Data lines follow until an empty line.
    UntilBlank,
}

/// `400` echoes the offending command back on its own line; every other error
/// code is a bare status line.
pub open spec fn framing_for(code: u16) -> Framing {
    if code == 101 || code == 201 || code == 400 {
        Framing::OneLine
    } else if code == 200 {
        Framing::UntilBlank
    } else {
        Framing::NoData
    }
}

fn framing_of(code: u16) -> (r: Framing)
    ensures
        r == framing_for(code),
{
    if code == 101 || code == 201 || code == 400 {
        Framing::OneLine
    } else if code == 200 {
        Framing::UntilBlank
    } else {
        Framing::NoData
    }
}

/// A response whose data lines are still arriving.
pub struct PartialView {
    pub id: Option<Seq<char>>,
    pub code: u16,
    pub status: Seq<char>,
    pub lines: Seq<Seq<char>>,
    pub framing: Framing,
}

/// The decoder's state: bytes not yet ending in a newline, and the response
/// being assembled, if any.
pub struct DecoderView {
    pub buf: Seq<u8>,
    pub partial: Option<PartialView>,
}

/// A finished partial response.
pub open spec fn finish(p: PartialView) -> ResponseView {
    ResponseView { id: p.id, code: p.code, status: p.status, lines: p.lines }
}

/// `prefix` begins `s`.
pub open spec fn starts_with(s: Seq<char>, prefix: Seq<char>) -> bool {
    prefix.len() <= s.len() && s.take(prefix.len() as int) == prefix
}

/// The word a `PING` is answered with.
pub open spec fn pong_word() -> Seq<char> {
    seq!['P', 'O', 'N', 'G']
}

/// The prefix of a reply to a command sent with a request id.
pub open spec fn res_prefix() -> Seq<char> {
    seq!['R', 'E', 'S', ' ']
}

/// The value of an ASCII digit.
pub open spec fn digit_value(c: char) -> int {
    (c as int) - 48
}

/// Split a status line into the request id, the three-digit code and the
/// rest: an optional `RES <id> `, three ASCII digits, then the status text
/// with its leading whitespace removed.
pub open spec fn parse_status(line: Seq<char>) -> Option<(Option<Seq<char>>, u16, Seq<char>)> {
    let head: Option<(Option<Seq<char>>, Seq<char>)> = if starts_with(line, res_prefix()) {
        match split_once(line.skip(4), ' ') {
            Some(parts) => Some((Some(parts.0), parts.1)),
            None => None,
        }
    } else {
        Some((None, line))
    };
    match head {
        None => None,
        Some(h) => {
            let rest = h.1;
            if rest.len() >= 3 && is_ascii_digit(rest[0]) && is_ascii_digit(rest[1])
                && is_ascii_digit(rest[2]) {
                Some(
                    (
                        h.0,
                        (100 * digit_value(rest[0]) + 10 * digit_value(rest[1]) + digit_value(
                            rest[2],
                        )) as u16,
                        trim_start(rest.skip(3)),
                    ),
                )
            } else {
                None
            }
        },
    }
}

/// Apply one line to the state machine: the new partial response, and the
/// response the line completed, if any.
///
/// A line that is neither data for a pending response nor a status line is
/// dropped, which resynchronises at the next status code rather than
/// mis-attributing data to a later command.
pub open spec fn consume(p: Option<PartialView>, line: Seq<char>) -> (
    Option<PartialView>,
    Option<ResponseView>,
) {
    match p {
        Some(pp) => match pp.framing {
            Framing::UntilBlank => if line.len() == 0 {
                (None, Some(finish(pp)))
            } else {
                (Some(PartialView { lines: pp.lines.push(line), ..pp }), None)
            },
            _ => (None, Some(finish(PartialView { lines: pp.lines.push(line), ..pp }))),
        },
        None => if starts_with(line, pong_word()) {
            (
                None,
                Some(
                    ResponseView {
                        id: None,
                        code: PONG_CODE,
                        status: line,
                        lines: Seq::empty(),
                    },
                ),
            )
        } else {
            match parse_status(line) {
                None => (None, None),
                Some(st) => if framing_for(st.1) == Framing::NoData {
                    (
                        None,
                        Some(
                            ResponseView {
                                id: st.0,
                                code: st.1,
                                status: st.2,
                                lines: Seq::empty(),
                            },
                        ),
                    )
                } else {
                    (
                        Some(
                            PartialView {
                                id: st.0,
                                code: st.1,
                                status: st.2,
                                lines: Seq::empty(),
                                framing: framing_for(st.1),
                            },
                        ),
                        None,
                    )
                },
            }
        },
    }
}

/// `i` is the position of the first newline in `b`.
pub open spec fn newline_at(b: Seq<u8>, i: int) -> bool {
    0 <= i < b.len() && b[i] == 10 && forall|j: int| 0 <= j < i ==> b[j] != 10
}

/// A line without its trailing CR, if it has one.
pub open spec fn strip_cr(l: Seq<u8>) -> Seq<u8> {
    if l.len() > 0 && l.last() == 13 {
        l.drop_last()
    } else {
        l
    }
}

/// Every complete (newline-terminated) line in `b`, without its terminator.
pub open spec fn lines_of(b: Seq<u8>) -> Seq<Seq<u8>>
    decreases b.len(),
{
    if exists|i: int| newline_at(b, i) {
        let i = choose|i: int| newline_at(b, i);
        seq![strip_cr(b.take(i))] + lines_of(b.skip(i + 1))
    } else {
        Seq::empty()
    }
}

/// What follows the last newline in `b`.
pub open spec fn rest_of(b: Seq<u8>) -> Seq<u8>
    decreases b.len(),
{
    if exists|i: int| newline_at(b, i) {
        let i = choose|i: int| newline_at(b, i);
        rest_of(b.skip(i + 1))
    } else {
        b
    }
}

/// Run the state machine over complete lines, collecting what they finish.
pub open spec fn decode_lines(p: Option<PartialView>, lines: Seq<Seq<u8>>) -> (
    Option<PartialView>,
    Seq<ResponseView>,
)
    decreases lines.len(),
{
    if lines.len() == 0 {
        (p, Seq::empty())
    } else {
        let before = decode_lines(p, lines.drop_last());
        let step = consume(before.0, wire_text(lines.last()));
        (
            step.0,
            match step.1 {
                Some(r) => before.1.push(r),
                None => before.1,
            },
        )
    }
}

/// What feeding `bytes` to a decoder in state `d` does: the state after, and
/// every response that completed, in order.
pub open spec fn fed(d: DecoderView, bytes: Seq<u8>) -> (DecoderView, Seq<ResponseView>) {
    let all = d.buf + bytes;
    let run = decode_lines(d.partial, lines_of(all));
    (DecoderView { buf: rest_of(all), partial: run.0 }, run.1)
}

#[derive(Debug)]
struct Partial {
    id: Option<String>,
    code: u16,
    status: String,
    lines: Vec<String>,
    framing: Framing,
}

spec fn pview(p: Partial) -> PartialView {
    PartialView {
        id: opt_view(p.id),
        code: p.code,
        status: p.status@,
        lines: texts(p.lines@),
        framing: p.framing,
    }
}

spec fn opt_pview(p: Option<Partial>) -> Option<PartialView> {
    match p {
        Some(q) => Some(pview(q)),
        None => None,
    }
}

spec fn pending_ok(p: Option<Partial>) -> bool {
    p matches Some(q) ==> q.framing != Framing::NoData
}

/// Incremental decoder: feed it bytes, take whole responses out.
#[derive(Debug)]
pub struct Decoder {
    buf: Vec<u8>,
    partial: Option<Partial>,
}

impl View for Decoder {
    type V = DecoderView;

    closed spec fn view(&self) -> DecoderView {
        DecoderView { buf: self.buf@, partial: opt_pview(self.partial) }
    }
}

fn parse_status_exec(line: &Vec<char>) -> (r: Option<(Option<String>, u16, String)>)
    ensures
        match r {
            Some(t) => parse_status(line@) == Some((opt_view(t.0), t.1, t.2@)),
            None => parse_status(line@) is None,
        },
{
    let n = line.len();
    let mut start: usize = 0;
    let mut id: Option<String> = None;
    let ghost head: Option<(Option<Seq<char>>, Seq<char>)>;
    if n >= 4 && line[0] == 'R' && line[1] == 'E' && line[2] == 'S' && line[3] == ' ' {
        assert(starts_with(line@, res_prefix())) by {
            assert(line@.take(4) =~= res_prefix());
        }
        let ghost after = line@.skip(4);
        let mut j: usize = 4;
        while j < n && line[j] != ' '
            invariant
                4 <= j <= n,
                n == line@.len(),
                forall|k: int| 4 <= k < j ==> line@[k] != ' ',
            decreases n - j,
        {
            j = j + 1;
        }
        if j == n {
            proof {
                assert forall|i: int| !is_first(after, ' ', i) by {
                    if is_first(after, ' ', i) {
                        assert(line@[i + 4] == ' ');
                    }
                }
            }
            return None;
        }
        proof {
            assert(is_first(after, ' ', j - 4)) by {
                assert forall|k: int| 0 <= k < j - 4 implies after[k] != ' ' by {
                    assert(after[k] == line@[k + 4]);
                }
            }
            assert forall|i: int| is_first(after, ' ', i) implies i == j - 4 by {
                lemma_first_unique(after, ' ', i, j - 4);
            }
            assert(after.take(j - 4) =~= line@.subrange(4, j as int));
            assert(after.skip(j - 4 + 1) =~= line@.skip(j + 1));
            head = Some((Some(line@.subrange(4, j as int)), line@.skip(j + 1)));
        }
        id = Some(sub_string(line, 4, j));
        start = j + 1;
    } else {
        proof {
            if starts_with(line@, res_prefix()) {
                assert(line@.take(4)[0] == line@[0]);
                assert(line@.take(4)[1] == line@[1]);
                assert(line@.take(4)[2] == line@[2]);
                assert(line@.take(4)[3] == line@[3]);
            }
            head = Some((None, line@));
            assert(line@.skip(0) == line@);
        }
    }
    let ghost rest = line@.skip(start as int);
    if n - start < 3 {
        return None;
    }
    let c0 = line[start];
    let c1 = line[start + 1];
    let c2 = line[start + 2];
    assert(rest[0] == c0 && rest[1] == c1 && rest[2] == c2);
    if !('0' <= c0 && c0 <= '9' && '0' <= c1 && c1 <= '9' && '0' <= c2 && c2 <= '9') {
        return None;
    }
    let code: u16 = 100 * ((c0 as u32 - 48) as u16) + 10 * ((c1 as u32 - 48) as u16) + ((c2 as u32
        - 48) as u16);
    let mut k: usize = start + 3;
    assert(rest.skip(3) =~= line@.subrange(k as int, n as int));
    while k < n && whitespace(line[k])
        invariant
            start + 3 <= k <= n,
            n == line@.len(),
            trim_start(rest.skip(3)) == trim_start(line@.subrange(k as int, n as int)),
        decreases n - k,
    {
        assert(line@.subrange(k as int, n as int).drop_first() =~= line@.subrange(k + 1, n as int));
        k = k + 1;
    }
    let status = sub_string(line, k, n);
    Some((id, code, status))
}

fn consume_exec(partial: Option<Partial>, line: String) -> (r: (Option<Partial>, Option<Response>))
    requires
        pending_ok(partial),
    ensures
        pending_ok(r.0),
        (opt_pview(r.0), match r.1 {
            Some(x) => Some(x@),
            None => None,
        }) == consume(opt_pview(partial), line@),
{
    if let Some(mut p) = partial {
        match p.framing {
            Framing::UntilBlank => {
                if line.as_str().is_empty() {
                    let resp = Response { id: p.id, code: p.code, status: p.status, lines: p.lines };
                    return (None, Some(resp));
                }
                let ghost old_lines = p.lines@;
                p.lines.push(line);
                assert(texts(p.lines@) =~= texts(old_lines).push(line@));
                return (Some(p), None);
            },
            _ => {
                let ghost old_lines = p.lines@;
                p.lines.push(line);
                assert(texts(p.lines@) =~= texts(old_lines).push(line@));
                let resp = Response { id: p.id, code: p.code, status: p.status, lines: p.lines };
                return (None, Some(resp));
            },
        }
    }
    let chars = chars_of(line.as_str());
    let is_pong = chars.len() >= 4 && chars[0] == 'P' && chars[1] == 'O' && chars[2] == 'N'
        && chars[3] == 'G';
    proof {
        if starts_with(line@, pong_word()) {
            assert(chars@.take(4)[0] == chars@[0]);
            assert(chars@.take(4)[1] == chars@[1]);
            assert(chars@.take(4)[2] == chars@[2]);
            assert(chars@.take(4)[3] == chars@[3]);
        }
        if is_pong {
            assert(chars@.take(4) =~= pong_word());
        }
    }
    if is_pong {
        let resp = Response { id: None, code: PONG_CODE, status: line, lines: Vec::new() };
        assert(texts(resp.lines@) =~= Seq::<Seq<char>>::empty());
        return (None, Some(resp));
    }
    match parse_status_exec(&chars) {
        None => (None, None),
        Some((id, code, status)) => {
            let framing = framing_of(code);
            match framing {
                Framing::NoData => {
                    let resp = Response { id, code, status, lines: Vec::new() };
                    assert(texts(resp.lines@) =~= Seq::<Seq<char>>::empty());
                    (None, Some(resp))
                },
                _ => {
                    let p = Partial { id, code, status, lines: Vec::new(), framing };
                    assert(texts(p.lines@) =~= Seq::<Seq<char>>::empty());
                    (Some(p), None)
                },
            }
        },
    }
}

proof fn lemma_newline_unique(b: Seq<u8>, i: int, k: int)
    requires
        newline_at(b, i),
        newline_at(b, k),
    ensures
        i == k,
{
}

impl Decoder {
    #[verifier::type_invariant]
    spec fn inv(self) -> bool {
        pending_ok(self.partial)
    }

    /// A decoder with an empty buffer.
    pub fn new() -> (r: Decoder)
        ensures
            r@ == (DecoderView { buf: Seq::empty(), partial: None }),
    {
        Decoder { buf: Vec::new(), partial: None }
    }

    /// Feed received bytes and return every response that completed.
    ///
    /// Invalid UTF-8 is replaced rather than rejected: a malformed media
    /// filename should not take down the control connection.
    pub fn feed(&mut self, bytes: &[u8]) -> (out: Vec<Response>)
        ensures
            (final(self)@, views(out@)) == fed(old(self)@, bytes@),
    {
        proof {
            use_type_invariant(&*self);
        }
        let ghost d0 = self@;
        let mut all: Vec<u8> = Vec::new();
        for i in 0..self.buf.len()
            invariant
                all@ == self.buf@.take(i as int),
        {
            all.push(self.buf[i]);
            assert(self.buf@.take(i + 1) == self.buf@.take(i as int).push(self.buf@[i as int]));
        }
        assert(self.buf@.take(self.buf.len() as int) == self.buf@);
        let ghost mid = all@;
        for i in 0..bytes.len()
            invariant
                all@ == mid + bytes@.take(i as int),
        {
            all.push(bytes[i]);
            assert(bytes@.take(i + 1) == bytes@.take(i as int).push(bytes@[i as int]));
        }
        assert(bytes@.take(bytes@.len() as int) == bytes@);
        assert(all@ == d0.buf + bytes@);
        let mut partial: Option<Partial> = None;
        std::mem::swap(&mut partial, &mut self.partial);
        let mut out: Vec<Response> = Vec::new();
        let mut pos: usize = 0;
        let ghost mut done: Seq<Seq<u8>> = Seq::empty();
        assert(all@.skip(0) == all@);
        loop
            invariant_except_break
                pos <= all@.len(),
                pending_ok(partial),
                lines_of(all@) == done + lines_of(all@.skip(pos as int)),
                rest_of(all@) == rest_of(all@.skip(pos as int)),
                (opt_pview(partial), views(out@)) == decode_lines(d0.partial, done),
            ensures
                pos <= all@.len(),
                pending_ok(partial),
                lines_of(all@) == done,
                rest_of(all@) == all@.skip(pos as int),
                (opt_pview(partial), views(out@)) == decode_lines(d0.partial, done),
            decreases all@.len() - pos,
        {
            let ghost s = all@.skip(pos as int);
            let mut j: usize = pos;
            while j < all.len() && all[j] != 10
                invariant
                    pos <= j <= all@.len(),
                    forall|k: int| pos <= k < j ==> all@[k] != 10,
                decreases all@.len() - j,
            {
                j = j + 1;
            }
            if j == all.len() {
                proof {
                    assert forall|i: int| !newline_at(s, i) by {
                        if newline_at(s, i) {
                            assert(all@[pos + i] == 10);
                        }
                    }
                    assert(lines_of(s) == Seq::<Seq<u8>>::empty());
                    assert(done + Seq::<Seq<u8>>::empty() == done);
                }
                break;
            }
            let end: usize = if j > pos && all[j - 1] == 13 {
                j - 1
            } else {
                j
            };
            let line_bytes = sub_bytes(&all, pos, end);
            proof {
                let i = (j - pos) as int;
                assert(newline_at(s, i)) by {
                    assert forall|k: int| 0 <= k < i implies s[k] != 10 by {
                        assert(s[k] == all@[pos + k]);
                    }
                }
                assert forall|k: int| newline_at(s, k) implies k == i by {
                    lemma_newline_unique(s, k, i);
                }
                assert(s.take(i) =~= all@.subrange(pos as int, j as int));
                assert(strip_cr(s.take(i)) =~= line_bytes@);
                assert(s.skip(i + 1) =~= all@.skip(j + 1));
                assert(lines_of(s) == seq![line_bytes@] + lines_of(all@.skip(j + 1)));
                assert(rest_of(s) == rest_of(all@.skip(j + 1)));
                assert(done + (seq![line_bytes@] + lines_of(all@.skip(j + 1))) == done.push(
                    line_bytes@,
                ) + lines_of(all@.skip(j + 1)));
                assert(done.push(line_bytes@).drop_last() == done);
            }
            let line = decode_lossy(line_bytes.as_slice());
            let (next, finished) = consume_exec(partial, line);
            partial = next;
            let ghost old_out = out@;
            if let Some(resp) = finished {
                out.push(resp);
                assert(views(out@) =~= views(old_out).push(resp@));
            }
            proof {
                done = done.push(line_bytes@);
            }
            pos = j + 1;
        }
        let rest = sub_bytes(&all, pos, all.len());
        assert(rest@ =~= all@.skip(pos as int));
        self.buf = rest;
        self.partial = partial;
        out
    }
}

proof fn lemma_lines_append(s: Seq<u8>, t: Seq<u8>)
    ensures
        lines_of(s + t) == lines_of(s) + lines_of(rest_of(s) + t),
        rest_of(s + t) == rest_of(rest_of(s) + t),
    decreases s.len(),
{
    if exists|i: int| newline_at(s, i) {
        let i = choose|i: int| newline_at(s, i);
        let st = s + t;
        assert(newline_at(st, i)) by {
            assert forall|j: int| 0 <= j < i implies st[j] != 10 by {
                assert(st[j] == s[j]);
            }
        }
        assert forall|k: int| newline_at(st, k) implies k == i by {
            lemma_newline_unique(st, k, i);
        }
        let s2 = s.skip(i + 1);
        assert(st.skip(i + 1) =~= s2 + t);
        assert(st.take(i) =~= s.take(i));
        lemma_lines_append(s2, t);
        assert(lines_of(st) == seq![strip_cr(s.take(i))] + lines_of(s2 + t));
        assert(lines_of(s) == seq![strip_cr(s.take(i))] + lines_of(s2));
        assert(rest_of(s) == rest_of(s2));
        assert(seq![strip_cr(s.take(i))] + (lines_of(s2) + lines_of(rest_of(s2) + t)) == (seq![
            strip_cr(s.take(i)),
        ] + lines_of(s2)) + lines_of(rest_of(s2) + t));
    } else {
        assert(lines_of(s) == Seq::<Seq<u8>>::empty());
        assert(rest_of(s) == s);
        assert(Seq::<Seq<u8>>::empty() + lines_of(s + t) == lines_of(s + t));
    }
}

proof fn lemma_decode_append(p: Option<PartialView>, l1: Seq<Seq<u8>>, l2: Seq<Seq<u8>>)
    ensures
        decode_lines(p, l1 + l2).0 == decode_lines(decode_lines(p, l1).0, l2).0,
        decode_lines(p, l1 + l2).1 == decode_lines(p, l1).1 + decode_lines(
            decode_lines(p, l1).0,
            l2,
        ).1,
    decreases l2.len(),
{
    let q = decode_lines(p, l1).0;
    if l2.len() == 0 {
        assert(l1 + l2 == l1);
        assert(decode_lines(p, l1).1 + Seq::<ResponseView>::empty() == decode_lines(p, l1).1);
    } else {
        let l = l1 + l2;
        assert(l.drop_last() == l1 + l2.drop_last());
        assert(l.last() == l2.last());
        lemma_decode_append(p, l1, l2.drop_last());
        let before = decode_lines(q, l2.drop_last());
        let step = consume(before.0, wire_text(l2.last()));
        match step.1 {
            Some(r) => {
                assert(decode_lines(p, l1).1 + before.1.push(r) == (decode_lines(p, l1).1
                    + before.1).push(r));
            },
            None => {},
        }
    }
}

/// Only `101`, `200`, `201` and `400` carry data lines. A status line with
/// any other code completes a response by itself, with no data lines, and
/// leaves the decoder between responses: whatever lines come next are read
/// just as they would be from a fresh decoder, starting with a new status
/// line.
pub proof fn lemma_bare_status_stands_alone(first: Seq<u8>, rest: Seq<Seq<u8>>)
    requires
        parse_status(wire_text(first)) is Some,
        !starts_with(wire_text(first), pong_word()),
        (parse_status(wire_text(first))->0).1 != 101,
        (parse_status(wire_text(first))->0).1 != 200,
        (parse_status(wire_text(first))->0).1 != 201,
        (parse_status(wire_text(first))->0).1 != 400,
    ensures
        decode_lines(None, seq![first] + rest).1 == seq![
            ResponseView {
                id: (parse_status(wire_text(first))->0).0,
                code: (parse_status(wire_text(first))->0).1,
                status: (parse_status(wire_text(first))->0).2,
                lines: Seq::empty(),
            },
        ] + decode_lines(None, rest).1,
        decode_lines(None, seq![first] + rest).0 == decode_lines(None, rest).0,
{
    let one = seq![first];
    let st = parse_status(wire_text(first))->0;
    let resp = ResponseView { id: st.0, code: st.1, status: st.2, lines: Seq::empty() };
    assert(one.drop_last() =~= Seq::<Seq<u8>>::empty());
    assert(one.last() == first);
    assert(decode_lines(None, Seq::<Seq<u8>>::empty()) == (
        None::<PartialView>,
        Seq::<ResponseView>::empty(),
    ));
    assert(framing_for(st.1) == Framing::NoData);
    assert(consume(None, wire_text(first)) == (None::<PartialView>, Some(resp)));
    assert(decode_lines(None, one) == (None::<PartialView>, Seq::<ResponseView>::empty().push(resp)));
    lemma_decode_append(None, one, rest);
    assert(Seq::<ResponseView>::empty().push(
        ResponseView {
            id: (parse_status(wire_text(first))->0).0,
            code: (parse_status(wire_text(first))->0).1,
            status: (parse_status(wire_text(first))->0).2,
            lines: Seq::empty(),
        },
    ) =~= seq![
        ResponseView {
            id: (parse_status(wire_text(first))->0).0,
            code: (parse_status(wire_text(first))->0).1,
            status: (parse_status(wire_text(first))->0).2,
            lines: Seq::empty(),
        },
    ]);
}

/// The same on the byte stream: a fresh decoder fed a status line whose code
/// carries no data (anything but `101`, `200`, `201` and `400`), its line
/// end, then more bytes, gives that response with no data lines first, and
/// then exactly what the more bytes give a fresh decoder; it ends in the same
/// state too.
pub proof fn lemma_bare_status_line_fed(line: Seq<u8>, more: Seq<u8>)
    requires
        forall|j: int| 0 <= j < line.len() ==> line[j] != 10,
        parse_status(wire_text(strip_cr(line))) is Some,
        !starts_with(wire_text(strip_cr(line)), pong_word()),
        (parse_status(wire_text(strip_cr(line)))->0).1 != 101,
        (parse_status(wire_text(strip_cr(line)))->0).1 != 200,
        (parse_status(wire_text(strip_cr(line)))->0).1 != 201,
        (parse_status(wire_text(strip_cr(line)))->0).1 != 400,
    ensures
        fed(DecoderView { buf: Seq::empty(), partial: None }, line.push(10) + more).1 == seq![
            ResponseView {
                id: (parse_status(wire_text(strip_cr(line)))->0).0,
                code: (parse_status(wire_text(strip_cr(line)))->0).1,
                status: (parse_status(wire_text(strip_cr(line)))->0).2,
                lines: Seq::empty(),
            },
        ] + fed(DecoderView { buf: Seq::empty(), partial: None }, more).1,
        fed(DecoderView { buf: Seq::empty(), partial: None }, line.push(10) + more).0 == fed(
            DecoderView { buf: Seq::empty(), partial: None },
            more,
        ).0,
{
    let s = line.push(10);
    let n = line.len() as int;
    assert(newline_at(s, n));
    let i = choose|i: int| newline_at(s, i);
    lemma_newline_unique(s, i, n);
    assert(s.take(n) =~= line);
    assert(s.skip(n + 1) =~= Seq::<u8>::empty());
    assert(!exists|k: int| newline_at(Seq::<u8>::empty(), k));
    assert(lines_of(Seq::<u8>::empty()) == Seq::<Seq<u8>>::empty());
    assert(rest_of(Seq::<u8>::empty()) == Seq::<u8>::empty());
    assert(lines_of(s) =~= seq![strip_cr(line)]);
    assert(rest_of(s) == Seq::<u8>::empty());
    lemma_lines_append(s, more);
    assert(Seq::<u8>::empty() + (s + more) =~= s + more);
    assert(Seq::<u8>::empty() + more =~= more);
    lemma_bare_status_stands_alone(strip_cr(line), lines_of(more));
}

/// `101`, `201` and `400` carry exactly one data line: the status line and
/// the line after it make one response whose only data line is that line,
/// whatever it says, and the decoder is between responses again after it.
pub proof fn lemma_one_line_codes(first: Seq<u8>, second: Seq<u8>, rest: Seq<Seq<u8>>)
    requires
        parse_status(wire_text(first)) is Some,
        !starts_with(wire_text(first), pong_word()),
        (parse_status(wire_text(first))->0).1 == 101 || (parse_status(wire_text(first))->0).1
            == 201 || (parse_status(wire_text(first))->0).1 == 400,
    ensures
        decode_lines(None, seq![first, second] + rest).1 == seq![
            ResponseView {
                id: (parse_status(wire_text(first))->0).0,
                code: (parse_status(wire_text(first))->0).1,
                status: (parse_status(wire_text(first))->0).2,
                lines: seq![wire_text(second)],
            },
        ] + decode_lines(None, rest).1,
        decode_lines(None, seq![first, second] + rest).0 == decode_lines(None, rest).0,
{
    let two = seq![first, second];
    let st = parse_status(wire_text(first))->0;
    let p = PartialView {
        id: st.0,
        code: st.1,
        status: st.2,
        lines: Seq::empty(),
        framing: Framing::OneLine,
    };
    let resp = ResponseView { id: st.0, code: st.1, status: st.2, lines: seq![wire_text(second)] };
    assert(two.drop_last() =~= seq![first]);
    assert(two.last() == second);
    let one = seq![first];
    assert(one.drop_last() =~= Seq::<Seq<u8>>::empty());
    assert(one.last() == first);
    assert(decode_lines(None, Seq::<Seq<u8>>::empty()) == (
        None::<PartialView>,
        Seq::<ResponseView>::empty(),
    ));
    assert(consume(None, wire_text(first)) == (Some(p), None::<ResponseView>));
    assert(decode_lines(None, one) == (Some(p), Seq::<ResponseView>::empty()));
    assert(Seq::<Seq<char>>::empty().push(wire_text(second)) =~= seq![wire_text(second)]);
    assert(consume(Some(p), wire_text(second)) == (None::<PartialView>, Some(resp)));
    assert(decode_lines(None, two) == (None::<PartialView>, Seq::<ResponseView>::empty().push(resp)));
    lemma_decode_append(None, two, rest);
    assert(Seq::<ResponseView>::empty().push(resp) =~= seq![resp]);
}

proof fn lemma_collect_until_blank(p: PartialView, data: Seq<Seq<u8>>)
    requires
        p.framing == Framing::UntilBlank,
        forall|i: int| 0 <= i < data.len() ==> wire_text(#[trigger] data[i]).len() > 0,
    ensures
        decode_lines(Some(p), data) == (
            Some(PartialView { lines: p.lines + data.map_values(|l: Seq<u8>| wire_text(l)), ..p }),
            Seq::<ResponseView>::empty(),
        ),
    decreases data.len(),
{
    if data.len() == 0 {
        assert(p.lines + data.map_values(|l: Seq<u8>| wire_text(l)) =~= p.lines);
    } else {
        let front = data.drop_last();
        assert forall|i: int| 0 <= i < front.len() implies wire_text(#[trigger] front[i]).len() > 0 by {
            assert(front[i] == data[i]);
        }
        lemma_collect_until_blank(p, front);
        assert(wire_text(data[data.len() - 1]).len() > 0);
        assert((p.lines + front.map_values(|l: Seq<u8>| wire_text(l))).push(wire_text(data.last()))
            =~= p.lines + data.map_values(|l: Seq<u8>| wire_text(l)));
    }
}

/// `200` carries data lines up to an empty line: the status line, every
/// non-empty line after it, and the empty line that ends them make one
/// response whose data lines are those lines, in order, and the decoder is
/// between responses again after it.
pub proof fn lemma_until_blank_code(
    first: Seq<u8>,
    data: Seq<Seq<u8>>,
    blank: Seq<u8>,
    rest: Seq<Seq<u8>>,
)
    requires
        parse_status(wire_text(first)) is Some,
        !starts_with(wire_text(first), pong_word()),
        (parse_status(wire_text(first))->0).1 == 200,
        forall|i: int| 0 <= i < data.len() ==> wire_text(#[trigger] data[i]).len() > 0,
        wire_text(blank).len() == 0,
    ensures
        decode_lines(None, seq![first] + data + seq![blank] + rest).1 == seq![
            ResponseView {
                id: (parse_status(wire_text(first))->0).0,
                code: 200,
                status: (parse_status(wire_text(first))->0).2,
                lines: data.map_values(|l: Seq<u8>| wire_text(l)),
            },
        ] + decode_lines(None, rest).1,
        decode_lines(None, seq![first] + data + seq![blank] + rest).0 == decode_lines(None, rest).0,
{
    let st = parse_status(wire_text(first))->0;
    let p = PartialView {
        id: st.0,
        code: st.1,
        status: st.2,
        lines: Seq::empty(),
        framing: Framing::UntilBlank,
    };
    let texts = data.map_values(|l: Seq<u8>| wire_text(l));
    let q = PartialView { lines: texts, ..p };
    let resp = ResponseView { id: st.0, code: 200, status: st.2, lines: texts };
    let one = seq![first];
    assert(one.drop_last() =~= Seq::<Seq<u8>>::empty());
    assert(one.last() == first);
    assert(decode_lines(None, Seq::<Seq<u8>>::empty()) == (
        None::<PartialView>,
        Seq::<ResponseView>::empty(),
    ));
    assert(consume(None, wire_text(first)) == (Some(p), None::<ResponseView>));
    assert(decode_lines(None, one) == (Some(p), Seq::<ResponseView>::empty()));
    lemma_collect_until_blank(p, data);
    assert(Seq::<Seq<char>>::empty() + texts =~= texts);
    lemma_decode_append(None, one, data);
    assert(decode_lines(None, one + data) == (Some(q), Seq::<ResponseView>::empty()));
    let b = seq![blank];
    assert(b.drop_last() =~= Seq::<Seq<u8>>::empty());
    assert(b.last() == blank);
    assert(decode_lines(Some(q), Seq::<Seq<u8>>::empty()) == (
        Some(q),
        Seq::<ResponseView>::empty(),
    ));
    assert(consume(Some(q), wire_text(blank)) == (None::<PartialView>, Some(resp)));
    assert(decode_lines(Some(q), b) == (None::<PartialView>, Seq::<ResponseView>::empty().push(resp)));
    lemma_decode_append(None, one + data, b);
    lemma_decode_append(None, one + data + b, rest);
    assert(Seq::<ResponseView>::empty() + Seq::<ResponseView>::empty().push(resp) =~= seq![resp]);
}

/// The code of a status line is its three leading digits read as a decimal
/// number, and its status is the text after the space that follows them.
/// A reply prefixed `RES <id> ` carries that id; one without the prefix
/// carries none.
pub proof fn lemma_status_line_fields(
    id: Option<Seq<char>>,
    c0: char,
    c1: char,
    c2: char,
    text: Seq<char>,
)
    requires
        '0' <= c0 <= '9',
        '0' <= c1 <= '9',
        '0' <= c2 <= '9',
        text.len() == 0 || !is_whitespace(text[0]),
        id matches Some(i) ==> i.len() > 0 && forall|j: int| 0 <= j < i.len() ==> i[j] != ' ',
    ensures
        parse_status(
            match id {
                Some(i) => seq!['R', 'E', 'S', ' '] + i + seq![' ', c0, c1, c2, ' '] + text,
                None => seq![c0, c1, c2, ' '] + text,
            },
        ) == Some(
            (
                id,
                ((c0 as int - 48) * 100 + (c1 as int - 48) * 10 + (c2 as int - 48)) as u16,
                text,
            ),
        ),
{
    let tail = seq![c0, c1, c2, ' '] + text;
    assert(tail.skip(3) =~= seq![' '] + text);
    assert((seq![' '] + text).drop_first() =~= text);
    assert(is_whitespace(' '));
    assert(trim_start(seq![' '] + text) == trim_start(text));
    assert(trim_start(text) == text);
    assert(tail[0] == c0 && tail[1] == c1 && tail[2] == c2);
    match id {
        Some(i) => {
            let line = seq!['R', 'E', 'S', ' '] + i + tail;
            assert(line.take(4) =~= res_prefix());
            let after = line.skip(4);
            assert(after =~= i + tail);
            assert(after[i.len() as int] == c0);
            let body = seq![' ', c0, c1, c2, ' '] + text;
            let line2 = seq!['R', 'E', 'S', ' '] + i + body;
            assert(line2.skip(4) =~= i + body);
            assert(is_first(i + body, ' ', i.len() as int));
            let k = choose|k: int| is_first(i + body, ' ', k);
            lemma_first_unique(i + body, ' ', k, i.len() as int);
            assert((i + body).take(i.len() as int) =~= i);
            assert((i + body).skip(i.len() as int + 1) =~= tail);
            assert(line2.take(4) =~= res_prefix());
            assert(line2 =~= seq!['R', 'E', 'S', ' '] + i + seq![' ', c0, c1, c2, ' '] + text);
        },
        None => {
            assert(!starts_with(tail, res_prefix())) by {
                assert(tail[0] != 'R');
                if starts_with(tail, res_prefix()) {
                    assert(tail.take(4)[0] == res_prefix()[0]);
                }
            }
        },
    }
}

/// A `PONG` line, which has no status code of its own, is a successful
/// reply by itself: code 200, the whole line as its status, no data lines,
/// and the decoder is between responses again after it.
pub proof fn lemma_pong_stands_alone(first: Seq<u8>, rest: Seq<Seq<u8>>)
    requires
        wire_text(first).len() >= 4,
        wire_text(first)[0] == 'P' && wire_text(first)[1] == 'O' && wire_text(first)[2] == 'N'
            && wire_text(first)[3] == 'G',
    ensures
        decode_lines(None, seq![first] + rest).1 == seq![
            ResponseView { id: None, code: 200, status: wire_text(first), lines: Seq::empty() },
        ] + decode_lines(None, rest).1,
        decode_lines(None, seq![first] + rest).0 == decode_lines(None, rest).0,
{
    let one = seq![first];
    let resp = ResponseView { id: None, code: 200, status: wire_text(first), lines: Seq::empty() };
    assert(wire_text(first).take(4) =~= pong_word());
    assert(one.drop_last() =~= Seq::<Seq<u8>>::empty());
    assert(one.last() == first);
    assert(decode_lines(None, Seq::<Seq<u8>>::empty()) == (
        None::<PartialView>,
        Seq::<ResponseView>::empty(),
    ));
    assert(consume(None, wire_text(first)) == (None::<PartialView>, Some(resp)));
    assert(decode_lines(None, one) == (None::<PartialView>, Seq::<ResponseView>::empty().push(resp)));
    lemma_decode_append(None, one, rest);
    assert(Seq::<ResponseView>::empty().push(resp) =~= seq![resp]);
}

/// Bytes may arrive split anywhere: feeding `a` and then `b` finishes the
/// same responses, in the same order, and leaves the decoder in the same
/// state as feeding `a` and `b` together.
pub proof fn lemma_feed_split(d: DecoderView, a: Seq<u8>, b: Seq<u8>)
    ensures
        fed(fed(d, a).0, b).0 == fed(d, a + b).0,
        fed(d, a).1 + fed(fed(d, a).0, b).1 == fed(d, a + b).1,
{
    let s = d.buf + a;
    lemma_lines_append(s, b);
    assert(d.buf + (a + b) == s + b);
    lemma_decode_append(d.partial, lines_of(s), lines_of(rest_of(s) + b));
}

impl Default for Decoder {
    fn default() -> (r: Decoder)
        ensures
            r@ == (DecoderView { buf: Seq::empty(), partial: None }),
    {
        Decoder::new()
    }
}

} // verus!
