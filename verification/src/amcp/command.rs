//! Building AMCP commands for the wire.
//!
//! The escaping rules follow the server's tokenizer: the server splits on
//! spaces, `"` toggles a quoted run, and `\` starts an escape where only `\\`,
//! `\"` and `\n` mean anything (any other escaped character is dropped).
//! Parentheses group a parameter list into one token while unquoted, which is
//! why a value containing them has to be quoted.

use vstd::prelude::*;

use crate::text::{
    chars_of, decimal, decimal_string, is_whitespace, push_char, push_chars, push_decimal, push_str,
    string_from, whitespace,
};

verus! {

broadcast use vstd::string::group_string_axioms;

/// What a command is aimed at.
///
/// AMCP puts the target in the first parameter slot: `PLAY 1-10 AMB` targets
/// channel 1 layer 10. Server-wide commands (`CLS`, `VERSION`) have no target.
#[derive(Debug, Clone, Copy, PartialEq, Eq, Structural)]
pub enum Target {
    /// No target token — a server-wide command.
    Server,
    /// A whole channel, 1-based.
    Channel(u32),
    /// A layer within a channel, both 1-based as AMCP counts them.
    Layer(u32, u32),
}

/// The target token: `c` for a channel, `c-l` for a layer, none for the server.
pub open spec fn target_token(t: Target) -> Option<Seq<char>> {
    match t {
        Target::Server => None,
        Target::Channel(c) => Some(decimal(c as nat)),
        Target::Layer(c, l) => Some(decimal(c as nat) + seq!['-'] + decimal(l as nat)),
    }
}

/// How a target is shown on its own: its token, or `-` for the server.
pub open spec fn target_text(t: Target) -> Seq<char> {
    match target_token(t) {
        Some(tok) => tok,
        None => seq!['-'],
    }
}

impl Target {
    fn token(self) -> (r: Option<String>)
        ensures
            r is None <==> target_token(self) is None,
            r matches Some(s) ==> target_token(self) == Some(s@),
    {
        match self {
            Target::Server => None,
            Target::Channel(c) => Some(decimal_string(c as u64)),
            Target::Layer(c, l) => {
                let mut s = String::new();
                push_decimal(&mut s, c as u64);
                push_char(&mut s, '-');
                push_decimal(&mut s, l as u64);
                Some(s)
            },
        }
    }

    /// The target as text: its token, or `-` for a server-wide command.
    pub fn to_string(self) -> (r: String)
        ensures
            r@ == target_text(self),
    {
        match self.token() {
            Some(t) => t,
            None => {
                let mut s = String::new();
                push_char(&mut s, '-');
                s
            },
        }
    }
}

/// Whether `c` forces a parameter into quotes.
pub open spec fn is_special(c: char) -> bool {
    is_whitespace(c) || c == '"' || c == '\\' || c == '(' || c == ')'
}

/// Quoting is applied for the empty string (so a caller can send a deliberate
/// empty parameter), whitespace, quotes, backslashes and parentheses.
pub open spec fn needs_quotes(v: Seq<char>) -> bool {
    v.len() == 0 || exists|i: int| 0 <= i < v.len() && is_special(#[trigger] v[i])
}

/// How one character is written inside a parameter. A bare CR would end the
/// command line early and the server has no escape for it, so it is written
/// as `\n`.
pub open spec fn escape_char(c: char) -> Seq<char> {
    if c == '\\' {
        seq!['\\', '\\']
    } else if c == '"' {
        seq!['\\', '"']
    } else if c == '\n' || c == '\r' {
        seq!['\\', 'n']
    } else {
        seq![c]
    }
}

/// Every character of `v` escaped, in order.
pub open spec fn escape_body(v: Seq<char>) -> Seq<char>
    decreases v.len(),
{
    if v.len() == 0 {
        Seq::empty()
    } else {
        escape_body(v.drop_last()) + escape_char(v.last())
    }
}

/// A parameter as it goes on the wire: escaped, and quoted when it needs to be.
pub open spec fn escaped(v: Seq<char>) -> Seq<char> {
    if needs_quotes(v) {
        seq!['"'] + escape_body(v) + seq!['"']
    } else {
        escape_body(v)
    }
}

fn special(c: char) -> (r: bool)
    ensures
        r == is_special(c),
{
    whitespace(c) || c == '"' || c == '\\' || c == '(' || c == ')'
}

/// Escape a single parameter, quoting it when the tokenizer would otherwise
/// split or mangle it.
pub fn escape(value: &str) -> (r: String)
    ensures
        r@ == escaped(value@),
{
    let v = chars_of(value);
    let mut quote = v.len() == 0;
    for i in 0..v.len()
        invariant
            v@ == value@,
            quote == (v.len() == 0 || exists|j: int| 0 <= j < i && is_special(#[trigger] v@[j])),
    {
        if special(v[i]) {
            quote = true;
        }
    }
    let mut out = String::new();
    if quote {
        push_char(&mut out, '"');
    }
    let ghost start = out@;
    for i in 0..v.len()
        invariant
            v@ == value@,
            out@ == start + escape_body(v@.take(i as int)),
    {
        let c = v[i];
        if c == '\\' {
            push_char(&mut out, '\\');
            push_char(&mut out, '\\');
        } else if c == '"' {
            push_char(&mut out, '\\');
            push_char(&mut out, '"');
        } else if c == '\n' || c == '\r' {
            push_char(&mut out, '\\');
            push_char(&mut out, 'n');
        } else {
            push_char(&mut out, c);
        }
        assert(v@.take(i + 1).drop_last() == v@.take(i as int));
        assert(escape_body(v@.take(i + 1)) == escape_body(v@.take(i as int)) + escape_char(c));
    }
    assert(v@.take(v.len() as int) == v@);
    if quote {
        push_char(&mut out, '"');
    }
    out
}

/// What an escape sequence `\x` reads back as on the server: `\\`, `\"`
/// and `\n` mean a backslash, a quote and a newline; any other escaped
/// character is dropped.
pub open spec fn unescape_pair(c: char) -> Seq<char> {
    if c == '\\' {
        seq!['\\']
    } else if c == '"' {
        seq!['"']
    } else if c == 'n' {
        seq!['\n']
    } else {
        Seq::empty()
    }
}

/// How the server's tokenizer reads one parameter token back: each `"`
/// toggles a quoted run and is not itself part of the value, `\` starts an
/// escape, and every other character is kept.
pub open spec fn unescape(s: Seq<char>) -> Seq<char>
    decreases s.len(),
{
    if s.len() == 0 {
        Seq::empty()
    } else if s[0] == '"' {
        unescape(s.drop_first())
    } else if s[0] == '\\' {
        if s.len() >= 2 {
            unescape_pair(s[1]) + unescape(s.skip(2))
        } else {
            Seq::empty()
        }
    } else {
        seq![s[0]] + unescape(s.drop_first())
    }
}

/// `v` as the server ends up holding it: a CR was sent as `\n`.
pub open spec fn as_received(v: Seq<char>) -> Seq<char> {
    v.map_values(|c: char| if c == '\r' { '\n' } else { c })
}

proof fn lemma_unescape_body(v: Seq<char>, tail: Seq<char>)
    ensures
        unescape(escape_body(v) + tail) == as_received(v) + unescape(tail),
    decreases v.len(),
{
    if v.len() == 0 {
        assert(escape_body(v) + tail == tail);
        assert(as_received(v) + unescape(tail) == unescape(tail));
    } else {
        let w = v.drop_last();
        let c = v.last();
        let rest = escape_char(c) + tail;
        lemma_unescape_body(w, rest);
        assert(escape_body(v) + tail == escape_body(w) + rest);
        let s = rest;
        if c == '\\' || c == '"' || c == '\n' || c == '\r' {
            assert(s.skip(2) == tail);
        } else {
            assert(s.drop_first() == tail);
        }
        assert(as_received(v) == as_received(w).push(if c == '\r' { '\n' } else { c }));
        assert(as_received(w) + unescape(rest) == as_received(v) + unescape(tail));
    }
}

/// Where the target goes on the wire. A one-word command is followed by its
/// target; a two-word command aimed at a channel or layer has the target
/// between its two words; a command aimed at the server has none. The
/// parameters follow, and CRLF ends the line.
pub proof fn lemma_target_placement(head: Seq<char>, tail: Seq<char>, c: u32, l: u32, ps: Seq<Seq<char>>)
    requires
        forall|j: int| 0 <= j < head.len() ==> head[j] != ' ',
    ensures
        (CommandView { name: head + seq![' '] + tail, target: Target::Layer(c, l), params: ps }).wire()
            == head + seq![' '] + decimal(c as nat) + seq!['-'] + decimal(l as nat) + seq![' ']
            + tail + params_wire(ps) + seq!['\r', '\n'],
        (CommandView { name: head + seq![' '] + tail, target: Target::Channel(c), params: ps }).wire()
            == head + seq![' '] + decimal(c as nat) + seq![' '] + tail + params_wire(ps) + seq![
            '\r',
            '\n',
        ],
        (CommandView { name: head, target: Target::Layer(c, l), params: ps }).wire() == head
            + seq![' '] + decimal(c as nat) + seq!['-'] + decimal(l as nat) + params_wire(ps) + seq![
            '\r',
            '\n',
        ],
        (CommandView { name: head + seq![' '] + tail, target: Target::Server, params: ps }).wire()
            == head + seq![' '] + tail + params_wire(ps) + seq!['\r', '\n'],
{
    let name = head + seq![' '] + tail;
    let n = head.len() as int;
    assert(is_first(name, ' ', n));
    let k = choose|k: int| is_first(name, ' ', k);
    lemma_first_unique(name, ' ', k, n);
    assert(name.take(n) =~= head);
    assert(name.skip(n + 1) =~= tail);
    assert(!exists|k: int| is_first(head, ' ', k));
    assert(head + seq![' '] + decimal(c as nat) + seq!['-'] + decimal(l as nat) + seq![' '] + tail
        =~= head + seq![' '] + (decimal(c as nat) + seq!['-'] + decimal(l as nat)) + seq![' ']
        + tail);
    assert(head + seq![' '] + decimal(c as nat) + seq!['-'] + decimal(l as nat) =~= head + seq![' ']
        + (decimal(c as nat) + seq!['-'] + decimal(l as nat)));
}

/// A parameter survives the trip through the server's tokenizer: reading back
/// what [`escape`] writes gives the parameter back (a CR arrives as a newline,
/// the closest the protocol can carry), and a parameter that is not quoted
/// holds no whitespace, so it stays one token.
pub proof fn lemma_escape_round_trip(v: Seq<char>)
    ensures
        unescape(escaped(v)) == as_received(v),
        !needs_quotes(v) ==> escaped(v) == v,
        !needs_quotes(v) ==> forall|i: int| 0 <= i < escaped(v).len() ==> !is_whitespace(
            #[trigger] escaped(v)[i],
        ),
{
    if needs_quotes(v) {
        let q: Seq<char> = seq!['"'];
        lemma_unescape_body(v, q);
        assert(escaped(v) == q + (escape_body(v) + q));
        assert((q + (escape_body(v) + q)).drop_first() == escape_body(v) + q);
        assert(unescape(q) == unescape(q.drop_first()));
        assert(q.drop_first() == Seq::<char>::empty());
        assert(as_received(v) + Seq::<char>::empty() == as_received(v));
    } else {
        lemma_unescape_body(v, Seq::empty());
        assert(escape_body(v) + Seq::<char>::empty() == escape_body(v));
        assert(as_received(v) + Seq::<char>::empty() == as_received(v));
        lemma_plain_body(v);
    }
}

proof fn lemma_plain_body(v: Seq<char>)
    requires
        forall|i: int| 0 <= i < v.len() ==> !is_special(#[trigger] v[i]),
    ensures
        escape_body(v) == v,
    decreases v.len(),
{
    if v.len() > 0 {
        let w = v.drop_last();
        assert forall|i: int| 0 <= i < w.len() implies !is_special(#[trigger] w[i]) by {
            assert(w[i] == v[i]);
        }
        lemma_plain_body(w);
        assert(!is_special(v[v.len() - 1]));
        assert(v == w.push(v.last()));
    }
}

/// `i` is the first position of `c` in `s`.
pub open spec fn is_first(s: Seq<char>, c: char, i: int) -> bool {
    0 <= i < s.len() && s[i] == c && forall|j: int| 0 <= j < i ==> s[j] != c
}

/// `str::split_once` on a character: the text before and after its first
/// occurrence.
pub open spec fn split_once(s: Seq<char>, c: char) -> Option<(Seq<char>, Seq<char>)> {
    if exists|i: int| is_first(s, c, i) {
        let i = choose|i: int| is_first(s, c, i);
        Some((s.take(i), s.skip(i + 1)))
    } else {
        None
    }
}

pub proof fn lemma_first_unique(s: Seq<char>, c: char, i: int, k: int)
    requires
        is_first(s, c, i),
        is_first(s, c, k),
    ensures
        i == k,
{
}

/// Where `c` first occurs in `v`.
pub fn find_char(v: &Vec<char>, c: char) -> (r: Option<usize>)
    ensures
        r matches Some(i) ==> is_first(v@, c, i as int),
        r is None ==> forall|j: int| 0 <= j < v@.len() ==> v@[j] != c,
{
    for i in 0..v.len()
        invariant
            forall|j: int| 0 <= j < i ==> v@[j] != c,
    {
        if v[i] == c {
            return Some(i);
        }
    }
    None
}

/// The name-and-target part of a command line.
///
/// The server pops **one** token as the command name, then parses the
/// channel spec, and only then joins the next token as a sub-command. So a
/// two-word command aimed at a channel has the target **between** its words.
pub open spec fn wire_head(name: Seq<char>, target: Target) -> Seq<char> {
    match (split_once(name, ' '), target_token(target)) {
        (Some(parts), Some(t)) => parts.0 + seq![' '] + t + seq![' '] + parts.1,
        (None, Some(t)) => name + seq![' '] + t,
        (_, None) => name,
    }
}

/// Each parameter, preceded by a space, escaped.
pub open spec fn params_wire(ps: Seq<Seq<char>>) -> Seq<char>
    decreases ps.len(),
{
    if ps.len() == 0 {
        Seq::empty()
    } else {
        params_wire(ps.drop_last()) + seq![' '] + escaped(ps.last())
    }
}

/// Drop every trailing `\r\n`, as `trim_end_matches("\r\n")` does.
pub open spec fn trim_crlf(s: Seq<char>) -> Seq<char>
    decreases s.len(),
{
    if s.len() >= 2 && s[s.len() - 2] == '\r' && s[s.len() - 1] == '\n' {
        trim_crlf(s.take(s.len() - 2))
    } else {
        s
    }
}

/// The abstract content of a [`Command`].
pub struct CommandView {
    pub name: Seq<char>,
    pub target: Target,
    pub params: Seq<Seq<char>>,
}

impl CommandView {
    /// The command as sent, including the trailing CRLF.
    pub open spec fn wire(self) -> Seq<char> {
        wire_head(self.name, self.target) + params_wire(self.params) + seq!['\r', '\n']
    }

    /// The wire form without its CRLF — for logs and the command console.
    pub open spec fn text(self) -> Seq<char> {
        trim_crlf(self.wire())
    }
}

/// The abstract contents of a list of commands.
pub open spec fn command_views(v: Seq<Command>) -> Seq<CommandView> {
    v.map_values(|c: Command| c@)
}

/// One AMCP command: a name, an optional target, and parameters.
///
/// Built fluently so call sites read like the protocol does:
/// `Command::new("PLAY").layer(1, 10).arg("AMB").arg("LOOP")`.
#[derive(Debug, Clone, PartialEq, Eq)]
pub struct Command {
    name: String,
    target: Target,
    params: Vec<String>,
}

impl View for Command {
    type V = CommandView;

    closed spec fn view(&self) -> CommandView {
        CommandView {
            name: self.name@,
            target: self.target,
            params: self.params@.map_values(|p: String| p@),
        }
    }
}

impl Command {
    /// A new command. `name` may contain spaces for the two-word commands
    /// (`MIXER OPACITY`, `DATA STORE`, `CG ADD`) — it is emitted verbatim.
    pub fn new(name: &str) -> (r: Command)
        ensures
            r@ == (CommandView { name: name@, target: Target::Server, params: Seq::empty() }),
    {
        let r = Command { name: string_from(name), target: Target::Server, params: Vec::new() };
        assert(r@.params =~= Seq::<Seq<char>>::empty());
        r
    }

    /// Aim the command at a whole channel.
    pub fn channel(self, ch: u32) -> (r: Command)
        ensures
            r@ == (CommandView { target: Target::Channel(ch), ..self@ }),
    {
        Command { target: Target::Channel(ch), ..self }
    }

    /// Aim the command at a layer within a channel.
    pub fn layer(self, ch: u32, layer: u32) -> (r: Command)
        ensures
            r@ == (CommandView { target: Target::Layer(ch, layer), ..self@ }),
    {
        Command { target: Target::Layer(ch, layer), ..self }
    }

    /// Aim the command at an explicit [`Target`].
    pub fn target(self, target: Target) -> (r: Command)
        ensures
            r@ == (CommandView { target: target, ..self@ }),
    {
        Command { target, ..self }
    }

    /// Append a parameter. It is escaped and quoted only when the command is
    /// written out, and only if it needs to be.
    pub fn arg(self, value: &str) -> (r: Command)
        ensures
            r@ == (CommandView { params: self@.params.push(value@), ..self@ }),
    {
        let mut params = self.params;
        params.push(string_from(value));
        let r = Command { name: self.name, target: self.target, params };
        assert(r@.params =~= self@.params.push(value@));
        r
    }

    /// Append a non-negative integer parameter, in decimal.
    pub fn arg_num(self, value: u64) -> (r: Command)
        ensures
            r@ == (CommandView { params: self@.params.push(decimal(value as nat)), ..self@ }),
    {
        let mut params = self.params;
        params.push(decimal_string(value));
        let r = Command { name: self.name, target: self.target, params };
        assert(r@.params =~= self@.params.push(decimal(value as nat)));
        r
    }

    /// Append a parameter only when `value` is `Some`, for AMCP's many
    /// optional trailing parameters.
    pub fn opt(self, value: Option<&str>) -> (r: Command)
        ensures
            r@ == (match value {
                Some(v) => CommandView { params: self@.params.push(v@), ..self@ },
                None => self@,
            }),
    {
        match value {
            Some(v) => self.arg(v),
            None => self,
        }
    }

    /// Append several parameters.
    pub fn args(self, values: &[&str]) -> (r: Command)
        ensures
            r@ == (CommandView {
                params: self@.params + values@.map_values(|v: &str| v@),
                ..self@
            }),
    {
        let mut c = self;
        let ghost start = c@;
        for i in 0..values.len()
            invariant
                c@ == (CommandView {
                    params: start.params + values@.take(i as int).map_values(|v: &str| v@),
                    ..start
                }),
        {
            c = c.arg(values[i]);
            assert(values@.take(i + 1).map_values(|v: &str| v@) =~= values@.take(
                i as int,
            ).map_values(|v: &str| v@).push(values@[i as int]@));
        }
        assert(values@.take(values.len() as int) =~= values@);
        c
    }

    /// The command name as given.
    pub fn name(&self) -> (r: &str)
        ensures
            r@ == self@.name,
    {
        self.name.as_str()
    }

    /// The command's target.
    pub fn get_target(&self) -> (r: Target)
        ensures
            r == self@.target,
    {
        self.target
    }

    /// Serialise to the wire, including the trailing CRLF.
    pub fn to_wire(&self) -> (r: String)
        ensures
            r@ == self@.wire(),
    {
        let name = chars_of(self.name.as_str());
        let mut out = String::new();
        let tok = self.target.token();
        match tok {
            Some(t) => {
                match find_char(&name, ' ') {
                    Some(i) => {
                        for k in 0..i
                            invariant
                                i < name.len(),
                                out@ == name@.take(k as int),
                        {
                            push_char(&mut out, name[k]);
                            assert(name@.take(k + 1) == name@.take(k as int).push(name@[k as int]));
                        }
                        push_char(&mut out, ' ');
                        push_str(&mut out, t.as_str());
                        push_char(&mut out, ' ');
                        let ghost mid = out@;
                        for k in i + 1..name.len()
                            invariant
                                i < name.len(),
                                i + 1 <= k <= name.len(),
                                out@ == mid + name@.subrange(i + 1, k as int),
                        {
                            push_char(&mut out, name[k]);
                            assert(name@.subrange(i + 1, k + 1) == name@.subrange(
                                i + 1,
                                k as int,
                            ).push(name@[k as int]));
                        }
                        proof {
                            assert(is_first(name@, ' ', i as int));
                            assert forall|j: int| is_first(name@, ' ', j) implies j == i by {
                                lemma_first_unique(name@, ' ', i as int, j);
                            }
                            assert(name@.skip(i + 1) == name@.subrange(i + 1, name@.len() as int));
                        }
                    },
                    None => {
                        push_chars(&mut out, &name);
                        push_char(&mut out, ' ');
                        push_str(&mut out, t.as_str());
                    },
                }
            },
            None => {
                push_chars(&mut out, &name);
            },
        }
        assert(out@ == wire_head(self@.name, self@.target));
        let ghost head = out@;
        for i in 0..self.params.len()
            invariant
                head == wire_head(self@.name, self@.target),
                self@.params == self.params@.map_values(|p: String| p@),
                out@ == head + params_wire(self@.params.take(i as int)),
        {
            push_char(&mut out, ' ');
            let e = escape(self.params[i].as_str());
            push_str(&mut out, e.as_str());
            assert(self@.params.take(i + 1).drop_last() == self@.params.take(i as int));
        }
        assert(self@.params.take(self.params.len() as int) == self@.params);
        push_char(&mut out, '\r');
        push_char(&mut out, '\n');
        out
    }

    /// The wire form without the CRLF — for logs and the command console.
    pub fn to_string(&self) -> (r: String)
        ensures
            r@ == self@.text(),
    {
        let w = chars_of(self.to_wire().as_str());
        let mut n = w.len();
        assert(w@.take(w.len() as int) == w@);
        while n >= 2 && w[n - 2] == '\r' && w[n - 1] == '\n'
            invariant
                n <= w.len(),
                trim_crlf(w@) == trim_crlf(w@.take(n as int)),
            decreases n,
        {
            assert(w@.take(n as int).take(n - 2) == w@.take(n - 2));
            n = n - 2;
        }
        let mut out = String::new();
        for i in 0..n
            invariant
                n <= w.len(),
                out@ == w@.take(i as int),
        {
            push_char(&mut out, w[i]);
            assert(w@.take(i + 1) == w@.take(i as int).push(w@[i as int]));
        }
        out
    }
}

} // verus!
