//! The telemetry state tree.
//!
//! CasparCG pushes its whole monitor state as OSC every frame, one message per
//! leaf: `/channel/1/stage/layer/10/foreground/file/time` and so on. Leaves are
//! held flat, keyed by their full OSC address without its leading slashes, in
//! address order, each with the packet number it was last reported in.
//!
//! The server never retracts a key: when a producer changes, the keys that no
//! longer apply simply stop being sent. So a key that goes unreported for
//! [`STALE_AFTER_PACKETS`] packets is dropped. Counted in packets rather than
//! seconds, it needs no clock and stays deterministic.

use vstd::prelude::*;

use crate::osc::decode::{Message, MessageView, Value, ValueView};
use crate::osc::tree::{raw_of, RawTree};
use crate::text::{chars_of, string_of};

verus! {

broadcast use vstd::string::group_string_axioms;

/// How many packets a key may go unreported before it is dropped.
pub const STALE_AFTER_PACKETS: u64 = 50;

// ------------------------------------------------------------------ ordering

/// Lexicographic order on text by code point — the order `String` sorts in.
pub open spec fn lex_lt(a: Seq<char>, b: Seq<char>) -> bool
    decreases a.len(),
{
    if a.len() == 0 {
        b.len() > 0
    } else if b.len() == 0 {
        false
    } else if a[0] < b[0] {
        true
    } else if a[0] == b[0] {
        lex_lt(a.drop_first(), b.drop_first())
    } else {
        false
    }
}

pub proof fn lemma_lex_irreflexive(a: Seq<char>)
    ensures
        !lex_lt(a, a),
    decreases a.len(),
{
    if a.len() > 0 {
        lemma_lex_irreflexive(a.drop_first());
    }
}

pub proof fn lemma_lex_transitive(a: Seq<char>, b: Seq<char>, c: Seq<char>)
    requires
        lex_lt(a, b),
        lex_lt(b, c),
    ensures
        lex_lt(a, c),
    decreases a.len(),
{
    if a.len() > 0 && b.len() > 0 && c.len() > 0 {
        if a[0] == b[0] && b[0] == c[0] {
            lemma_lex_transitive(a.drop_first(), b.drop_first(), c.drop_first());
        }
    }
}

pub proof fn lemma_lex_total(a: Seq<char>, b: Seq<char>)
    requires
        a != b,
    ensures
        lex_lt(a, b) || lex_lt(b, a),
    decreases a.len(),
{
    if a.len() > 0 && b.len() > 0 && a[0] == b[0] {
        if a.drop_first() == b.drop_first() {
            assert(a =~= seq![a[0]] + a.drop_first());
            assert(b =~= seq![b[0]] + b.drop_first());
        }
        lemma_lex_total(a.drop_first(), b.drop_first());
    } else if a.len() > 0 && b.len() > 0 {
    } else if a.len() == 0 && b.len() == 0 {
        assert(a =~= b);
    }
}

/// Whether `a` sorts before `b`.
pub fn text_lt(a: &Vec<char>, b: &Vec<char>) -> (r: bool)
    ensures
        r == lex_lt(a@, b@),
{
    let mut i: usize = 0;
    assert(a@.skip(0) == a@ && b@.skip(0) == b@);
    while i < a.len() && i < b.len() && a[i] == b[i]
        invariant
            i <= a@.len(),
            i <= b@.len(),
            lex_lt(a@, b@) == lex_lt(a@.skip(i as int), b@.skip(i as int)),
        decreases a@.len() - i,
    {
        assert(a@.skip(i as int).drop_first() == a@.skip(i + 1));
        assert(b@.skip(i as int).drop_first() == b@.skip(i + 1));
        i = i + 1;
    }
    if i == a.len() {
        i < b.len()
    } else if i == b.len() {
        false
    } else {
        a[i] < b[i]
    }
}

fn text_eq(a: &Vec<char>, b: &Vec<char>) -> (r: bool)
    ensures
        r == (a@ == b@),
{
    if a.len() != b.len() {
        return false;
    }
    for i in 0..a.len()
        invariant
            a@.len() == b@.len(),
            forall|k: int| 0 <= k < i ==> a@[k] == b@[k],
    {
        if a[i] != b[i] {
            return false;
        }
    }
    assert(a@ =~= b@);
    true
}

// ------------------------------------------------------------------- values

/// One telemetry value, as the raw tree holds it. Numbers that arrived as
/// floats keep their IEEE 754 bits.
#[derive(Debug, Clone, PartialEq)]
pub enum Scalar {
    Null,
    Bool(bool),
    /// A signed integer (OSC `i` and `h`).
    Int(i64),
    /// A size: a blob is reported by its length, its bytes are not useful here.
    Count(u64),
    /// A finite 32-bit float, as its bits.
    Float(u32),
    /// A finite 64-bit float, as its bits.
    Double(u64),
    Text(String),
}

/// The abstract content of a [`Scalar`].
pub enum ScalarView {
    Null,
    Bool(bool),
    Int(i64),
    Count(u64),
    Float(u32),
    Double(u64),
    Text(Seq<char>),
}

impl View for Scalar {
    type V = ScalarView;

    open spec fn view(&self) -> ScalarView {
        match self {
            Scalar::Null => ScalarView::Null,
            Scalar::Bool(b) => ScalarView::Bool(*b),
            Scalar::Int(i) => ScalarView::Int(*i),
            Scalar::Count(n) => ScalarView::Count(*n),
            Scalar::Float(b) => ScalarView::Float(*b),
            Scalar::Double(b) => ScalarView::Double(*b),
            Scalar::Text(s) => ScalarView::Text(s@),
        }
    }
}

/// What a message's arguments become: one value, or a list of several.
#[derive(Debug, Clone, PartialEq)]
pub enum Reading {
    Single(Scalar),
    List(Vec<Scalar>),
}

/// The abstract content of a [`Reading`].
pub enum ReadingView {
    Single(ScalarView),
    List(Seq<ScalarView>),
}

impl View for Reading {
    type V = ReadingView;

    open spec fn view(&self) -> ReadingView {
        match self {
            Reading::Single(s) => ReadingView::Single(s@),
            Reading::List(v) => ReadingView::List(v@.map_values(|s: Scalar| s@)),
        }
    }
}

/// A 32-bit float's bits describe a finite number.
pub open spec fn finite32(bits: u32) -> bool {
    (bits / 0x80_0000) % 0x100 != 0xFF
}

/// A 64-bit float's bits describe a finite number.
pub open spec fn finite64(bits: u64) -> bool {
    (bits / 0x10_0000_0000_0000) % 0x800 != 0x7FF
}

/// How an OSC argument is recorded. A non-finite float has no JSON number
/// and is recorded as null, as is an impulse.
pub open spec fn scalar_of(v: ValueView) -> ScalarView {
    match v {
        ValueView::Int(i) => ScalarView::Int(i as i64),
        ValueView::Long(i) => ScalarView::Int(i),
        ValueView::Float(b) => if finite32(b) {
            ScalarView::Float(b)
        } else {
            ScalarView::Null
        },
        ValueView::Double(b) => if finite64(b) {
            ScalarView::Double(b)
        } else {
            ScalarView::Null
        },
        ValueView::String(s) => ScalarView::Text(s),
        ValueView::Blob(b) => ScalarView::Count(b.len() as u64),
        ValueView::Bool(b) => ScalarView::Bool(b),
        ValueView::Null => ScalarView::Null,
        ValueView::Impulse => ScalarView::Null,
    }
}

/// What a message's arguments are recorded as: null for none, the value for
/// one, a list for several.
pub open spec fn reading_of(args: Seq<ValueView>) -> ReadingView {
    if args.len() == 0 {
        ReadingView::Single(ScalarView::Null)
    } else if args.len() == 1 {
        ReadingView::Single(scalar_of(args[0]))
    } else {
        ReadingView::List(args.map_values(|v: ValueView| scalar_of(v)))
    }
}

fn to_scalar(v: &Value) -> (r: Scalar)
    ensures
        r@ == scalar_of(v@),
{
    match v {
        Value::Int(i) => Scalar::Int(*i as i64),
        Value::Long(i) => Scalar::Int(*i),
        Value::Float(b) => {
            if (*b / 0x80_0000) % 0x100 != 0xFF {
                Scalar::Float(*b)
            } else {
                Scalar::Null
            }
        },
        Value::Double(b) => {
            if (*b / 0x10_0000_0000_0000) % 0x800 != 0x7FF {
                Scalar::Double(*b)
            } else {
                Scalar::Null
            }
        },
        Value::String(s) => Scalar::Text(s.clone()),
        Value::Blob(b) => Scalar::Count(b.len() as u64),
        Value::Bool(b) => Scalar::Bool(*b),
        Value::Null => Scalar::Null,
        Value::Impulse => Scalar::Null,
    }
}

fn to_reading(args: &Vec<Value>) -> (r: Reading)
    ensures
        r@ == reading_of(args@.map_values(|v: Value| v@)),
{
    let ghost views = args@.map_values(|v: Value| v@);
    if args.len() == 0 {
        return Reading::Single(Scalar::Null);
    }
    if args.len() == 1 {
        return Reading::Single(to_scalar(&args[0]));
    }
    let mut out: Vec<Scalar> = Vec::new();
    for i in 0..args.len()
        invariant
            views == args@.map_values(|v: Value| v@),
            out@.map_values(|s: Scalar| s@) == views.take(i as int).map_values(
                |v: ValueView| scalar_of(v),
            ),
    {
        let s = to_scalar(&args[i]);
        let ghost before = out@.map_values(|s: Scalar| s@);
        out.push(s);
        assert(out@.map_values(|s: Scalar| s@) =~= before.push(s@));
        assert(views.take(i + 1).map_values(|v: ValueView| scalar_of(v)) =~= views.take(
            i as int,
        ).map_values(|v: ValueView| scalar_of(v)).push(scalar_of(views[i as int])));
    }
    assert(views.take(args.len() as int) == views);
    Reading::List(out)
}

// ------------------------------------------------------------------- leaves

/// One reported key: its path, its value, and the packet it was last seen in.
pub struct LeafView {
    pub path: Seq<char>,
    pub value: ReadingView,
    pub seen: u64,
}

/// The state: every live leaf in path order, and the packet count.
pub struct TelemetryView {
    pub leaves: Seq<LeafView>,
    pub generation: u64,
}

/// Leaves strictly in path order — so no path occurs twice.
pub open spec fn sorted(s: Seq<LeafView>) -> bool {
    forall|i: int, j: int| 0 <= i < j < s.len() ==> lex_lt(s[i].path, s[j].path)
}

/// A well-formed state: sorted, and nothing seen in a packet yet to come.
pub open spec fn wf(t: TelemetryView) -> bool {
    &&& sorted(t.leaves)
    &&& forall|i: int| 0 <= i < t.leaves.len() ==> #[trigger] t.leaves[i].seen <= t.generation
}

/// The leaf recorded for `path`, if any.
pub open spec fn lookup(s: Seq<LeafView>, path: Seq<char>) -> Option<LeafView> {
    if exists|i: int| 0 <= i < s.len() && s[i].path == path {
        let i = choose|i: int| 0 <= i < s.len() && s[i].path == path;
        Some(s[i])
    } else {
        None
    }
}

/// `s` with `leaf` recorded: its old entry replaced, or a new one put in
/// path order.
pub open spec fn upsert(s: Seq<LeafView>, leaf: LeafView) -> Seq<LeafView> {
    let i = choose|i: int|
        0 <= i <= s.len() && (forall|j: int| 0 <= j < i ==> lex_lt(s[j].path, leaf.path)) && (i
            < s.len() ==> !lex_lt(s[i].path, leaf.path));
    if i < s.len() && s[i].path == leaf.path {
        s.update(i, leaf)
    } else {
        s.insert(i, leaf)
    }
}

/// An address without its leading slashes.
pub open spec fn trim_slashes(s: Seq<char>) -> Seq<char>
    decreases s.len(),
{
    if s.len() > 0 && s[0] == '/' {
        trim_slashes(s.drop_first())
    } else {
        s
    }
}

/// Record one message in packet `generation`. An address that is nothing but
/// slashes is ignored.
pub open spec fn apply_message(t: TelemetryView, m: MessageView) -> TelemetryView {
    let path = trim_slashes(m.address);
    if path.len() == 0 {
        t
    } else {
        TelemetryView {
            leaves: upsert(
                t.leaves,
                LeafView { path, value: reading_of(m.args), seen: t.generation },
            ),
            ..t
        }
    }
}

/// Record messages in order.
pub open spec fn apply_messages(t: TelemetryView, ms: Seq<MessageView>) -> TelemetryView
    decreases ms.len(),
{
    if ms.len() == 0 {
        t
    } else {
        apply_message(apply_messages(t, ms.drop_last()), ms.last())
    }
}

/// The oldest packet a leaf may have been seen in and still be kept.
pub open spec fn cutoff(generation: u64) -> int {
    if generation >= STALE_AFTER_PACKETS {
        generation - STALE_AFTER_PACKETS
    } else {
        0
    }
}

/// Whether a leaf survives expiry at `generation`.
pub open spec fn live(l: LeafView, generation: u64) -> bool {
    l.seen >= cutoff(generation)
}

/// The leaves of `s` that survive expiry at `generation`.
pub open spec fn expire(s: Seq<LeafView>, generation: u64) -> Seq<LeafView> {
    s.filter(|l: LeafView| live(l, generation))
}

/// One packet: count it, record its messages, then drop what has stopped
/// being reported.
pub open spec fn apply_packet(t: TelemetryView, ms: Seq<MessageView>) -> TelemetryView {
    let counted = TelemetryView { generation: (t.generation + 1) as u64, ..t };
    let recorded = apply_messages(counted, ms);
    TelemetryView { leaves: expire(recorded.leaves, recorded.generation), ..recorded }
}

// ------------------------------------------------------------ leaf algebra

proof fn lemma_position_unique(s: Seq<LeafView>, k: Seq<char>, a: int, b: int)
    requires
        0 <= a <= s.len(),
        0 <= b <= s.len(),
        forall|j: int| 0 <= j < a ==> lex_lt(s[j].path, k),
        a < s.len() ==> !lex_lt(s[a].path, k),
        forall|j: int| 0 <= j < b ==> lex_lt(s[j].path, k),
        b < s.len() ==> !lex_lt(s[b].path, k),
    ensures
        a == b,
{
}

/// The facts about [`upsert`] at its insertion point `i`.
proof fn lemma_upsert_at(s: Seq<LeafView>, leaf: LeafView, i: int)
    requires
        sorted(s),
        0 <= i <= s.len(),
        forall|j: int| 0 <= j < i ==> lex_lt(s[j].path, leaf.path),
        i < s.len() ==> !lex_lt(s[i].path, leaf.path),
    ensures
        upsert(s, leaf) == (if i < s.len() && s[i].path == leaf.path {
            s.update(i, leaf)
        } else {
            s.insert(i, leaf)
        }),
        sorted(upsert(s, leaf)),
        lookup(upsert(s, leaf), leaf.path) == Some(leaf),
        forall|p: Seq<char>| p != leaf.path ==> lookup(upsert(s, leaf), p) == lookup(s, p),
        forall|k: int|
            0 <= k < upsert(s, leaf).len() ==> #[trigger] upsert(s, leaf)[k] == leaf || s.contains(
                upsert(s, leaf)[k],
            ),
{
    let c = choose|c: int|
        0 <= c <= s.len() && (forall|j: int| 0 <= j < c ==> lex_lt(s[j].path, leaf.path)) && (c
            < s.len() ==> !lex_lt(s[c].path, leaf.path));
    lemma_position_unique(s, leaf.path, i, c);
    let u = upsert(s, leaf);
    if i < s.len() && s[i].path == leaf.path {
        assert(u == s.update(i, leaf));
        assert(sorted(u));
        assert forall|p: Seq<char>| p != leaf.path implies lookup(u, p) == lookup(s, p) by {
            if exists|x: int| 0 <= x < s.len() && s[x].path == p {
                let x = choose|x: int| 0 <= x < s.len() && s[x].path == p;
                assert(u[x].path == p);
                let y = choose|y: int| 0 <= y < u.len() && u[y].path == p;
                if x != y {
                    if x < y {
                        lemma_lex_irreflexive(p);
                    } else {
                        lemma_lex_irreflexive(p);
                    }
                }
            } else {
                assert forall|y: int| 0 <= y < u.len() implies u[y].path != p by {
                    if y != i {
                        assert(u[y] == s[y]);
                    }
                }
            }
        }
        assert forall|k: int| 0 <= k < u.len() implies #[trigger] u[k] == leaf || s.contains(u[k]) by {
            if k != i {
                assert(u[k] == s[k]);
            }
        }
        assert(u[i].path == leaf.path);
        let y = choose|y: int| 0 <= y < u.len() && u[y].path == leaf.path;
        if y != i {
            lemma_lex_irreflexive(leaf.path);
        }
    } else {
        assert(u == s.insert(i, leaf));
        if i < s.len() {
            lemma_lex_total(s[i].path, leaf.path);
        }
        assert forall|a: int, b: int| 0 <= a < b < u.len() implies lex_lt(u[a].path, u[b].path) by {
            if b < i {
            } else if b == i {
            } else if a < i {
                assert(u[b] == s[b - 1]);
                if b - 1 > i {
                    lemma_lex_transitive(leaf.path, s[i].path, s[b - 1].path);
                }
                lemma_lex_transitive(u[a].path, leaf.path, u[b].path);
            } else if a == i {
                assert(u[b] == s[b - 1]);
                if b - 1 > i {
                    lemma_lex_transitive(leaf.path, s[i].path, s[b - 1].path);
                }
            } else {
                assert(u[a] == s[a - 1]);
                assert(u[b] == s[b - 1]);
            }
        }
        assert forall|k: int| 0 <= k < u.len() implies #[trigger] u[k] == leaf || s.contains(u[k]) by {
            if k < i {
                assert(u[k] == s[k]);
            } else if k > i {
                assert(u[k] == s[k - 1]);
            }
        }
        assert(u[i] == leaf);
        let y = choose|y: int| 0 <= y < u.len() && u[y].path == leaf.path;
        if y != i {
            lemma_lex_irreflexive(leaf.path);
        }
        assert forall|p: Seq<char>| p != leaf.path implies lookup(u, p) == lookup(s, p) by {
            if exists|x: int| 0 <= x < s.len() && s[x].path == p {
                let x = choose|x: int| 0 <= x < s.len() && s[x].path == p;
                let x2 = if x < i { x } else { x + 1 };
                assert(u[x2] == s[x]);
                let yy = choose|yy: int| 0 <= yy < u.len() && u[yy].path == p;
                if yy != x2 {
                    lemma_lex_irreflexive(p);
                }
            } else {
                assert forall|yy: int| 0 <= yy < u.len() implies u[yy].path != p by {
                    if yy < i {
                        assert(u[yy] == s[yy]);
                    } else if yy > i {
                        assert(u[yy] == s[yy - 1]);
                    }
                }
            }
        }
    }
}

/// Whether `s` holds no two leaves with the same path.
proof fn lemma_sorted_lookup(s: Seq<LeafView>, i: int)
    requires
        sorted(s),
        0 <= i < s.len(),
    ensures
        lookup(s, s[i].path) == Some(s[i]),
{
    let y = choose|y: int| 0 <= y < s.len() && s[y].path == s[i].path;
    if y != i {
        lemma_lex_irreflexive(s[i].path);
    }
}

proof fn lemma_expire_sorted(s: Seq<LeafView>, g: u64)
    requires
        sorted(s),
    ensures
        sorted(expire(s, g)),
        forall|k: int| 0 <= k < expire(s, g).len() ==> s.contains(#[trigger] expire(s, g)[k]),
        forall|p: Seq<char>|
            lookup(expire(s, g), p) == (match lookup(s, p) {
                Some(l) => if live(l, g) {
                    Some(l)
                } else {
                    None
                },
                None => None,
            }),
    decreases s.len(),
{
    let pred = |l: LeafView| live(l, g);
    assert forall|k: int| 0 <= k < expire(s, g).len() implies s.contains(
        #[trigger] expire(s, g)[k],
    ) by {
        assert(expire(s, g).contains(expire(s, g)[k]));
        s.lemma_filter_contains_rev(pred, expire(s, g)[k]);
    }
    reveal(Seq::filter);
    if s.len() == 0 {
        assert(expire(s, g) =~= Seq::<LeafView>::empty());
    } else {
        let w = s.drop_last();
        let last = s.last();
        assert(sorted(w));
        lemma_expire_sorted(w, g);
        assert(s == w.push(last));
        w.lemma_filter_push(last, pred);
        let fw = expire(w, g);
        assert forall|k: int| 0 <= k < fw.len() implies lex_lt(fw[k].path, last.path) by {
            assert(fw.contains(fw[k]));
            w.lemma_filter_contains_rev(pred, fw[k]);
            let x = choose|x: int| 0 <= x < w.len() && w[x] == fw[k];
            assert(s[x] == w[x]);
        }
        assert forall|p: Seq<char>|
            lookup(expire(s, g), p) == (match lookup(s, p) {
                Some(l) => if live(l, g) {
                    Some(l)
                } else {
                    None
                },
                None => None,
            }) by {
            if p == last.path {
                lemma_sorted_lookup(s, s.len() - 1);
                assert forall|k: int| 0 <= k < fw.len() implies fw[k].path != p by {
                    lemma_lex_irreflexive(p);
                }
                assert forall|x: int| 0 <= x < w.len() implies w[x].path != p by {
                    assert(lex_lt(s[x].path, s[s.len() - 1].path));
                    lemma_lex_irreflexive(p);
                }
                if live(last, g) {
                    let e = fw.push(last);
                    assert(e[e.len() - 1] == last);
                    let y = choose|y: int| 0 <= y < e.len() && e[y].path == p;
                    if y != e.len() - 1 {
                        assert(e[y] == fw[y]);
                    }
                }
            } else {
                assert(lookup(w, p) == lookup(s, p)) by {
                    if exists|x: int| 0 <= x < s.len() && s[x].path == p {
                        let x = choose|x: int| 0 <= x < s.len() && s[x].path == p;
                        assert(x < w.len());
                        assert(w[x] == s[x]);
                        let y = choose|y: int| 0 <= y < w.len() && w[y].path == p;
                        if x != y {
                            lemma_lex_irreflexive(p);
                        }
                    }
                }
                if live(last, g) {
                    let e = fw.push(last);
                    assert(lookup(e, p) == lookup(fw, p)) by {
                        if exists|x: int| 0 <= x < fw.len() && fw[x].path == p {
                            let x = choose|x: int| 0 <= x < fw.len() && fw[x].path == p;
                            assert(e[x] == fw[x]);
                            let y = choose|y: int| 0 <= y < e.len() && e[y].path == p;
                            if x != y {
                                if y < fw.len() {
                                    lemma_lex_irreflexive(p);
                                }
                            }
                        }
                    }
                }
            }
        }
    }
}

// ------------------------------------------------------------------ packets

/// What the last message in `ms` addressed to `path` reported, if any.
pub open spec fn last_report(ms: Seq<MessageView>, path: Seq<char>) -> Option<ReadingView>
    decreases ms.len(),
{
    if ms.len() == 0 {
        None
    } else if path.len() > 0 && trim_slashes(ms.last().address) == path {
        Some(reading_of(ms.last().args))
    } else {
        last_report(ms.drop_last(), path)
    }
}

/// Packets applied one after another.
pub open spec fn run(t: TelemetryView, packets: Seq<Seq<MessageView>>) -> TelemetryView
    decreases packets.len(),
{
    if packets.len() == 0 {
        t
    } else {
        apply_packet(run(t, packets.drop_last()), packets.last())
    }
}

proof fn insertion_point(s: Seq<LeafView>, k: Seq<char>, from: int) -> (i: int)
    requires
        0 <= from <= s.len(),
        forall|j: int| 0 <= j < from ==> lex_lt(s[j].path, k),
    ensures
        0 <= i <= s.len(),
        forall|j: int| 0 <= j < i ==> lex_lt(s[j].path, k),
        i < s.len() ==> !lex_lt(s[i].path, k),
    decreases s.len() - from,
{
    if from == s.len() || !lex_lt(s[from].path, k) {
        from
    } else {
        insertion_point(s, k, from + 1)
    }
}

proof fn lemma_apply_message(t: TelemetryView, m: MessageView)
    requires
        wf(t),
    ensures
        wf(apply_message(t, m)),
        apply_message(t, m).generation == t.generation,
        forall|p: Seq<char>|
            #[trigger] lookup(apply_message(t, m).leaves, p) == (if p.len() > 0 && trim_slashes(
                m.address,
            ) == p {
                Some(LeafView { path: p, value: reading_of(m.args), seen: t.generation })
            } else {
                lookup(t.leaves, p)
            }),
{
    let path = trim_slashes(m.address);
    if path.len() > 0 {
        let leaf = LeafView { path, value: reading_of(m.args), seen: t.generation };
        let i = insertion_point(t.leaves, path, 0);
        lemma_upsert_at(t.leaves, leaf, i);
        let u = upsert(t.leaves, leaf);
        assert forall|k: int| 0 <= k < u.len() implies #[trigger] u[k].seen <= t.generation by {
            if u[k] != leaf {
                let x = choose|x: int| 0 <= x < t.leaves.len() && t.leaves[x] == u[k];
                assert(t.leaves[x].seen <= t.generation);
            }
        }
    }
}

proof fn lemma_apply_messages(t: TelemetryView, ms: Seq<MessageView>)
    requires
        wf(t),
    ensures
        wf(apply_messages(t, ms)),
        apply_messages(t, ms).generation == t.generation,
        forall|p: Seq<char>|
            #[trigger] lookup(apply_messages(t, ms).leaves, p) == (match last_report(ms, p) {
                Some(v) => Some(LeafView { path: p, value: v, seen: t.generation }),
                None => lookup(t.leaves, p),
            }),
    decreases ms.len(),
{
    if ms.len() > 0 {
        lemma_apply_messages(t, ms.drop_last());
        lemma_apply_message(apply_messages(t, ms.drop_last()), ms.last());
    }
}

proof fn lemma_apply_packet(t: TelemetryView, ms: Seq<MessageView>)
    requires
        wf(t),
        t.generation < u64::MAX,
    ensures
        wf(apply_packet(t, ms)),
        apply_packet(t, ms).generation == t.generation + 1,
        forall|k: int|
            0 <= k < apply_packet(t, ms).leaves.len() ==> live(
                #[trigger] apply_packet(t, ms).leaves[k],
                apply_packet(t, ms).generation,
            ),
        forall|p: Seq<char>|
            #[trigger] lookup(apply_packet(t, ms).leaves, p) == (match last_report(ms, p) {
                Some(v) => Some(LeafView { path: p, value: v, seen: (t.generation + 1) as u64 }),
                None => match lookup(t.leaves, p) {
                    Some(l) => if live(l, (t.generation + 1) as u64) {
                        Some(l)
                    } else {
                        None
                    },
                    None => None,
                },
            }),
{
    let g = (t.generation + 1) as u64;
    let counted = TelemetryView { generation: g, ..t };
    assert(wf(counted));
    lemma_apply_messages(counted, ms);
    let recorded = apply_messages(counted, ms);
    lemma_expire_sorted(recorded.leaves, g);
    let e = expire(recorded.leaves, g);
    let pred = |l: LeafView| live(l, g);
    assert forall|k: int| 0 <= k < e.len() implies #[trigger] e[k].seen <= g && live(e[k], g) by {
        recorded.leaves.lemma_filter_pred(pred, k);
        let x = choose|x: int| 0 <= x < recorded.leaves.len() && recorded.leaves[x] == e[k];
        assert(recorded.leaves[x].seen <= g);
    }
    assert forall|p: Seq<char>| #[trigger]
        lookup(apply_packet(t, ms).leaves, p) == (match last_report(ms, p) {
            Some(v) => Some(LeafView { path: p, value: v, seen: g }),
            None => match lookup(t.leaves, p) {
                Some(l) => if live(l, g) {
                    Some(l)
                } else {
                    None
                },
                None => None,
            },
        }) by {
        assert(lookup(recorded.leaves, p) == (match last_report(ms, p) {
            Some(v) => Some(LeafView { path: p, value: v, seen: g }),
            None => lookup(t.leaves, p),
        }));
    }
}

/// Applying a packet keeps the state well formed and counts the packet.
pub proof fn lemma_packet_keeps_wf(t: TelemetryView, ms: Seq<MessageView>)
    requires
        wf(t),
        t.generation < u64::MAX,
    ensures
        wf(apply_packet(t, ms)),
        apply_packet(t, ms).generation == t.generation + 1,
{
    lemma_apply_packet(t, ms);
}

/// A key reported in a packet is held afterwards with what its last message
/// in that packet said, stamped with that packet's number.
pub proof fn lemma_reported_key_is_current(t: TelemetryView, ms: Seq<MessageView>, path: Seq<char>)
    requires
        wf(t),
        t.generation < u64::MAX,
        last_report(ms, path) is Some,
    ensures
        lookup(apply_packet(t, ms).leaves, path) == Some(
            LeafView {
                path,
                value: last_report(ms, path)->0,
                seen: (t.generation + 1) as u64,
            },
        ),
{
    lemma_apply_packet(t, ms);
}

/// A key a packet does not mention keeps its value and its stamp while it was
/// seen within the last [`STALE_AFTER_PACKETS`] packets, and is dropped once
/// it was not.
pub proof fn lemma_unreported_key_ages(t: TelemetryView, ms: Seq<MessageView>, path: Seq<char>)
    requires
        wf(t),
        t.generation < u64::MAX,
        last_report(ms, path) is None,
    ensures
        lookup(apply_packet(t, ms).leaves, path) == (match lookup(t.leaves, path) {
            Some(l) => if l.seen + STALE_AFTER_PACKETS >= t.generation + 1 {
                Some(l)
            } else {
                None
            },
            None => None,
        }),
{
    lemma_apply_packet(t, ms);
}

/// After a packet, everything held was reported within the last
/// [`STALE_AFTER_PACKETS`] packets.
pub proof fn lemma_nothing_stale_is_held(t: TelemetryView, ms: Seq<MessageView>)
    requires
        wf(t),
        t.generation < u64::MAX,
    ensures
        forall|k: int|
            0 <= k < apply_packet(t, ms).leaves.len() ==> #[trigger] apply_packet(
                t,
                ms,
            ).leaves[k].seen + STALE_AFTER_PACKETS >= apply_packet(t, ms).generation,
{
    lemma_apply_packet(t, ms);
}

proof fn lemma_run(t: TelemetryView, ps: Seq<Seq<MessageView>>)
    requires
        wf(t),
        t.generation + ps.len() <= u64::MAX,
    ensures
        wf(run(t, ps)),
        run(t, ps).generation == t.generation + ps.len(),
    decreases ps.len(),
{
    if ps.len() > 0 {
        lemma_run(t, ps.drop_last());
        lemma_apply_packet(run(t, ps.drop_last()), ps.last());
    }
}

proof fn lemma_quiet_run(t: TelemetryView, ps: Seq<Seq<MessageView>>, path: Seq<char>)
    requires
        wf(t),
        t.generation + ps.len() <= u64::MAX,
        forall|i: int| 0 <= i < ps.len() ==> #[trigger] last_report(ps[i], path) is None,
    ensures
        match lookup(run(t, ps).leaves, path) {
            Some(l) => l.seen <= t.generation && (ps.len() > 0 ==> l.seen + STALE_AFTER_PACKETS
                >= run(t, ps).generation),
            None => ps.len() > 0 || lookup(t.leaves, path) is None,
        },
    decreases ps.len(),
{
    if ps.len() == 0 {
        if let Some(l) = lookup(t.leaves, path) {
            let i = choose|i: int| 0 <= i < t.leaves.len() && t.leaves[i].path == path;
            assert(t.leaves[i].seen <= t.generation);
            lemma_nothing_held_is_too_old(t, l, i);
        }
    } else {
        let front = ps.drop_last();
        assert forall|i: int| 0 <= i < front.len() implies #[trigger] last_report(front[i], path)
            is None by {
            assert(front[i] == ps[i]);
        }
        lemma_quiet_run(t, front, path);
        lemma_run(t, front);
        assert(last_report(ps[ps.len() - 1], path) is None);
        lemma_apply_packet(run(t, front), ps.last());
    }
}

proof fn lemma_nothing_held_is_too_old(t: TelemetryView, l: LeafView, i: int)
    requires
        wf(t),
        0 <= i < t.leaves.len(),
        t.leaves[i].path == l.path,
        lookup(t.leaves, l.path) == Some(l),
    ensures
        l.seen <= t.generation,
{
    lemma_sorted_lookup(t.leaves, i);
}

/// A key that no packet mentions for more than [`STALE_AFTER_PACKETS`]
/// packets in a row is gone, whatever the state was before.
pub proof fn lemma_silent_key_is_dropped(
    t: TelemetryView,
    quiet: Seq<Seq<MessageView>>,
    path: Seq<char>,
)
    requires
        wf(t),
        t.generation + quiet.len() <= u64::MAX,
        quiet.len() > STALE_AFTER_PACKETS,
        forall|i: int| 0 <= i < quiet.len() ==> #[trigger] last_report(quiet[i], path) is None,
    ensures
        lookup(run(t, quiet).leaves, path) is None,
{
    lemma_quiet_run(t, quiet, path);
    lemma_run(t, quiet);
}

/// A key reported in one of the last [`STALE_AFTER_PACKETS`] + 1 packets is
/// still held.
pub proof fn lemma_recent_key_is_kept(t: TelemetryView, ps: Seq<Seq<MessageView>>, path: Seq<char>)
    requires
        wf(t),
        t.generation + ps.len() <= u64::MAX,
        0 < ps.len() <= STALE_AFTER_PACKETS + 1,
        last_report(ps[0], path) is Some,
    ensures
        lookup(run(t, ps).leaves, path) is Some,
{
    lemma_kept_since(t, ps, path);
}

proof fn lemma_kept_since(t: TelemetryView, ps: Seq<Seq<MessageView>>, path: Seq<char>)
    requires
        wf(t),
        t.generation + ps.len() <= u64::MAX,
        0 < ps.len() <= STALE_AFTER_PACKETS + 1,
        last_report(ps[0], path) is Some,
    ensures
        match lookup(run(t, ps).leaves, path) {
            Some(l) => l.seen >= t.generation + 1,
            None => false,
        },
    decreases ps.len(),
{
    let front = ps.drop_last();
    lemma_run(t, front);
    lemma_apply_packet(run(t, front), ps.last());
    if ps.len() == 1 {
        assert(front.len() == 0);
        assert(ps.last() == ps[0]);
    } else {
        assert(front[0] == ps[0]);
        lemma_kept_since(t, front, path);
    }
}

/// Packets applied one after another, as successive calls of
/// [`Telemetry::apply_all`] apply them: one more packet is one more step.
pub proof fn lemma_run_step(t: TelemetryView, ps: Seq<Seq<MessageView>>, p: Seq<MessageView>)
    ensures
        run(t, ps.push(p)) == apply_packet(run(t, ps), p),
{
    assert(ps.push(p).drop_last() =~= ps);
}

/// How long a key outlives its last report. Over a run of packets, take the
/// last packet `j` that reports `path`: once the run ends, `path` holds what
/// that packet last said, stamped with that packet's number, exactly when at
/// most [`STALE_AFTER_PACKETS`] packets came after it; otherwise it is gone.
pub proof fn lemma_key_expiry(t: TelemetryView, ps: Seq<Seq<MessageView>>, path: Seq<char>, j: int)
    requires
        wf(t),
        t.generation + ps.len() <= u64::MAX,
        0 <= j < ps.len(),
        last_report(ps[j], path) is Some,
        forall|i: int| j < i < ps.len() ==> #[trigger] last_report(ps[i], path) is None,
    ensures
        lookup(run(t, ps).leaves, path) == if ps.len() - 1 - j <= STALE_AFTER_PACKETS {
            Some(
                LeafView {
                    path,
                    value: last_report(ps[j], path)->0,
                    seen: (t.generation + j + 1) as u64,
                },
            )
        } else {
            None
        },
    decreases ps.len(),
{
    let front = ps.drop_last();
    lemma_run(t, front);
    if j == ps.len() - 1 {
        assert(ps.last() == ps[j]);
        lemma_reported_key_is_current(run(t, front), ps.last(), path);
    } else {
        assert forall|i: int| j < i < front.len() implies #[trigger] last_report(front[i], path)
            is None by {
            assert(front[i] == ps[i]);
        }
        assert(front[j] == ps[j]);
        lemma_key_expiry(t, front, path, j);
        assert(last_report(ps[ps.len() - 1], path) is None);
        lemma_unreported_key_ages(run(t, front), ps.last(), path);
    }
}

/// How float arguments are recorded, whatever their sign: a float whose
/// exponent bits are not all ones is a finite number and is kept with its
/// bits; only one whose exponent bits are all ones (an infinity or a NaN) is
/// recorded as null. Flipping the sign bit never changes which of the two
/// happens.
pub proof fn lemma_floats_are_kept_unless_not_finite(b: u32, d: u64)
    ensures
        (b / 0x80_0000) % 0x100 != 0xFF ==> scalar_of(ValueView::Float(b)) == ScalarView::Float(b),
        (b / 0x80_0000) % 0x100 == 0xFF ==> scalar_of(ValueView::Float(b)) == ScalarView::Null,
        b < 0x8000_0000 ==> (scalar_of(ValueView::Float(b)) is Null <==> scalar_of(
            ValueView::Float((b + 0x8000_0000) as u32),
        ) is Null),
        (d / 0x10_0000_0000_0000) % 0x800 != 0x7FF ==> scalar_of(ValueView::Double(d))
            == ScalarView::Double(d),
        (d / 0x10_0000_0000_0000) % 0x800 == 0x7FF ==> scalar_of(ValueView::Double(d))
            == ScalarView::Null,
        d < 0x8000_0000_0000_0000 ==> (scalar_of(ValueView::Double(d)) is Null <==> scalar_of(
            ValueView::Double((d + 0x8000_0000_0000_0000) as u64),
        ) is Null),
{
    if b < 0x8000_0000 {
        let c = (b + 0x8000_0000) as u32;
        assert(c / 0x80_0000 == b / 0x80_0000 + 0x100);
        assert((c / 0x80_0000) % 0x100 == (b / 0x80_0000) % 0x100);
    }
    if d < 0x8000_0000_0000_0000 {
        let e = (d + 0x8000_0000_0000_0000) as u64;
        assert(e / 0x10_0000_0000_0000 == d / 0x10_0000_0000_0000 + 0x800);
        assert((e / 0x10_0000_0000_0000) % 0x800 == (d / 0x10_0000_0000_0000) % 0x800);
    }
}

/// How the other arguments are recorded: integers of either width keep their
/// value, text stays text, a blob is recorded as its length, a boolean as
/// itself, and null and impulse as null. One argument is recorded as a single
/// value, none as a single null, and several as a list of the same length,
/// each in its place.
pub proof fn lemma_arguments_are_recorded(v: ValueView, args: Seq<ValueView>)
    ensures
        v matches ValueView::Int(i) ==> scalar_of(v) == ScalarView::Int(i as i64) && (i as int)
            == (i as i64) as int,
        v matches ValueView::Long(i) ==> scalar_of(v) == ScalarView::Int(i),
        v matches ValueView::String(t) ==> scalar_of(v) == ScalarView::Text(t),
        v matches ValueView::Blob(b) ==> scalar_of(v) == ScalarView::Count(b.len() as u64),
        v matches ValueView::Bool(b) ==> scalar_of(v) == ScalarView::Bool(b),
        v is Null || v is Impulse ==> scalar_of(v) == ScalarView::Null,
        args.len() == 0 ==> reading_of(args) == ReadingView::Single(ScalarView::Null),
        args.len() == 1 ==> reading_of(args) == ReadingView::Single(scalar_of(args[0])),
        args.len() >= 2 ==> (reading_of(args) matches ReadingView::List(l) && l.len() == args.len()
            && forall|k: int| 0 <= k < args.len() ==> #[trigger] l[k] == scalar_of(args[k])),
{
}

/// A message carrying one finite float, of either sign, leaves its path
/// holding exactly that float's bits after the packet it came in.
pub proof fn lemma_finite_float_is_held(t: TelemetryView, address: Seq<char>, b: u32)
    requires
        wf(t),
        t.generation < u64::MAX,
        trim_slashes(address).len() > 0,
        (b / 0x80_0000) % 0x100 != 0xFF,
    ensures
        lookup(
            apply_packet(t, seq![MessageView { address, args: seq![ValueView::Float(b)] }]).leaves,
            trim_slashes(address),
        ) == Some(
            LeafView {
                path: trim_slashes(address),
                value: ReadingView::Single(ScalarView::Float(b)),
                seen: (t.generation + 1) as u64,
            },
        ),
{
    let m = MessageView { address, args: seq![ValueView::Float(b)] };
    let ms = seq![m];
    assert(ms.last() == m);
    assert(ms.drop_last() =~= Seq::<MessageView>::empty());
    assert(last_report(ms, trim_slashes(address)) == Some(reading_of(m.args)));
    lemma_floats_are_kept_unless_not_finite(b, 0);
    lemma_reported_key_is_current(t, ms, trim_slashes(address));
}

/// A message is held under its address without the leading slashes: any
/// number of them may be put in front of a path and it is still the same
/// key, and a path that does not start with a slash is its own key.
pub proof fn lemma_leading_slashes_do_not_matter(n: nat, p: Seq<char>)
    requires
        p.len() == 0 || p[0] != '/',
    ensures
        trim_slashes(Seq::new(n, |i: int| '/') + p) == p,
    decreases n,
{
    let s = Seq::new(n, |i: int| '/') + p;
    if n == 0 {
        assert(s =~= p);
    } else {
        assert(s[0] == '/');
        assert(s.drop_first() =~= Seq::new((n - 1) as nat, |i: int| '/') + p);
        lemma_leading_slashes_do_not_matter((n - 1) as nat, p);
    }
}

// --------------------------------------------------------------------- exec

#[derive(Debug)]
struct Entry {
    path: Vec<char>,
    value: Reading,
    seen: u64,
}

spec fn entry_view(e: Entry) -> LeafView {
    LeafView { path: e.path@, value: e.value@, seen: e.seen }
}

spec fn entry_views(v: Seq<Entry>) -> Seq<LeafView> {
    v.map_values(|e: Entry| entry_view(e))
}

/// Everything the server has told us: the live leaves and the packet count.
#[derive(Debug)]
pub struct Telemetry {
    leaves: Vec<Entry>,
    generation: u64,
}

impl View for Telemetry {
    type V = TelemetryView;

    closed spec fn view(&self) -> TelemetryView {
        TelemetryView { leaves: entry_views(self.leaves@), generation: self.generation }
    }
}

fn upsert_exec(leaves: &mut Vec<Entry>, e: Entry, generation: u64)
    requires
        wf(TelemetryView { leaves: entry_views(old(leaves)@), generation }),
        e.seen <= generation,
    ensures
        entry_views(final(leaves)@) == upsert(entry_views(old(leaves)@), entry_view(e)),
        wf(TelemetryView { leaves: entry_views(final(leaves)@), generation }),
{
    let ghost s = entry_views(leaves@);
    let ghost leaf = entry_view(e);
    let mut i: usize = 0;
    while i < leaves.len() && text_lt(&leaves[i].path, &e.path)
        invariant
            i <= leaves@.len(),
            s == entry_views(leaves@),
            leaf == entry_view(e),
            forall|j: int| 0 <= j < i ==> lex_lt(s[j].path, leaf.path),
        decreases leaves@.len() - i,
    {
        assert(s[i as int] == entry_view(leaves@[i as int]));
        i = i + 1;
    }
    proof {
        lemma_upsert_at(s, leaf, i as int);
    }
    if i < leaves.len() && text_eq(&leaves[i].path, &e.path) {
        leaves.set(i, e);
        assert(entry_views(leaves@) =~= s.update(i as int, leaf));
    } else {
        leaves.insert(i, e);
        assert(entry_views(leaves@) =~= s.insert(i as int, leaf));
    }
    proof {
        let u = entry_views(leaves@);
        assert forall|k: int| 0 <= k < u.len() implies #[trigger] u[k].seen <= generation by {
            if k != i {
                if k < i {
                    assert(u[k] == s[k]);
                } else if u.len() > s.len() {
                    assert(u[k] == s[k - 1]);
                } else {
                    assert(u[k] == s[k]);
                }
            }
        }
    }
}

fn copy_scalar(s: &Scalar) -> (r: Scalar)
    ensures
        r@ == s@,
{
    match s {
        Scalar::Null => Scalar::Null,
        Scalar::Bool(b) => Scalar::Bool(*b),
        Scalar::Int(i) => Scalar::Int(*i),
        Scalar::Count(n) => Scalar::Count(*n),
        Scalar::Float(b) => Scalar::Float(*b),
        Scalar::Double(b) => Scalar::Double(*b),
        Scalar::Text(t) => Scalar::Text(t.clone()),
    }
}

pub(crate) fn copy_reading(r: &Reading) -> (c: Reading)
    ensures
        c@ == r@,
{
    match r {
        Reading::Single(s) => Reading::Single(copy_scalar(s)),
        Reading::List(v) => {
            let mut out: Vec<Scalar> = Vec::new();
            for i in 0..v.len()
                invariant
                    out@.map_values(|s: Scalar| s@) == v@.take(i as int).map_values(|s: Scalar| s@),
            {
                let ghost before = out@.map_values(|s: Scalar| s@);
                out.push(copy_scalar(&v[i]));
                assert(out@.map_values(|s: Scalar| s@) =~= before.push(v@[i as int]@));
                assert(v@.take(i + 1).map_values(|s: Scalar| s@) =~= v@.take(i as int).map_values(
                    |s: Scalar| s@,
                ).push(v@[i as int]@));
            }
            assert(v@.take(v@.len() as int) == v@);
            Reading::List(out)
        },
    }
}

impl Telemetry {
    #[verifier::type_invariant]
    spec fn inv(self) -> bool {
        wf(self@)
    }

    /// An empty state, before any packet.
    pub fn new() -> (r: Telemetry)
        ensures
            r@ == (TelemetryView { leaves: Seq::empty(), generation: 0 }),
            wf(r@),
    {
        let r = Telemetry { leaves: Vec::new(), generation: 0 };
        assert(entry_views(r.leaves@) =~= Seq::<LeafView>::empty());
        r
    }

    /// What is held for a path (without its leading slashes), if anything.
    pub fn reading(&self, path: &str) -> (r: Option<Reading>)
        ensures
            match lookup(self@.leaves, path@) {
                Some(l) => r matches Some(v) && v@ == l.value,
                None => r is None,
            },
    {
        proof {
            use_type_invariant(&*self);
        }
        let p = chars_of(path);
        for i in 0..self.leaves.len()
            invariant
                wf(self@),
                p@ == path@,
                forall|j: int| 0 <= j < i ==> #[trigger] self@.leaves[j].path != path@,
        {
            assert(self@.leaves[i as int] == entry_view(self.leaves@[i as int]));
            if text_eq(&self.leaves[i].path, &p) {
                proof {
                    lemma_sorted_lookup(self@.leaves, i as int);
                }
                return Some(copy_reading(&self.leaves[i].value));
            }
        }
        None
    }

    /// The raw tree, built from the live leaves in path order.
    pub fn raw(&self) -> (r: RawTree)
        ensures
            r@ == raw_of(self@.leaves),
    {
        let mut tree = RawTree::new();
        for i in 0..self.leaves.len()
            invariant
                tree@ == raw_of(self@.leaves.take(i as int)),
        {
            let ghost s = self@.leaves;
            assert(s[i as int] == entry_view(self.leaves@[i as int]));
            assert(s.take(i + 1).drop_last() == s.take(i as int));
            assert(s.take(i + 1).last() == s[i as int]);
            tree.put(&self.leaves[i].path, copy_reading(&self.leaves[i].value));
        }
        assert(self@.leaves.take(self@.leaves.len() as int) == self@.leaves);
        tree
    }

    /// How many packets have been applied.
    pub fn generation(&self) -> (r: u64)
        ensures
            r == self@.generation,
    {
        self.generation
    }

    /// Apply one message.
    pub fn apply(&mut self, msg: &Message)
        ensures
            final(self)@ == apply_message(old(self)@, msg@),
            wf(final(self)@),
    {
        proof {
            use_type_invariant(&*self);
        }
        let addr = chars_of(msg.address.as_str());
        let mut k: usize = 0;
        assert(addr@.skip(0) == addr@);
        while k < addr.len() && addr[k] == '/'
            invariant
                k <= addr@.len(),
                trim_slashes(addr@) == trim_slashes(addr@.skip(k as int)),
            decreases addr@.len() - k,
        {
            assert(addr@.skip(k as int).drop_first() == addr@.skip(k + 1));
            k = k + 1;
        }
        if k == addr.len() {
            assert(addr@.skip(k as int).len() == 0);
            return;
        }
        let mut path: Vec<char> = Vec::new();
        for j in k..addr.len()
            invariant
                path@ == addr@.subrange(k as int, j as int),
        {
            path.push(addr[j]);
            assert(addr@.subrange(k as int, j + 1) == addr@.subrange(k as int, j as int).push(
                addr@[j as int],
            ));
        }
        assert(path@ == addr@.skip(k as int));
        let e = Entry { path, value: to_reading(&msg.args), seen: self.generation };
        let mut leaves: Vec<Entry> = Vec::new();
        std::mem::swap(&mut leaves, &mut self.leaves);
        upsert_exec(&mut leaves, e, self.generation);
        self.leaves = leaves;
        proof {
            use_type_invariant(&*self);
        }
    }

    /// Apply every message in a packet, then drop anything that has stopped
    /// being reported.
    pub fn apply_all(&mut self, msgs: &[Message])
        requires
            old(self)@.generation < u64::MAX,
        ensures
            final(self)@ == apply_packet(old(self)@, msgs@.map_values(|m: Message| m@)),
            wf(final(self)@),
    {
        proof {
            use_type_invariant(&*self);
        }
        let ghost t0 = self@;
        let ghost views = msgs@.map_values(|m: Message| m@);
        self.generation = self.generation + 1;
        let ghost counted = self@;
        for i in 0..msgs.len()
            invariant
                views == msgs@.map_values(|m: Message| m@),
                self@ == apply_messages(counted, views.take(i as int)),
                wf(self@),
        {
            self.apply(&msgs[i]);
            assert(views.take(i + 1).drop_last() == views.take(i as int));
        }
        assert(views.take(msgs.len() as int) == views);
        let g = self.generation;
        let c: u64 = if g >= STALE_AFTER_PACKETS {
            g - STALE_AFTER_PACKETS
        } else {
            0
        };
        let mut leaves: Vec<Entry> = Vec::new();
        std::mem::swap(&mut leaves, &mut self.leaves);
        let ghost s = entry_views(leaves@);
        assert(wf(TelemetryView { leaves: s, generation: g }));
        proof {
            lemma_expire_sorted(s, g);
        }
        let mut kept: Vec<Entry> = Vec::new();
        let mut rest = leaves;
        let ghost pred = |l: LeafView| live(l, g);
        let mut n: usize = 0;
        let total = rest.len();
        assert(entry_views(kept@) =~= s.take(0).filter(pred)) by {
            reveal(Seq::filter);
        }
        assert(s.skip(0) == s);
        while rest.len() > 0
            invariant
                total == s.len(),
                c == cutoff(g),
                pred == (|l: LeafView| live(l, g)),
                n + rest@.len() == total,
                entry_views(rest@) == s.skip(n as int),
                entry_views(kept@) == s.take(n as int).filter(pred),
            decreases rest@.len(),
        {
            let ghost old_rest = rest@;
            let e = rest.remove(0);
            assert(entry_views(old_rest)[0] == entry_view(old_rest[0]));
            assert(entry_view(e) == s[n as int]);
            assert forall|k: int| 0 <= k < rest@.len() implies #[trigger] entry_views(rest@)[k]
                == s.skip(n + 1)[k] by {
                assert(rest@[k] == old_rest[k + 1]);
                assert(entry_views(old_rest)[k + 1] == s.skip(n as int)[k + 1]);
            }
            assert(entry_views(rest@) =~= s.skip(n + 1));
            let ghost before = entry_views(kept@);
            assert(s.take(n + 1) == s.take(n as int).push(s[n as int]));
            proof {
                s.take(n as int).lemma_filter_push(s[n as int], pred);
            }
            if e.seen >= c {
                kept.push(e);
                assert(entry_views(kept@) =~= before.push(s[n as int]));
            }
            n = n + 1;
        }
        assert(s.take(total as int) == s);
        proof {
            let e = expire(s, g);
            assert forall|k: int| 0 <= k < e.len() implies #[trigger] e[k].seen <= g by {
                assert(s.contains(e[k]));
            }
        }
        self.leaves = kept;
        proof {
            use_type_invariant(&*self);
        }
    }
}

impl Default for Telemetry {
    fn default() -> (r: Telemetry)
        ensures
            r@ == (TelemetryView { leaves: Seq::empty(), generation: 0 }),
    {
        Telemetry::new()
    }
}

} // verus!
