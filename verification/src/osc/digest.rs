//! The digest: the small typed view of the telemetry that the console renders
//! — channels, their layers, and what each layer is playing.
//!
//! It is read off the raw tree. Channels and layers are the children of
//! `channel` and of a channel's `stage/layer` whose names are numbers, in
//! numeric order. The key set of a slot was corrected against a live 2.5.0
//! server: the ffmpeg producer sends `file/time`, `file/clip` and `loop` each
//! frame, and the stream frame rate once, as a rational, under
//! `file/streams/0/fps`. An empty slot is reported as the `empty` producer.
//!
//! Numbers are handed on as the server sent them. Frame numbers — position or
//! length times the frame rate — and the rate's division are left to whoever
//! renders them in floating point.

use vstd::prelude::*;

use crate::osc::state::{
    lemma_lex_irreflexive, lemma_lex_total, lemma_lex_transitive, lex_lt, text_lt, Reading,
    ReadingView, Scalar, ScalarView, Telemetry,
};
use crate::osc::tree::{
    child_names, node_at, seg_views, str_views, value_at, RawTree, RawView,
};
use crate::text::{chars_of, same_text, string_from, string_of};

verus! {

broadcast use vstd::string::group_string_axioms;

// -------------------------------------------------------------------- values

/// A number the server sent, as it sent it.
#[derive(Debug, Clone, Copy, PartialEq, Eq, Structural)]
pub enum Number {
    Int(i64),
    Count(u64),
    /// A finite 32-bit float, as its bits.
    Float(u32),
    /// A finite 64-bit float, as its bits.
    Double(u64),
}

/// A rate as the server sends it: a number, or a numerator with a non-zero
/// denominator.
#[derive(Debug, Clone, Copy, PartialEq, Eq, Structural)]
pub struct Rate {
    pub num: Number,
    pub den: Option<Number>,
}

/// A value read as a number, if it is one.
pub open spec fn number_of(s: ScalarView) -> Option<Number> {
    match s {
        ScalarView::Int(i) => Some(Number::Int(i)),
        ScalarView::Count(n) => Some(Number::Count(n)),
        ScalarView::Float(b) => Some(Number::Float(b)),
        ScalarView::Double(b) => Some(Number::Double(b)),
        _ => None,
    }
}

/// A number equal to zero.
pub open spec fn is_zero(n: Number) -> bool {
    match n {
        Number::Int(i) => i == 0,
        Number::Count(c) => c == 0,
        Number::Float(b) => b & 0x7FFF_FFFF == 0,
        Number::Double(b) => b & 0x7FFF_FFFF_FFFF_FFFF == 0,
    }
}

/// Text: a string, or the first of several values when that is a string.
pub open spec fn text_of(r: Option<ReadingView>) -> Option<Seq<char>> {
    match r {
        Some(ReadingView::Single(ScalarView::Text(t))) => Some(t),
        Some(ReadingView::List(l)) => if l.len() > 0 && l[0] is Text {
            Some(l[0]->Text_0)
        } else {
            None
        },
        _ => None,
    }
}

/// A number, or the first of several values.
pub open spec fn first_number(r: Option<ReadingView>) -> Option<Number> {
    match r {
        Some(ReadingView::Single(s)) => number_of(s),
        Some(ReadingView::List(l)) => if l.len() > 0 {
            number_of(l[0])
        } else {
            None
        },
        None => None,
    }
}

/// The second of several values, as a number.
pub open spec fn second_number(r: Option<ReadingView>) -> Option<Number> {
    match r {
        Some(ReadingView::List(l)) => if l.len() > 1 {
            number_of(l[1])
        } else {
            None
        },
        _ => None,
    }
}

/// A flag: true only for a value that is `true`.
pub open spec fn flag_of(r: Option<ReadingView>) -> bool {
    r == Some(ReadingView::Single(ScalarView::Bool(true)))
}

/// A rate: a number, or a pair read as numerator and denominator — a missing,
/// non-numeric or zero denominator leaves the numerator alone.
pub open spec fn rate_of(r: Option<ReadingView>) -> Option<Rate> {
    match r {
        Some(ReadingView::Single(s)) => match number_of(s) {
            Some(n) => Some(Rate { num: n, den: None }),
            None => None,
        },
        Some(ReadingView::List(l)) => if l.len() > 0 && number_of(l[0]) is Some {
            Some(
                Rate {
                    num: number_of(l[0])->0,
                    den: if l.len() > 1 && number_of(l[1]) is Some && !is_zero(
                        number_of(l[1])->0,
                    ) {
                        number_of(l[1])
                    } else {
                        None
                    },
                },
            )
        } else {
            None
        },
        None => None,
    }
}

fn number(s: &Scalar) -> (r: Option<Number>)
    ensures
        r == number_of(s@),
{
    match s {
        Scalar::Int(i) => Some(Number::Int(*i)),
        Scalar::Count(n) => Some(Number::Count(*n)),
        Scalar::Float(b) => Some(Number::Float(*b)),
        Scalar::Double(b) => Some(Number::Double(*b)),
        _ => None,
    }
}

fn zero(n: Number) -> (r: bool)
    ensures
        r == is_zero(n),
{
    match n {
        Number::Int(i) => i == 0,
        Number::Count(c) => c == 0,
        Number::Float(b) => b & 0x7FFF_FFFF == 0,
        Number::Double(b) => b & 0x7FFF_FFFF_FFFF_FFFF == 0,
    }
}

/// The view of a looked-up value.
pub open spec fn found(r: Option<&Reading>) -> Option<ReadingView> {
    match r {
        Some(x) => Some(x@),
        None => None,
    }
}

fn text_in(r: Option<&Reading>) -> (t: Option<String>)
    ensures
        match t {
            Some(s) => text_of(found(r)) == Some(s@),
            None => text_of(found(r)) is None,
        },
{
    match r {
        Some(Reading::Single(Scalar::Text(t))) => Some(t.clone()),
        Some(Reading::List(l)) => if l.len() > 0 {
            match &l[0] {
                Scalar::Text(t) => Some(t.clone()),
                _ => None,
            }
        } else {
            None
        },
        _ => None,
    }
}

fn first_in(r: Option<&Reading>) -> (n: Option<Number>)
    ensures
        n == first_number(found(r)),
{
    match r {
        Some(Reading::Single(s)) => number(s),
        Some(Reading::List(l)) => if l.len() > 0 {
            number(&l[0])
        } else {
            None
        },
        None => None,
    }
}

fn second_in(r: Option<&Reading>) -> (n: Option<Number>)
    ensures
        n == second_number(found(r)),
{
    match r {
        Some(Reading::List(l)) => if l.len() > 1 {
            number(&l[1])
        } else {
            None
        },
        _ => None,
    }
}

fn flag_in(r: Option<&Reading>) -> (b: bool)
    ensures
        b == flag_of(found(r)),
{
    match r {
        Some(Reading::Single(Scalar::Bool(b))) => *b,
        _ => false,
    }
}

fn rate_in(r: Option<&Reading>) -> (q: Option<Rate>)
    ensures
        q == rate_of(found(r)),
{
    match r {
        Some(Reading::Single(s)) => match number(s) {
            Some(n) => Some(Rate { num: n, den: None }),
            None => None,
        },
        Some(Reading::List(l)) => {
            if l.len() == 0 {
                return None;
            }
            match number(&l[0]) {
                Some(n) => {
                    let den = if l.len() > 1 {
                        match number(&l[1]) {
                            Some(d) => if zero(d) {
                                None
                            } else {
                                Some(d)
                            },
                            None => None,
                        }
                    } else {
                        None
                    };
                    Some(Rate { num: n, den })
                },
                None => None,
            }
        },
        None => None,
    }
}

// ------------------------------------------------------------------- indexes

/// The value of a run of decimal digits.
pub open spec fn digits_value(d: Seq<char>) -> nat
    decreases d.len(),
{
    if d.len() == 0 {
        0
    } else {
        digits_value(d.drop_last()) * 10 + ((d.last() as nat) - 48) as nat
    }
}

/// Every character is an ASCII digit.
pub open spec fn all_digits(d: Seq<char>) -> bool {
    forall|i: int| 0 <= i < d.len() ==> '0' <= #[trigger] d[i] <= '9'
}

/// A name read as an index, as `str::parse::<u32>` reads it: an optional
/// `+`, then one or more decimal digits, no larger than `u32::MAX`.
pub open spec fn index_of(k: Seq<char>) -> Option<u32> {
    let d = if k.len() > 0 && k[0] == '+' {
        k.drop_first()
    } else {
        k
    };
    if d.len() > 0 && all_digits(d) && digits_value(d) <= u32::MAX {
        Some(digits_value(d) as u32)
    } else {
        None
    }
}

proof fn lemma_digits_grow(d: Seq<char>, i: int)
    requires
        0 <= i <= d.len(),
        all_digits(d),
    ensures
        digits_value(d.take(i)) <= digits_value(d),
    decreases d.len() - i,
{
    if i < d.len() {
        lemma_digits_grow(d, i + 1);
        assert(d.take(i + 1).drop_last() == d.take(i));
        assert('0' <= d[i] <= '9');
    } else {
        assert(d.take(i) == d);
    }
}

/// Read a name as an index.
pub fn parse_index(k: &str) -> (r: Option<u32>)
    ensures
        r == index_of(k@),
{
    let c = chars_of(k);
    let start: usize = if c.len() > 0 && c[0] == '+' {
        1
    } else {
        0
    };
    let ghost d = c@.skip(start as int);
    assert(d == (if k@.len() > 0 && k@[0] == '+' {
        k@.drop_first()
    } else {
        k@
    }));
    if start == c.len() {
        assert(d.len() == 0);
        return None;
    }
    let mut v: u64 = 0;
    let mut i: usize = start;
    while i < c.len()
        invariant
            start <= i <= c@.len(),
            c@ == k@,
            d == c@.skip(start as int),
            d == (if k@.len() > 0 && k@[0] == '+' {
                k@.drop_first()
            } else {
                k@
            }),
            v <= u32::MAX,
            all_digits(d.take(i - start)),
            v == digits_value(d.take(i - start)),
        decreases c@.len() - i,
    {
        let ch = c[i];
        if ch < '0' || '9' < ch {
            assert(!all_digits(d)) by {
                assert(d[i - start] == ch);
            }
            return None;
        }
        let digit = (ch as u32 - 48) as u64;
        assert(d.take(i + 1 - start).drop_last() == d.take(i - start));
        assert(d.take(i + 1 - start).last() == ch);
        v = v * 10 + digit;
        i = i + 1;
        if v > u32::MAX as u64 {
            proof {
                if all_digits(d) {
                    lemma_digits_grow(d, i - start);
                }
            }
            return None;
        }
    }
    assert(d.take(c@.len() - start) == d);
    Some(v as u32)
}

/// `a` comes before `b`: by index, then by name.
pub open spec fn ranks_before(a: Seq<char>, b: Seq<char>) -> bool {
    index_of(a)->0 < index_of(b)->0 || (index_of(a)->0 == index_of(b)->0 && lex_lt(a, b))
}

/// Names in index order, each once.
pub open spec fn in_index_order(ks: Seq<Seq<char>>) -> bool {
    forall|i: int, j: int| 0 <= i < j < ks.len() ==> ranks_before(#[trigger] ks[i], #[trigger] ks[j])
}

/// The names among `names` that read as indexes.
pub open spec fn indexed(names: Set<Seq<char>>) -> Set<Seq<char>> {
    names.filter(|k: Seq<char>| index_of(k) is Some)
}

/// The names among `names` that read as indexes, in index order.
pub open spec fn index_order(names: Set<Seq<char>>) -> Seq<Seq<char>> {
    choose|ks: Seq<Seq<char>>| in_index_order(ks) && ks.to_set() == indexed(names)
}

proof fn lemma_ranks_irreflexive(a: Seq<char>)
    ensures
        !ranks_before(a, a),
{
    lemma_lex_irreflexive(a);
}

proof fn lemma_ranks_asymmetric(a: Seq<char>, b: Seq<char>)
    requires
        ranks_before(a, b),
    ensures
        !ranks_before(b, a),
{
    if ranks_before(b, a) {
        lemma_lex_transitive(a, b, a);
        lemma_lex_irreflexive(a);
    }
}

proof fn lemma_ranks_transitive(a: Seq<char>, b: Seq<char>, c: Seq<char>)
    requires
        ranks_before(a, b),
        ranks_before(b, c),
    ensures
        ranks_before(a, c),
{
    if index_of(a)->0 == index_of(b)->0 && index_of(b)->0 == index_of(c)->0 {
        lemma_lex_transitive(a, b, c);
    }
}

proof fn lemma_ranks_total(a: Seq<char>, b: Seq<char>)
    requires
        a != b,
    ensures
        ranks_before(a, b) || ranks_before(b, a),
{
    lemma_lex_total(a, b);
}

/// Two lists of names in index order with the same names are the same list.
proof fn lemma_index_order_unique(a: Seq<Seq<char>>, b: Seq<Seq<char>>)
    requires
        in_index_order(a),
        in_index_order(b),
        a.to_set() == b.to_set(),
    ensures
        a == b,
    decreases a.len(),
{
    if a.len() == 0 {
        if b.len() > 0 {
            assert(b.to_set().contains(b[0]));
        }
        assert(a =~= b);
    } else {
        assert(a.to_set().contains(a[0]));
        assert(b.to_set().contains(a[0]));
        let k = choose|k: int| 0 <= k < b.len() && b[k] == a[0];
        assert(b.to_set().contains(b[0]));
        assert(a.to_set().contains(b[0]));
        let m = choose|m: int| 0 <= m < a.len() && a[m] == b[0];
        if k != 0 {
            assert(ranks_before(b[0], b[k]));
            if m == 0 {
                lemma_ranks_irreflexive(a[0]);
            } else {
                assert(ranks_before(a[0], a[m]));
                lemma_ranks_asymmetric(a[0], a[m]);
            }
        }
        assert(a[0] == b[0]);
        let a1 = a.drop_first();
        let b1 = b.drop_first();
        assert forall|x: Seq<char>| a1.to_set().contains(x) <==> b1.to_set().contains(x) by {
            if a1.to_set().contains(x) {
                let i = choose|i: int| 0 <= i < a1.len() && a1[i] == x;
                assert(a[i + 1] == x);
                assert(ranks_before(a[0], a[i + 1]));
                assert(b.to_set().contains(x));
                let j = choose|j: int| 0 <= j < b.len() && b[j] == x;
                if j == 0 {
                    lemma_ranks_irreflexive(x);
                }
                assert(b1[j - 1] == x);
            }
            if b1.to_set().contains(x) {
                let j = choose|j: int| 0 <= j < b1.len() && b1[j] == x;
                assert(b[j + 1] == x);
                assert(ranks_before(b[0], b[j + 1]));
                assert(a.to_set().contains(x));
                let i = choose|i: int| 0 <= i < a.len() && a[i] == x;
                if i == 0 {
                    lemma_ranks_irreflexive(x);
                }
                assert(a1[i - 1] == x);
            }
        }
        assert(a1.to_set() =~= b1.to_set());
        assert forall|i: int, j: int| 0 <= i < j < a1.len() implies ranks_before(
            #[trigger] a1[i],
            #[trigger] a1[j],
        ) by {
            assert(a1[i] == a[i + 1] && a1[j] == a[j + 1]);
        }
        assert forall|i: int, j: int| 0 <= i < j < b1.len() implies ranks_before(
            #[trigger] b1[i],
            #[trigger] b1[j],
        ) by {
            assert(b1[i] == b[i + 1] && b1[j] == b[j + 1]);
        }
        lemma_index_order_unique(a1, b1);
        assert(a =~= seq![a[0]] + a1);
        assert(b =~= seq![b[0]] + b1);
    }
}

fn ranked_before(ai: u32, a: &Vec<char>, bi: u32, b: &Vec<char>) -> (r: bool)
    ensures
        r == (ai < bi || (ai == bi && lex_lt(a@, b@))),
{
    ai < bi || (ai == bi && text_lt(a, b))
}

/// The names in `names` that read as indexes, in index order, with their
/// indexes.
fn order_names(names: &Vec<String>) -> (r: Vec<(u32, String)>)
    ensures
        seg_views(r@.map_values(|p: (u32, String)| p.1)) == index_order(seg_views(names@).to_set()),
        forall|i: int| 0 <= i < r@.len() ==> index_of(#[trigger] r@[i].1@) == Some(r@[i].0),
{
    let mut out: Vec<(u32, Vec<char>)> = Vec::new();
    let ghost all = seg_views(names@);
    for n in 0..names.len()
        invariant
            all == seg_views(names@),
            forall|i: int| 0 <= i < out@.len() ==> index_of(#[trigger] out@[i].1@) == Some(out@[i].0),
            in_index_order(out@.map_values(|p: (u32, Vec<char>)| p.1@)),
            out@.map_values(|p: (u32, Vec<char>)| p.1@).to_set() == indexed(all.take(n as int).to_set()),
    {
        let ghost ks = out@.map_values(|p: (u32, Vec<char>)| p.1@);
        assert(all.take(n + 1) == all.take(n as int).push(all[n as int]));
        proof {
            all.take(n as int).lemma_push_to_set_commute(all[n as int]);
        }
        let key = chars_of(names[n].as_str());
        match parse_index(names[n].as_str()) {
            None => {
                assert(indexed(all.take(n + 1).to_set()) =~= indexed(all.take(n as int).to_set()));
            },
            Some(idx) => {
                let mut p: usize = 0;
                while p < out.len() && ranked_before(out[p].0, &out[p].1, idx, &key)
                    invariant
                        p <= out@.len(),
                        ks == out@.map_values(|q: (u32, Vec<char>)| q.1@),
                        forall|i: int| 0 <= i < out@.len() ==> index_of(#[trigger] out@[i].1@) == Some(out@[i].0),
                        index_of(key@) == Some(idx),
                        forall|i: int| 0 <= i < p ==> ranks_before(#[trigger] ks[i], key@),
                    decreases out@.len() - p,
                {
                    assert(ks[p as int] == out@[p as int].1@);
                    p = p + 1;
                }
                let dup = p < out.len() && out[p].0 == idx && same_chars(&out[p].1, &key);
                if dup {
                    assert(ks[p as int] == key@);
                    assert(indexed(all.take(n + 1).to_set()) =~= indexed(all.take(n as int).to_set()))
                        by {
                        assert(ks.to_set().contains(key@));
                    }
                } else {
                    proof {
                        if p < out@.len() {
                            assert(ks[p as int] == out@[p as int].1@);
                            assert(!ranks_before(ks[p as int], key@));
                            if ks[p as int] == key@ {
                                assert(out@[p as int].0 == idx);
                            }
                            lemma_ranks_total(ks[p as int], key@);
                        }
                    }
                    out.insert(p, (idx, key));
                    let ghost ks2 = out@.map_values(|q: (u32, Vec<char>)| q.1@);
                    assert(ks2 =~= ks.insert(p as int, key@));
                    assert forall|i: int, j: int| 0 <= i < j < ks2.len() implies ranks_before(
                        #[trigger] ks2[i],
                        #[trigger] ks2[j],
                    ) by {
                        if j < p {
                        } else if j == p {
                        } else if i < p {
                            assert(ks2[j] == ks[j - 1]);
                            if j - 1 > p {
                                lemma_ranks_transitive(key@, ks[p as int], ks[j - 1]);
                            }
                            lemma_ranks_transitive(ks2[i], key@, ks2[j]);
                        } else if i == p {
                            assert(ks2[j] == ks[j - 1]);
                            if j - 1 > p {
                                lemma_ranks_transitive(key@, ks[p as int], ks[j - 1]);
                            }
                        } else {
                            assert(ks2[i] == ks[i - 1]);
                            assert(ks2[j] == ks[j - 1]);
                        }
                    }
                    assert forall|x: Seq<char>| ks2.contains(x) <==> (ks.contains(x) || x == key@) by {
                        if ks2.contains(x) {
                            let i = choose|i: int| 0 <= i < ks2.len() && ks2[i] == x;
                            if i < p {
                                assert(ks[i] == x);
                            } else if i > p {
                                assert(ks[i - 1] == x);
                            }
                        }
                        if ks.contains(x) {
                            let i = choose|i: int| 0 <= i < ks.len() && ks[i] == x;
                            if i < p {
                                assert(ks2[i] == x);
                            } else {
                                assert(ks2[i + 1] == x);
                            }
                        }
                        if x == key@ {
                            assert(ks2[p as int] == x);
                        }
                    }
                    assert(ks2.to_set() =~= ks.to_set().insert(key@));
                    assert(indexed(all.take(n + 1).to_set()) =~= indexed(all.take(n as int).to_set()).insert(
                        key@,
                    ));
                }
            },
        }
    }
    assert(all.take(names@.len() as int) == all);
    let ghost ks = out@.map_values(|q: (u32, Vec<char>)| q.1@);
    let mut r: Vec<(u32, String)> = Vec::new();
    for i in 0..out.len()
        invariant
            ks == out@.map_values(|q: (u32, Vec<char>)| q.1@),
            forall|k: int| 0 <= k < out@.len() ==> index_of(#[trigger] out@[k].1@) == Some(out@[k].0),
            seg_views(r@.map_values(|p: (u32, String)| p.1)) == ks.take(i as int),
            forall|k: int| 0 <= k < r@.len() ==> index_of(#[trigger] r@[k].1@) == Some(r@[k].0),
    {
        let ghost before = seg_views(r@.map_values(|p: (u32, String)| p.1));
        r.push((out[i].0, string_of(&out[i].1)));
        assert(seg_views(r@.map_values(|p: (u32, String)| p.1)) =~= before.push(ks[i as int]));
        assert(ks.take(i + 1) == ks.take(i as int).push(ks[i as int]));
    }
    assert(ks.take(out@.len() as int) == ks);
    proof {
        let chosen = index_order(all.to_set());
        assert(in_index_order(ks) && ks.to_set() == indexed(all.to_set()));
        lemma_index_order_unique(ks, chosen);
    }
    r
}

fn same_chars(a: &Vec<char>, b: &Vec<char>) -> (r: bool)
    ensures
        r == (a@ == b@),
{
    if a.len() != b.len() {
        return false;
    }
    for i in 0..a.len()
        invariant
            a@.len() == b@.len(),
            forall|k: int| 0 <= k < i ==> a@[k] == b@[k],
    {
        if a[i] != b[i] {
            return false;
        }
    }
    assert(a@ =~= b@);
    true
}

// ------------------------------------------------------------------ the views

/// What is loaded in a layer's foreground or background.
#[derive(Debug, Clone, PartialEq)]
pub struct SlotState {
    pub producer: Option<String>,
    pub paused: bool,
    pub path: Option<String>,
    pub name: Option<String>,
    /// Position in seconds, from `file/time`.
    pub time: Option<Number>,
    /// Length in seconds, from `file/time`.
    pub duration: Option<Number>,
    /// The stream frame rate.
    pub fps: Option<Rate>,
    pub loops: bool,
    /// In-point in seconds, from `file/clip`.
    pub clip_in: Option<Number>,
    /// Trimmed length in seconds, from `file/clip`.
    pub clip_duration: Option<Number>,
    pub width: Option<Number>,
    pub height: Option<Number>,
}

/// One layer, and what is in its two slots.
#[derive(Debug, Clone, PartialEq)]
pub struct LayerState {
    pub index: u32,
    pub foreground: Option<SlotState>,
    pub background: Option<SlotState>,
}

/// One channel's live state.
#[derive(Debug, Clone, PartialEq)]
pub struct ChannelState {
    pub index: u32,
    pub format: Option<String>,
    pub framerate: Option<Rate>,
    pub layers: Vec<LayerState>,
}

/// The content of a [`SlotState`].
pub struct SlotView {
    pub producer: Option<Seq<char>>,
    pub paused: bool,
    pub path: Option<Seq<char>>,
    pub name: Option<Seq<char>>,
    pub time: Option<Number>,
    pub duration: Option<Number>,
    pub fps: Option<Rate>,
    pub loops: bool,
    pub clip_in: Option<Number>,
    pub clip_duration: Option<Number>,
    pub width: Option<Number>,
    pub height: Option<Number>,
}

/// The content of a [`LayerState`].
pub struct LayerView {
    pub index: u32,
    pub foreground: Option<SlotView>,
    pub background: Option<SlotView>,
}

/// The content of a [`ChannelState`].
pub struct ChannelView {
    pub index: u32,
    pub format: Option<Seq<char>>,
    pub framerate: Option<Rate>,
    pub layers: Seq<LayerView>,
}

/// The text of an optional string.
pub open spec fn text_view(o: Option<String>) -> Option<Seq<char>> {
    match o {
        Some(s) => Some(s@),
        None => None,
    }
}

/// The content of a slot.
pub open spec fn slot_view(s: SlotState) -> SlotView {
    SlotView {
        producer: text_view(s.producer),
        paused: s.paused,
        path: text_view(s.path),
        name: text_view(s.name),
        time: s.time,
        duration: s.duration,
        fps: s.fps,
        loops: s.loops,
        clip_in: s.clip_in,
        clip_duration: s.clip_duration,
        width: s.width,
        height: s.height,
    }
}

/// The content of an optional slot.
pub open spec fn opt_slot_view(s: Option<SlotState>) -> Option<SlotView> {
    match s {
        Some(x) => Some(slot_view(x)),
        None => None,
    }
}

/// The content of a layer.
pub open spec fn layer_view(l: LayerState) -> LayerView {
    LayerView {
        index: l.index,
        foreground: opt_slot_view(l.foreground),
        background: opt_slot_view(l.background),
    }
}

/// The content of a channel.
pub open spec fn channel_view(c: ChannelState) -> ChannelView {
    ChannelView {
        index: c.index,
        format: text_view(c.format),
        framerate: c.framerate,
        layers: c.layers@.map_values(|l: LayerState| layer_view(l)),
    }
}

// ----------------------------------------------------------- reading the tree

/// The value at `b` followed by `rel`.
pub open spec fn under(es: Seq<RawView>, b: Seq<Seq<char>>, rel: Seq<Seq<char>>) -> Option<
    ReadingView,
> {
    value_at(es, b + rel)
}

/// The slot at `b`: nothing when nothing is there or the producer is
/// `empty`; otherwise what its keys say.
pub open spec fn slot_of(es: Seq<RawView>, b: Seq<Seq<char>>) -> Option<SlotView> {
    let producer = text_of(under(es, b, seq!["producer"@]));
    if !node_at(es, b) || producer == Some("empty"@) {
        None
    } else {
        Some(
            SlotView {
                producer,
                paused: flag_of(under(es, b, seq!["paused"@])),
                path: text_of(under(es, b, seq!["file"@, "path"@])),
                name: text_of(under(es, b, seq!["file"@, "name"@])),
                time: first_number(under(es, b, seq!["file"@, "time"@])),
                duration: second_number(under(es, b, seq!["file"@, "time"@])),
                fps: match rate_of(under(es, b, seq!["file"@, "streams"@, "0"@, "fps"@])) {
                    Some(r) => Some(r),
                    None => rate_of(under(es, b, seq!["file"@, "fps"@])),
                },
                loops: flag_of(under(es, b, seq!["loop"@])),
                clip_in: first_number(under(es, b, seq!["file"@, "clip"@])),
                clip_duration: second_number(under(es, b, seq!["file"@, "clip"@])),
                width: first_number(under(es, b, seq!["file"@, "video"@, "width"@])),
                height: first_number(under(es, b, seq!["file"@, "video"@, "height"@])),
            },
        )
    }
}

/// What a digested slot reports of its own keys. It is paused, or loops,
/// exactly when its `paused`, or `loop`, key holds the single value `true`;
/// anything else there, or nothing, reads as false. Its producer is the text
/// its `producer` key holds, when that is a single text. Its position and
/// length are the first and second numbers its `file/time` key holds; a
/// single number there is a position with no length.
pub proof fn lemma_slot_reads_its_keys(es: Seq<RawView>, b: Seq<Seq<char>>)
    ensures
        slot_of(es, b) matches Some(sv) ==> (sv.paused <==> value_at(es, b.push("paused"@)) == Some(
            ReadingView::Single(ScalarView::Bool(true)),
        )) && (sv.loops <==> value_at(es, b.push("loop"@)) == Some(
            ReadingView::Single(ScalarView::Bool(true)),
        )) && (forall|t: Seq<char>|
            value_at(es, b.push("producer"@)) == Some(ReadingView::Single(ScalarView::Text(t)))
                ==> sv.producer == Some(t)) && (forall|l: Seq<ScalarView>|
            value_at(es, b + seq!["file"@, "time"@]) == Some(ReadingView::List(l)) && l.len() >= 2
                ==> sv.time == number_of(l[0]) && sv.duration == number_of(l[1])) && (forall|
            x: ScalarView,
        |
            value_at(es, b + seq!["file"@, "time"@]) == Some(ReadingView::Single(x))
                ==> sv.time == number_of(x) && sv.duration is None),
{
    assert(b + seq!["paused"@] =~= b.push("paused"@));
    assert(b + seq!["loop"@] =~= b.push("loop"@));
    assert(b + seq!["producer"@] =~= b.push("producer"@));
}

/// Where layer `l` of channel `k` is.
pub open spec fn layer_path(k: Seq<char>, l: Seq<char>) -> Seq<Seq<char>> {
    seq!["channel"@, k, "stage"@, "layer"@, l]
}

/// Layer `l` of channel `k`.
pub open spec fn layer_of(es: Seq<RawView>, k: Seq<char>, l: Seq<char>) -> LayerView {
    LayerView {
        index: index_of(l)->0,
        foreground: slot_of(es, layer_path(k, l).push("foreground"@)),
        background: slot_of(es, layer_path(k, l).push("background"@)),
    }
}

/// Channel `k`.
pub open spec fn channel_of(es: Seq<RawView>, k: Seq<char>) -> ChannelView {
    ChannelView {
        index: index_of(k)->0,
        format: text_of(value_at(es, seq!["channel"@, k, "format"@])),
        framerate: rate_of(value_at(es, seq!["channel"@, k, "framerate"@])),
        layers: index_order(child_names(es, seq!["channel"@, k, "stage"@, "layer"@])).map_values(
            |l: Seq<char>| layer_of(es, k, l),
        ),
    }
}

/// The digest of a raw tree: its channels in index order.
pub open spec fn digest_of(es: Seq<RawView>) -> Seq<ChannelView> {
    index_order(child_names(es, seq!["channel"@])).map_values(|k: Seq<char>| channel_of(es, k))
}

fn path_of(parts: &[&str]) -> (r: Vec<String>)
    ensures
        seg_views(r@) == str_views(parts@),
{
    let mut r: Vec<String> = Vec::new();
    for i in 0..parts.len()
        invariant
            seg_views(r@) == str_views(parts@).take(i as int),
    {
        let ghost before = seg_views(r@);
        r.push(string_from(parts[i]));
        assert(seg_views(r@) =~= before.push(parts@[i as int]@));
        assert(str_views(parts@).take(i + 1) =~= str_views(parts@).take(i as int).push(
            parts@[i as int]@,
        ));
    }
    assert(str_views(parts@).take(parts@.len() as int) == str_views(parts@));
    r
}

fn slot_at(tree: &RawTree, b: &Vec<String>) -> (r: Option<SlotState>)
    ensures
        opt_slot_view(r) == slot_of(tree@, seg_views(b@)),
{
    let k_producer: [&str; 1] = ["producer"];
    let k_paused: [&str; 1] = ["paused"];
    let k_path: [&str; 2] = ["file", "path"];
    let k_name: [&str; 2] = ["file", "name"];
    let k_time: [&str; 2] = ["file", "time"];
    let k_stream_fps: [&str; 4] = ["file", "streams", "0", "fps"];
    let k_fps: [&str; 2] = ["file", "fps"];
    let k_loop: [&str; 1] = ["loop"];
    let k_clip: [&str; 2] = ["file", "clip"];
    let k_width: [&str; 3] = ["file", "video", "width"];
    let k_height: [&str; 3] = ["file", "video", "height"];
    assert(str_views(k_producer@) =~= seq!["producer"@]);
    assert(str_views(k_paused@) =~= seq!["paused"@]);
    assert(str_views(k_path@) =~= seq!["file"@, "path"@]);
    assert(str_views(k_name@) =~= seq!["file"@, "name"@]);
    assert(str_views(k_time@) =~= seq!["file"@, "time"@]);
    assert(str_views(k_stream_fps@) =~= seq!["file"@, "streams"@, "0"@, "fps"@]);
    assert(str_views(k_fps@) =~= seq!["file"@, "fps"@]);
    assert(str_views(k_loop@) =~= seq!["loop"@]);
    assert(str_views(k_clip@) =~= seq!["file"@, "clip"@]);
    assert(str_views(k_width@) =~= seq!["file"@, "video"@, "width"@]);
    assert(str_views(k_height@) =~= seq!["file"@, "video"@, "height"@]);
    let producer = text_in(tree.find(b, &k_producer));
    if !tree.has_node(b) {
        return None;
    }
    let empty = match &producer {
        Some(p) => same_text(p.as_str(), "empty"),
        None => false,
    };
    if empty {
        return None;
    }
    let fps = match rate_in(tree.find(b, &k_stream_fps)) {
        Some(r) => Some(r),
        None => rate_in(tree.find(b, &k_fps)),
    };
    let s = SlotState {
        producer,
        paused: flag_in(tree.find(b, &k_paused)),
        path: text_in(tree.find(b, &k_path)),
        name: text_in(tree.find(b, &k_name)),
        time: first_in(tree.find(b, &k_time)),
        duration: second_in(tree.find(b, &k_time)),
        fps,
        loops: flag_in(tree.find(b, &k_loop)),
        clip_in: first_in(tree.find(b, &k_clip)),
        clip_duration: second_in(tree.find(b, &k_clip)),
        width: first_in(tree.find(b, &k_width)),
        height: first_in(tree.find(b, &k_height)),
    };
    Some(s)
}

fn with_segment(b: &Vec<String>, seg: &str) -> (r: Vec<String>)
    ensures
        seg_views(r@) == seg_views(b@).push(seg@),
{
    let mut r: Vec<String> = Vec::new();
    for i in 0..b.len()
        invariant
            seg_views(r@) == seg_views(b@).take(i as int),
    {
        let ghost before = seg_views(r@);
        r.push(b[i].clone());
        assert(seg_views(r@) =~= before.push(b@[i as int]@));
        assert(seg_views(b@).take(i + 1) =~= seg_views(b@).take(i as int).push(b@[i as int]@));
    }
    assert(seg_views(b@).take(b@.len() as int) == seg_views(b@));
    let ghost before = seg_views(r@);
    r.push(string_from(seg));
    assert(seg_views(r@) =~= before.push(seg@));
    r
}

fn layer_at(tree: &RawTree, k: &str, l: &str, idx: u32) -> (r: LayerState)
    requires
        index_of(l@) == Some(idx),
    ensures
        layer_view(r) == layer_of(tree@, k@, l@),
{
    let top: [&str; 5] = ["channel", k, "stage", "layer", l];
    let base = path_of(&top);
    assert(seg_views(base@) =~= layer_path(k@, l@));
    let fg = with_segment(&base, "foreground");
    let bg = with_segment(&base, "background");
    LayerState { index: idx, foreground: slot_at(tree, &fg), background: slot_at(tree, &bg) }
}

fn channel_at(tree: &RawTree, k: &str, idx: u32) -> (r: ChannelState)
    requires
        index_of(k@) == Some(idx),
    ensures
        channel_view(r) == channel_of(tree@, k@),
{
    let top: [&str; 2] = ["channel", k];
    let base = path_of(&top);
    assert(seg_views(base@) =~= seq!["channel"@, k@]);
    let k_format: [&str; 1] = ["format"];
    let k_framerate: [&str; 1] = ["framerate"];
    assert(str_views(k_format@) =~= seq!["format"@]);
    assert(str_views(k_framerate@) =~= seq!["framerate"@]);
    assert(seq!["channel"@, k@] + seq!["format"@] =~= seq!["channel"@, k@, "format"@]);
    assert(seq!["channel"@, k@] + seq!["framerate"@] =~= seq!["channel"@, k@, "framerate"@]);
    let format = text_in(tree.find(&base, &k_format));
    let framerate = rate_in(tree.find(&base, &k_framerate));
    let stage: [&str; 4] = ["channel", k, "stage", "layer"];
    let layer_base = path_of(&stage);
    let ghost lb = seq!["channel"@, k@, "stage"@, "layer"@];
    assert(seg_views(layer_base@) =~= lb);
    let names = tree.children(&layer_base);
    let ordered = order_names(&names);
    let ghost want = index_order(child_names(tree@, lb));
    let mut layers: Vec<LayerState> = Vec::new();
    for i in 0..ordered.len()
        invariant
            seg_views(ordered@.map_values(|p: (u32, String)| p.1)) == want,
            forall|j: int| 0 <= j < ordered@.len() ==> index_of(#[trigger] ordered@[j].1@) == Some(
                ordered@[j].0,
            ),
            layers@.map_values(|l: LayerState| layer_view(l)) == want.take(i as int).map_values(
                |l: Seq<char>| layer_of(tree@, k@, l),
            ),
    {
        let ghost before = layers@.map_values(|l: LayerState| layer_view(l));
        assert(want[i as int] == ordered@[i as int].1@);
        layers.push(layer_at(tree, k, ordered[i].1.as_str(), ordered[i].0));
        assert(layers@.map_values(|l: LayerState| layer_view(l)) =~= before.push(
            layer_of(tree@, k@, want[i as int]),
        ));
        assert(want.take(i + 1).map_values(|l: Seq<char>| layer_of(tree@, k@, l)) =~= want.take(
            i as int,
        ).map_values(|l: Seq<char>| layer_of(tree@, k@, l)).push(layer_of(tree@, k@, want[i as int])));
    }
    assert(want.take(want.len() as int) == want);
    let r = ChannelState { index: idx, format, framerate, layers };
    assert(channel_view(r).layers == channel_of(tree@, k@).layers);
    r
}

/// The digest of a raw tree.
pub fn digest_tree(tree: &RawTree) -> (r: Vec<ChannelState>)
    ensures
        r@.map_values(|c: ChannelState| channel_view(c)) == digest_of(tree@),
{
    let top: [&str; 1] = ["channel"];
    let base = path_of(&top);
    assert(seg_views(base@) =~= seq!["channel"@]);
    let names = tree.children(&base);
    let ordered = order_names(&names);
    let ghost want = index_order(child_names(tree@, seq!["channel"@]));
    let mut out: Vec<ChannelState> = Vec::new();
    for i in 0..ordered.len()
        invariant
            seg_views(ordered@.map_values(|p: (u32, String)| p.1)) == want,
            forall|j: int| 0 <= j < ordered@.len() ==> index_of(#[trigger] ordered@[j].1@) == Some(
                ordered@[j].0,
            ),
            out@.map_values(|c: ChannelState| channel_view(c)) == want.take(i as int).map_values(
                |k: Seq<char>| channel_of(tree@, k),
            ),
    {
        let ghost before = out@.map_values(|c: ChannelState| channel_view(c));
        assert(want[i as int] == ordered@[i as int].1@);
        out.push(channel_at(tree, ordered[i].1.as_str(), ordered[i].0));
        assert(out@.map_values(|c: ChannelState| channel_view(c)) =~= before.push(
            channel_of(tree@, want[i as int]),
        ));
        assert(want.take(i + 1).map_values(|k: Seq<char>| channel_of(tree@, k)) =~= want.take(
            i as int,
        ).map_values(|k: Seq<char>| channel_of(tree@, k)).push(channel_of(tree@, want[i as int])));
    }
    assert(want.take(want.len() as int) == want);
    out
}

impl Telemetry {
    /// The typed view the console renders: the raw tree's channels in index
    /// order, each with its layers in index order.
    pub fn digest(&self) -> (r: Vec<ChannelState>)
        ensures
            r@.map_values(|c: ChannelState| channel_view(c)) == digest_of(
                crate::osc::tree::raw_of(self@.leaves),
            ),
    {
        let tree = self.raw();
        digest_tree(&tree)
    }
}

} // verus!
