//! The raw telemetry tree.
//!
//! The server's key set differs by version, producer and consumer, so next to
//! the typed digest the bridge keeps a raw mirror of every path the server has
//! sent, which survives the server growing new keys. It is a nested tree: a
//! path's non-empty `/`-separated segments lead from the root to its value.
//!
//! Here the tree is held by its values, each with the segments that lead to
//! it. Building it from the leaves in path order, a value put at some
//! segments replaces what was there, subtree and all, and turns any value
//! above it into a branch, dropping that value: so a leaf can become a branch
//! when the server starts reporting sub-keys under a path it used to report a
//! value for, and the later message wins. No value's segments ever lead
//! through another's.

use vstd::prelude::*;

use crate::osc::state::{LeafView, Reading, ReadingView};
use crate::text::{same_text, string_of};

verus! {

broadcast use vstd::string::group_string_axioms;

/// The non-empty `/`-separated segments of a path.
pub open spec fn segments(path: Seq<char>) -> Seq<Seq<char>> {
    segments_from(path, Seq::empty())
}

/// The segments of `s`, the first of them continuing `current`.
pub open spec fn segments_from(s: Seq<char>, current: Seq<char>) -> Seq<Seq<char>>
    decreases s.len(),
{
    if s.len() == 0 {
        if current.len() == 0 {
            Seq::empty()
        } else {
            seq![current]
        }
    } else if s[0] == '/' {
        (if current.len() == 0 {
            Seq::empty()
        } else {
            seq![current]
        }) + segments_from(s.drop_first(), Seq::empty())
    } else {
        segments_from(s.drop_first(), current.push(s[0]))
    }
}

/// `a` leads to `b`, or is it.
pub open spec fn is_prefix(a: Seq<Seq<char>>, b: Seq<Seq<char>>) -> bool {
    a.len() <= b.len() && b.take(a.len() as int) == a
}

/// One of `a` and `b` leads through the other, or they are the same.
pub open spec fn related(a: Seq<Seq<char>>, b: Seq<Seq<char>>) -> bool {
    is_prefix(a, b) || is_prefix(b, a)
}

/// A value of the tree, as plain values: the segments leading to it, and it.
pub type RawView = (Seq<Seq<char>>, ReadingView);

/// Whether a value stays when a value is put at `segs`.
pub open spec fn unrelated_to(segs: Seq<Seq<char>>) -> spec_fn(RawView) -> bool {
    |e: RawView| !related(e.0, segs)
}

/// The tree with `v` put at `segs`: everything at, below or above `segs` goes,
/// then `v` is added.
pub open spec fn place(es: Seq<RawView>, segs: Seq<Seq<char>>, v: ReadingView) -> Seq<RawView> {
    es.filter(unrelated_to(segs)).push((segs, v))
}

/// The tree built from leaves in order. A path with no segments adds nothing.
pub open spec fn raw_of(leaves: Seq<LeafView>) -> Seq<RawView>
    decreases leaves.len(),
{
    if leaves.len() == 0 {
        Seq::empty()
    } else {
        let rest = raw_of(leaves.drop_last());
        let segs = segments(leaves.last().path);
        if segs.len() == 0 {
            rest
        } else {
            place(rest, segs, leaves.last().value)
        }
    }
}

/// No value's segments lead through another's.
pub open spec fn prefix_free(es: Seq<RawView>) -> bool {
    forall|i: int, j: int| 0 <= i < es.len() && 0 <= j < es.len() && i != j ==> !related(
        #[trigger] es[i].0,
        #[trigger] es[j].0,
    )
}

/// The value at exactly `segs`, if there is one.
pub open spec fn value_at(es: Seq<RawView>, segs: Seq<Seq<char>>) -> Option<ReadingView> {
    if exists|i: int| 0 <= i < es.len() && es[i].0 == segs {
        Some(es[choose|i: int| 0 <= i < es.len() && es[i].0 == segs].1)
    } else {
        None
    }
}

/// In a prefix-free tree the value at an entry's own path is that entry's value.
proof fn lemma_value_at_entry(es: Seq<RawView>, n: int)
    requires
        prefix_free(es),
        0 <= n < es.len(),
    ensures
        value_at(es, es[n].0) == Some(es[n].1),
{
    let want = es[n].0;
    assert(es[n].0 == want);
    let c = choose|i: int| 0 <= i < es.len() && es[i].0 == want;
    assert(0 <= c < es.len() && es[c].0 == want);
    if c != n {
        assert(es[n].0.take(es[n].0.len() as int) =~= es[n].0);
        assert(is_prefix(es[c].0, es[n].0));
        assert(!related(es[c].0, es[n].0));
    }
}

/// One value of the tree.
#[derive(Debug, Clone, PartialEq)]
pub struct RawEntry {
    pub path: Vec<String>,
    pub value: Reading,
}

/// The texts of a list of strings.
pub open spec fn seg_views(v: Seq<String>) -> Seq<Seq<char>> {
    v.map_values(|s: String| s@)
}

/// The view of one value.
pub open spec fn raw_entry_view(e: RawEntry) -> RawView {
    (seg_views(e.path@), e.value@)
}

/// The raw tree, as its values.
#[derive(Debug)]
pub struct RawTree {
    entries: Vec<RawEntry>,
}

impl View for RawTree {
    type V = Seq<RawView>;

    closed spec fn view(&self) -> Seq<RawView> {
        self.entries@.map_values(|e: RawEntry| raw_entry_view(e))
    }
}

/// The segments of a path, as strings.
pub fn split_segments(path: &Vec<char>) -> (r: Vec<String>)
    ensures
        seg_views(r@) == segments(path@),
{
    let mut out: Vec<String> = Vec::new();
    let mut cur: Vec<char> = Vec::new();
    assert(path@.skip(0) == path@);
    assert(seg_views(out@) =~= Seq::<Seq<char>>::empty());
    for i in 0..path.len()
        invariant
            seg_views(out@) + segments_from(path@.skip(i as int), cur@) == segments(path@),
    {
        assert(path@.skip(i as int).drop_first() == path@.skip(i + 1));
        assert(path@.skip(i as int)[0] == path@[i as int]);
        if path[i] == '/' {
            let ghost before = seg_views(out@);
            if cur.len() > 0 {
                out.push(string_of(&cur));
                assert(seg_views(out@) =~= before + seq![cur@]);
                assert(before + seq![cur@] + segments_from(path@.skip(i + 1), Seq::empty())
                    =~= before + (seq![cur@] + segments_from(path@.skip(i + 1), Seq::empty())));
            } else {
                assert(Seq::<Seq<char>>::empty() + segments_from(path@.skip(i + 1), Seq::empty())
                    =~= segments_from(path@.skip(i + 1), Seq::empty()));
            }
            cur = Vec::new();
        } else {
            cur.push(path[i]);
        }
    }
    assert(path@.skip(path@.len() as int) =~= Seq::<char>::empty());
    let ghost before = seg_views(out@);
    if cur.len() > 0 {
        out.push(string_of(&cur));
        assert(seg_views(out@) =~= before + seq![cur@]);
    } else {
        assert(before + Seq::<Seq<char>>::empty() =~= before);
    }
    out
}

fn same_segments(a: &Vec<String>, b: &Vec<String>, n: usize) -> (r: bool)
    requires
        n <= a@.len(),
        n <= b@.len(),
    ensures
        r == (seg_views(a@).take(n as int) == seg_views(b@).take(n as int)),
{
    for k in 0..n
        invariant
            n <= a@.len(),
            n <= b@.len(),
            forall|m: int| 0 <= m < k ==> a@[m]@ == b@[m]@,
    {
        if !same_text(a[k].as_str(), b[k].as_str()) {
            assert(seg_views(a@).take(n as int)[k as int] != seg_views(b@).take(n as int)[k as int]);
            return false;
        }
    }
    assert(seg_views(a@).take(n as int) =~= seg_views(b@).take(n as int));
    true
}

fn prefix_related(a: &Vec<String>, b: &Vec<String>) -> (r: bool)
    ensures
        r == related(seg_views(a@), seg_views(b@)),
{
    let n = if a.len() <= b.len() {
        a.len()
    } else {
        b.len()
    };
    let r = same_segments(a, b, n);
    proof {
        let x = seg_views(a@);
        let y = seg_views(b@);
        if a@.len() <= b@.len() {
            assert(x.take(n as int) == x);
        } else {
            assert(y.take(n as int) == y);
        }
    }
    r
}

fn copy_segments(v: &Vec<String>) -> (r: Vec<String>)
    ensures
        r@ == v@,
{
    let mut r: Vec<String> = Vec::new();
    for i in 0..v.len()
        invariant
            r@ == v@.take(i as int),
    {
        r.push(v[i].clone());
        assert(v@.take(i + 1) == v@.take(i as int).push(v@[i as int]));
    }
    assert(v@.take(v.len() as int) == v@);
    r
}

impl RawTree {
    #[verifier::type_invariant]
    spec fn inv(self) -> bool {
        prefix_free(self@)
    }

    /// An empty tree.
    pub fn new() -> (r: RawTree)
        ensures
            r@ == Seq::<RawView>::empty(),
    {
        let r = RawTree { entries: Vec::new() };
        assert(r@ =~= Seq::<RawView>::empty());
        r
    }

    /// Put a value at the segments of `path`; a path with none adds nothing.
    pub fn put(&mut self, path: &Vec<char>, value: Reading)
        ensures
            final(self)@ == if segments(path@).len() == 0 {
                old(self)@
            } else {
                place(old(self)@, segments(path@), value@)
            },
    {
        proof {
            use_type_invariant(&*self);
        }
        let segs = split_segments(path);
        if segs.len() == 0 {
            return;
        }
        let ghost all = self@;
        let ghost pred = unrelated_to(seg_views(segs@));
        let mut kept: Vec<RawEntry> = Vec::new();
        assert(all.take(0).filter(pred) =~= Seq::<RawView>::empty()) by {
            reveal(Seq::filter);
        }
        assert(kept@.map_values(|e: RawEntry| raw_entry_view(e)) =~= Seq::<RawView>::empty());
        for k in 0..self.entries.len()
            invariant
                all == self@,
                pred == unrelated_to(seg_views(segs@)),
                kept@.map_values(|e: RawEntry| raw_entry_view(e)) == all.take(k as int).filter(pred),
        {
            let ghost before = kept@.map_values(|e: RawEntry| raw_entry_view(e));
            assert(all[k as int] == raw_entry_view(self.entries@[k as int]));
            assert(all.take(k + 1) == all.take(k as int).push(all[k as int]));
            proof {
                all.take(k as int).lemma_filter_push(all[k as int], pred);
            }
            if !prefix_related(&self.entries[k].path, &segs) {
                let e = RawEntry {
                    path: copy_segments(&self.entries[k].path),
                    value: crate::osc::state::copy_reading(&self.entries[k].value),
                };
                kept.push(e);
                assert(kept@.map_values(|e: RawEntry| raw_entry_view(e)) =~= before.push(
                    all[k as int],
                ));
            }
        }
        assert(all.take(all.len() as int) == all);
        let ghost before = kept@.map_values(|e: RawEntry| raw_entry_view(e));
        kept.push(RawEntry { path: segs, value });
        assert(kept@.map_values(|e: RawEntry| raw_entry_view(e)) =~= before.push(
            (segments(path@), value@),
        ));
        proof {
            lemma_place_prefix_free(all, segments(path@), value@);
        }
        self.entries = kept;
    }

    /// The values, each with the segments leading to it.
    pub fn entries(&self) -> (r: &Vec<RawEntry>)
        ensures
            r@.map_values(|e: RawEntry| raw_entry_view(e)) == self@,
    {
        &self.entries
    }
}

/// Whether there is anything at `segs`: a value, or a branch with values
/// below it.
pub open spec fn node_at(es: Seq<RawView>, segs: Seq<Seq<char>>) -> bool {
    exists|i: int| 0 <= i < es.len() && is_prefix(segs, #[trigger] es[i].0)
}

/// The names of the children of the branch at `segs`.
pub open spec fn child_names(es: Seq<RawView>, segs: Seq<Seq<char>>) -> Set<Seq<char>> {
    Set::new(
        |k: Seq<char>|
            exists|i: int|
                0 <= i < es.len() && segs.len() < es[i].0.len() && is_prefix(segs, #[trigger] es[i].0)
                    && es[i].0[segs.len() as int] == k,
    )
}

/// The texts of a list of string slices.
pub open spec fn str_views(v: Seq<&str>) -> Seq<Seq<char>> {
    v.map_values(|s: &str| s@)
}

fn path_is(entry: &Vec<String>, base: &Vec<String>, rel: &[&str]) -> (r: bool)
    ensures
        r == (seg_views(entry@) == seg_views(base@) + str_views(rel@)),
{
    let ghost want = seg_views(base@) + str_views(rel@);
    if entry.len() < base.len() || entry.len() - base.len() != rel.len() {
        assert(seg_views(entry@).len() != want.len());
        return false;
    }
    for k in 0..entry.len()
        invariant
            entry@.len() == base@.len() + rel@.len(),
            want == seg_views(base@) + str_views(rel@),
            forall|m: int| 0 <= m < k ==> seg_views(entry@)[m] == want[m],
    {
        let same = if k < base.len() {
            same_text(entry[k].as_str(), base[k].as_str())
        } else {
            same_text(entry[k].as_str(), rel[k - base.len()])
        };
        if !same {
            assert(seg_views(entry@)[k as int] != want[k as int]);
            return false;
        }
    }
    assert(seg_views(entry@) =~= want);
    true
}

fn leads_to(base: &Vec<String>, entry: &Vec<String>) -> (r: bool)
    ensures
        r == is_prefix(seg_views(base@), seg_views(entry@)),
{
    if base.len() > entry.len() {
        return false;
    }
    for k in 0..base.len()
        invariant
            base@.len() <= entry@.len(),
            forall|m: int| 0 <= m < k ==> base@[m]@ == entry@[m]@,
    {
        if !same_text(base[k].as_str(), entry[k].as_str()) {
            assert(seg_views(entry@).take(base@.len() as int)[k as int] != seg_views(base@)[k as int]);
            return false;
        }
    }
    assert(seg_views(entry@).take(base@.len() as int) =~= seg_views(base@));
    true
}

fn contains_text(v: &Vec<String>, t: &str) -> (r: bool)
    ensures
        r == seg_views(v@).contains(t@),
{
    for k in 0..v.len()
        invariant
            forall|m: int| 0 <= m < k ==> v@[m]@ != t@,
    {
        if same_text(v[k].as_str(), t) {
            assert(seg_views(v@)[k as int] == t@);
            return true;
        }
    }
    false
}

impl RawTree {
    /// The value at `base` followed by `rel`, if there is one.
    pub fn find(&self, base: &Vec<String>, rel: &[&str]) -> (r: Option<&Reading>)
        ensures
            match r {
                Some(v) => value_at(self@, seg_views(base@) + str_views(rel@)) == Some(v@),
                None => value_at(self@, seg_views(base@) + str_views(rel@)) is None,
            },
    {
        proof {
            use_type_invariant(&*self);
        }
        let ghost want = seg_views(base@) + str_views(rel@);
        for i in 0..self.entries.len()
            invariant
                prefix_free(self@),
                want == seg_views(base@) + str_views(rel@),
                forall|j: int| 0 <= j < i ==> #[trigger] self@[j].0 != want,
        {
            assert(self@[i as int] == raw_entry_view(self.entries@[i as int]));
            if path_is(&self.entries[i].path, base, rel) {
                proof {
                    lemma_value_at_entry(self@, i as int);
                }
                return Some(&self.entries[i].value);
            }
        }
        None
    }

    /// Whether there is anything at `base`.
    pub fn has_node(&self, base: &Vec<String>) -> (r: bool)
        ensures
            r == node_at(self@, seg_views(base@)),
    {
        for i in 0..self.entries.len()
            invariant
                forall|j: int| 0 <= j < i ==> !is_prefix(seg_views(base@), #[trigger] self@[j].0),
        {
            assert(self@[i as int] == raw_entry_view(self.entries@[i as int]));
            if leads_to(base, &self.entries[i].path) {
                assert(is_prefix(seg_views(base@), self@[i as int].0));
                return true;
            }
        }
        false
    }

    /// The names of the children of the branch at `base`, each once.
    pub fn children(&self, base: &Vec<String>) -> (r: Vec<String>)
        ensures
            seg_views(r@).to_set() == child_names(self@, seg_views(base@)),
            seg_views(r@).no_duplicates(),
    {
        let ghost b = seg_views(base@);
        let mut out: Vec<String> = Vec::new();
        for i in 0..self.entries.len()
            invariant
                b == seg_views(base@),
                seg_views(out@).no_duplicates(),
                forall|k: Seq<char>|
                    seg_views(out@).contains(k) <==> exists|j: int|
                        0 <= j < i && b.len() < self@[j].0.len() && is_prefix(b, #[trigger] self@[j].0)
                            && self@[j].0[b.len() as int] == k,
        {
            let ghost before = seg_views(out@);
            assert(self@[i as int] == raw_entry_view(self.entries@[i as int]));
            let p = &self.entries[i].path;
            if base.len() < p.len() && leads_to(base, p) {
                let name = p[base.len()].as_str();
                assert(self@[i as int].0[b.len() as int] == name@);
                if !contains_text(&out, name) {
                    out.push(p[base.len()].clone());
                    assert(seg_views(out@) =~= before.push(name@));
                    assert(seg_views(out@).no_duplicates()) by {
                        assert forall|x: int, y: int|
                            0 <= x < seg_views(out@).len() && 0 <= y < seg_views(out@).len() && x
                                != y implies seg_views(out@)[x] != seg_views(out@)[y] by {
                            if x == before.len() {
                                assert(before.contains(before[y]));
                            } else if y == before.len() {
                                assert(before.contains(before[x]));
                            }
                        }
                    }
                }
                assert forall|k: Seq<char>|
                    seg_views(out@).contains(k) <==> exists|j: int|
                        0 <= j < i + 1 && b.len() < self@[j].0.len() && is_prefix(
                            b,
                            #[trigger] self@[j].0,
                        ) && self@[j].0[b.len() as int] == k by {
                    if seg_views(out@).contains(k) && k != name@ {
                        assert(before.contains(k)) by {
                            let x = choose|x: int|
                                0 <= x < seg_views(out@).len() && seg_views(out@)[x] == k;
                            if x < before.len() {
                                assert(before[x] == k);
                            }
                        }
                    }
                    if k == name@ {
                        assert(before.contains(k) ==> seg_views(out@).contains(k)) by {
                            if before.contains(k) {
                                let x = choose|x: int| 0 <= x < before.len() && before[x] == k;
                                assert(seg_views(out@)[x] == k);
                            }
                        }
                        if !before.contains(k) {
                            assert(seg_views(out@)[before.len() as int] == k);
                        }
                    }
                    if before.contains(k) {
                        let x = choose|x: int| 0 <= x < before.len() && before[x] == k;
                        assert(seg_views(out@)[x] == k);
                    }
                }
            }
        }
        assert(seg_views(out@).to_set() =~= child_names(self@, b));
        out
    }
}

// ------------------------------------------------------------------ the laws

proof fn lemma_place_prefix_free(es: Seq<RawView>, segs: Seq<Seq<char>>, v: ReadingView)
    requires
        prefix_free(es),
    ensures
        prefix_free(place(es, segs, v)),
        forall|k: int|
            0 <= k < place(es, segs, v).len() - 1 ==> es.contains(#[trigger] place(es, segs, v)[k])
                && !related(place(es, segs, v)[k].0, segs),
{
    let pred = unrelated_to(segs);
    let f = es.filter(pred);
    let p = place(es, segs, v);
    assert forall|k: int| 0 <= k < f.len() implies es.contains(#[trigger] f[k]) && !related(
        f[k].0,
        segs,
    ) by {
        es.lemma_filter_pred(pred, k);
        assert(f.contains(f[k]));
        es.lemma_filter_contains_rev(pred, f[k]);
    }
    lemma_filter_prefix_free(es, pred);
    assert forall|i: int, j: int| 0 <= i < p.len() && 0 <= j < p.len() && i != j implies !related(
        #[trigger] p[i].0,
        #[trigger] p[j].0,
    ) by {
        if i == p.len() - 1 {
            assert(!related(f[j].0, segs));
        } else if j == p.len() - 1 {
            assert(!related(f[i].0, segs));
        } else {
            assert(p[i] == f[i]);
            assert(p[j] == f[j]);
        }
    }
}

proof fn lemma_filter_prefix_free(es: Seq<RawView>, pred: spec_fn(RawView) -> bool)
    requires
        prefix_free(es),
    ensures
        prefix_free(es.filter(pred)),
    decreases es.len(),
{
    reveal(Seq::filter);
    if es.len() > 0 {
        let w = es.drop_last();
        assert forall|i: int, j: int| 0 <= i < w.len() && 0 <= j < w.len() && i != j implies !related(
            #[trigger] w[i].0,
            #[trigger] w[j].0,
        ) by {
            assert(w[i] == es[i] && w[j] == es[j]);
        }
        lemma_filter_prefix_free(w, pred);
        w.lemma_filter_push(es.last(), pred);
        assert(es == w.push(es.last()));
        if pred(es.last()) {
            let f = w.filter(pred);
            let g = f.push(es.last());
            assert forall|i: int, j: int| 0 <= i < g.len() && 0 <= j < g.len() && i != j implies !related(
                #[trigger] g[i].0,
                #[trigger] g[j].0,
            ) by {
                if i == g.len() - 1 || j == g.len() - 1 {
                    let other = if i == g.len() - 1 { j } else { i };
                    assert(f.contains(f[other]));
                    w.lemma_filter_contains_rev(pred, f[other]);
                    let x = choose|x: int| 0 <= x < w.len() && w[x] == f[other];
                    assert(es[x] == w[x]);
                    assert(!related(es[x].0, es[es.len() - 1].0));
                } else {
                    assert(g[i] == f[i] && g[j] == f[j]);
                }
            }
        }
    }
}

/// No value of the raw tree lies on the way to another: it is a tree.
pub proof fn lemma_raw_is_a_tree(leaves: Seq<LeafView>)
    ensures
        prefix_free(raw_of(leaves)),
    decreases leaves.len(),
{
    if leaves.len() > 0 {
        lemma_raw_is_a_tree(leaves.drop_last());
        let segs = segments(leaves.last().path);
        if segs.len() > 0 {
            lemma_place_prefix_free(raw_of(leaves.drop_last()), segs, leaves.last().value);
        }
    }
}

/// Whether the leaf at `i` keeps its value in the tree: it has segments, and
/// no later leaf's segments are at, below or above its own.
pub open spec fn survives(leaves: Seq<LeafView>, i: int) -> bool {
    &&& segments(leaves[i].path).len() > 0
    &&& forall|j: int|
        i < j < leaves.len() ==> #[trigger] segments(leaves[j].path).len() == 0 || !related(
            segments(leaves[j].path),
            segments(leaves[i].path),
        )
}

/// What the raw tree holds: exactly the values of the leaves that no later
/// leaf overrides, each at its own segments. In particular the last leaf's
/// value is always there: the later message wins.
pub proof fn lemma_raw_holds_the_surviving_leaves(leaves: Seq<LeafView>)
    ensures
        forall|e: RawView|
            #[trigger] raw_of(leaves).contains(e) <==> exists|i: int|
                0 <= i < leaves.len() && survives(leaves, i) && e == (
                    segments(#[trigger] leaves[i].path),
                    leaves[i].value,
                ),
    decreases leaves.len(),
{
    if leaves.len() > 0 {
        let w = leaves.drop_last();
        lemma_raw_holds_the_surviving_leaves(w);
        let last = leaves.last();
        let n = leaves.len() - 1;
        let segs = segments(last.path);
        let rest = raw_of(w);
        assert forall|i: int| 0 <= i < w.len() implies #[trigger] w[i] == leaves[i] by {}
        assert forall|e: RawView|
            #[trigger] raw_of(leaves).contains(e) <==> exists|i: int|
                0 <= i < leaves.len() && survives(leaves, i) && e == (
                    segments(#[trigger] leaves[i].path),
                    leaves[i].value,
                ) by {
            if segs.len() == 0 {
                if raw_of(leaves).contains(e) {
                    let i = choose|i: int|
                        0 <= i < w.len() && survives(w, i) && e == (
                            segments(#[trigger] w[i].path),
                            w[i].value,
                        );
                    assert(leaves[i] == w[i]);
                    assert(survives(leaves, i)) by {
                        assert forall|j: int| i < j < leaves.len() implies #[trigger] segments(
                            leaves[j].path,
                        ).len() == 0 || !related(
                            segments(leaves[j].path),
                            segments(leaves[i].path),
                        ) by {
                            if j < n {
                                assert(leaves[j] == w[j]);
                            }
                        }
                    }
                }
                if exists|i: int|
                    0 <= i < leaves.len() && survives(leaves, i) && e == (
                        segments(#[trigger] leaves[i].path),
                        leaves[i].value,
                    ) {
                    let i = choose|i: int|
                        0 <= i < leaves.len() && survives(leaves, i) && e == (
                            segments(#[trigger] leaves[i].path),
                            leaves[i].value,
                        );
                    assert(i < n);
                    assert(leaves[i] == w[i]);
                    assert(survives(w, i)) by {
                        assert forall|j: int| i < j < w.len() implies #[trigger] segments(
                            w[j].path,
                        ).len() == 0 || !related(segments(w[j].path), segments(w[i].path)) by {
                            assert(leaves[j] == w[j]);
                        }
                    }
                }
            } else {
                let pred = unrelated_to(segs);
                let f = rest.filter(pred);
                assert(raw_of(leaves) == f.push((segs, last.value)));
                if raw_of(leaves).contains(e) {
                    if e == (segs, last.value) {
                        assert(survives(leaves, n));
                    } else {
                        let k = choose|k: int| 0 <= k < f.push((segs, last.value)).len() && f.push(
                            (segs, last.value),
                        )[k] == e;
                        assert(k < f.len());
                        assert(f[k] == e);
                        assert(f.contains(e));
                        rest.lemma_filter_contains_rev(pred, e);
                        rest.lemma_filter_pred(pred, k);
                        let i = choose|i: int|
                            0 <= i < w.len() && survives(w, i) && e == (
                                segments(#[trigger] w[i].path),
                                w[i].value,
                            );
                        assert(leaves[i] == w[i]);
                        assert(survives(leaves, i)) by {
                            assert forall|j: int| i < j < leaves.len() implies #[trigger] segments(
                                leaves[j].path,
                            ).len() == 0 || !related(
                                segments(leaves[j].path),
                                segments(leaves[i].path),
                            ) by {
                                if j < n {
                                    assert(leaves[j] == w[j]);
                                } else {
                                    assert(j == n);
                                }
                            }
                        }
                    }
                }
                if exists|i: int|
                    0 <= i < leaves.len() && survives(leaves, i) && e == (
                        segments(#[trigger] leaves[i].path),
                        leaves[i].value,
                    ) {
                    let i = choose|i: int|
                        0 <= i < leaves.len() && survives(leaves, i) && e == (
                            segments(#[trigger] leaves[i].path),
                            leaves[i].value,
                        );
                    if i == n {
                        assert(f.push((segs, last.value))[f.len() as int] == e);
                    } else {
                        assert(leaves[i] == w[i]);
                        assert(survives(w, i)) by {
                            assert forall|j: int| i < j < w.len() implies #[trigger] segments(
                                w[j].path,
                            ).len() == 0 || !related(segments(w[j].path), segments(w[i].path)) by {
                                assert(leaves[j] == w[j]);
                            }
                        }
                        assert(rest.contains(e));
                        assert(!related(segments(leaves[n].path), segments(leaves[i].path)));
                        let k = choose|k: int| 0 <= k < rest.len() && rest[k] == e;
                        rest.lemma_filter_contains(pred, k);
                        let m = choose|m: int| 0 <= m < f.len() && f[m] == e;
                        assert(f.push((segs, last.value))[m] == e);
                    }
                }
            }
        }
    }
}

} // verus!
