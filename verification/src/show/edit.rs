//! Editing a show in place, as the console does.
//!
//! Replacing an item finds it by id and overwrites it; removing drops every
//! item with that id. Removing a cue also drops the pads that fire it: a pad
//! pointing at a deleted cue would silently do nothing when pressed, which is
//! the worst way to find out.

use vstd::prelude::*;

use crate::show::model::{Cue, Pad, Screen, Show};
use crate::text::same_text;

verus! {

broadcast use vstd::string::group_string_axioms;

/// Where the first screen with `id` is in `s`, or `s.len()` if none is.
pub open spec fn screen_position(s: Seq<Screen>, id: Seq<char>) -> int
    decreases s.len(),
{
    if s.len() == 0 {
        0
    } else if s[0].id@ == id {
        0
    } else {
        1 + screen_position(s.drop_first(), id)
    }
}

/// Where the first cue with `id` is in `s`, or `s.len()` if none is.
pub open spec fn cue_position(s: Seq<Cue>, id: Seq<char>) -> int
    decreases s.len(),
{
    if s.len() == 0 {
        0
    } else if s[0].id@ == id {
        0
    } else {
        1 + cue_position(s.drop_first(), id)
    }
}

/// Whether a screen is kept when those with `id` are removed.
pub open spec fn other_screen(id: Seq<char>) -> spec_fn(Screen) -> bool {
    |x: Screen| x.id@ != id
}

/// Whether a cue is kept when those with `id` are removed.
pub open spec fn other_cue(id: Seq<char>) -> spec_fn(Cue) -> bool {
    |x: Cue| x.id@ != id
}

/// Whether a pad is kept when the cue `id` is removed.
pub open spec fn other_pad(id: Seq<char>) -> spec_fn(Pad) -> bool {
    |x: Pad| x.cue@ != id
}

/// The screens other than those with `id`, in order.
pub open spec fn screens_without(s: Seq<Screen>, id: Seq<char>) -> Seq<Screen> {
    s.filter(other_screen(id))
}

/// The cues other than those with `id`, in order.
pub open spec fn cues_without(s: Seq<Cue>, id: Seq<char>) -> Seq<Cue> {
    s.filter(other_cue(id))
}

/// The pads that do not fire the cue `id`, in order.
pub open spec fn pads_without(s: Seq<Pad>, id: Seq<char>) -> Seq<Pad> {
    s.filter(other_pad(id))
}

proof fn lemma_screen_position(s: Seq<Screen>, id: Seq<char>)
    ensures
        0 <= screen_position(s, id) <= s.len(),
        forall|j: int| 0 <= j < screen_position(s, id) ==> #[trigger] s[j].id@ != id,
        screen_position(s, id) < s.len() ==> s[screen_position(s, id)].id@ == id,
    decreases s.len(),
{
    if s.len() > 0 && s[0].id@ != id {
        lemma_screen_position(s.drop_first(), id);
        assert forall|j: int| 0 <= j < screen_position(s, id) implies #[trigger] s[j].id@ != id by {
            if j > 0 {
                assert(s[j] == s.drop_first()[j - 1]);
            }
        }
    }
}

proof fn lemma_cue_position(s: Seq<Cue>, id: Seq<char>)
    ensures
        0 <= cue_position(s, id) <= s.len(),
        forall|j: int| 0 <= j < cue_position(s, id) ==> #[trigger] s[j].id@ != id,
        cue_position(s, id) < s.len() ==> s[cue_position(s, id)].id@ == id,
    decreases s.len(),
{
    if s.len() > 0 && s[0].id@ != id {
        lemma_cue_position(s.drop_first(), id);
        assert forall|j: int| 0 <= j < cue_position(s, id) implies #[trigger] s[j].id@ != id by {
            if j > 0 {
                assert(s[j] == s.drop_first()[j - 1]);
            }
        }
    }
}

fn find_screen(s: &Vec<Screen>, id: &str) -> (r: usize)
    ensures
        r == screen_position(s@, id@),
{
    proof {
        lemma_screen_position(s@, id@);
    }
    let mut i: usize = 0;
    while i < s.len()
        invariant
            i <= s@.len(),
            0 <= screen_position(s@, id@) <= s@.len(),
            forall|j: int| 0 <= j < screen_position(s@, id@) ==> #[trigger] s@[j].id@ != id@,
            screen_position(s@, id@) < s@.len() ==> s@[screen_position(s@, id@)].id@ == id@,
            forall|j: int| 0 <= j < i ==> #[trigger] s@[j].id@ != id@,
        decreases s@.len() - i,
    {
        if same_text(s[i].id.as_str(), id) {
            return i;
        }
        i = i + 1;
    }
    i
}

fn find_cue(s: &Vec<Cue>, id: &str) -> (r: usize)
    ensures
        r == cue_position(s@, id@),
{
    proof {
        lemma_cue_position(s@, id@);
    }
    let mut i: usize = 0;
    while i < s.len()
        invariant
            i <= s@.len(),
            0 <= cue_position(s@, id@) <= s@.len(),
            forall|j: int| 0 <= j < cue_position(s@, id@) ==> #[trigger] s@[j].id@ != id@,
            cue_position(s@, id@) < s@.len() ==> s@[cue_position(s@, id@)].id@ == id@,
            forall|j: int| 0 <= j < i ==> #[trigger] s@[j].id@ != id@,
        decreases s@.len() - i,
    {
        if same_text(s[i].id.as_str(), id) {
            return i;
        }
        i = i + 1;
    }
    i
}

impl Show {
    /// Add a screen at the end.
    pub fn add_screen(&mut self, screen: Screen)
        ensures
            final(self).screens@ == old(self).screens@.push(screen),
            final(self).cues@ == old(self).cues@,
            final(self).pads@ == old(self).pads@,
            final(self).name@ == old(self).name@,
            final(self).canvas == old(self).canvas,
            final(self).grid == old(self).grid,
    {
        self.screens.push(screen);
    }

    /// Overwrite the first screen with `id`. Returns whether there was one;
    /// when there was not, nothing changes.
    pub fn replace_screen(&mut self, id: &str, screen: Screen) -> (found: bool)
        ensures
            found == (screen_position(old(self).screens@, id@) < old(self).screens@.len()),
            final(self).screens@ == if found {
                old(self).screens@.update(screen_position(old(self).screens@, id@), screen)
            } else {
                old(self).screens@
            },
            final(self).cues@ == old(self).cues@,
            final(self).pads@ == old(self).pads@,
            final(self).name@ == old(self).name@,
            final(self).canvas == old(self).canvas,
            final(self).grid == old(self).grid,
    {
        let i = find_screen(&self.screens, id);
        if i < self.screens.len() {
            self.screens.set(i, screen);
            true
        } else {
            false
        }
    }

    /// Remove every screen with `id`.
    pub fn remove_screen(&mut self, id: &str)
        ensures
            final(self).screens@ == screens_without(old(self).screens@, id@),
            final(self).cues@ == old(self).cues@,
            final(self).pads@ == old(self).pads@,
            final(self).name@ == old(self).name@,
            final(self).canvas == old(self).canvas,
            final(self).grid == old(self).grid,
    {
        let ghost pred = other_screen(id@);
        let mut kept: Vec<Screen> = Vec::new();
        let mut rest: Vec<Screen> = Vec::new();
        std::mem::swap(&mut rest, &mut self.screens);
        let ghost all = rest@;
        let total = rest.len();
        let mut n: usize = 0;
        assert(all.take(0) =~= Seq::<Screen>::empty());
        assert(all.take(0).filter(pred) =~= Seq::<Screen>::empty()) by {
            reveal(Seq::filter);
        }
        assert(all.skip(0) == all);
        while rest.len() > 0
            invariant
                pred == other_screen(id@),
                total == all.len(),
                n + rest@.len() == all.len(),
                rest@ == all.skip(n as int),
                kept@ == all.take(n as int).filter(pred),
            decreases rest@.len(),
        {
            let ghost old_rest = rest@;
            let x = rest.remove(0);
            assert(x == all[n as int]);
            assert(rest@ =~= all.skip(n + 1));
            assert(all.take(n + 1) == all.take(n as int).push(all[n as int]));
            proof {
                all.take(n as int).lemma_filter_push(all[n as int], pred);
            }
            if !same_text(x.id.as_str(), id) {
                kept.push(x);
            }
            n = n + 1;
        }
        assert(all.take(all.len() as int) == all);
        self.screens = kept;
    }

    /// Add a cue at the end.
    pub fn add_cue(&mut self, cue: Cue)
        ensures
            final(self).cues@ == old(self).cues@.push(cue),
            final(self).screens@ == old(self).screens@,
            final(self).pads@ == old(self).pads@,
            final(self).name@ == old(self).name@,
            final(self).canvas == old(self).canvas,
            final(self).grid == old(self).grid,
    {
        self.cues.push(cue);
    }

    /// Overwrite the first cue with `id`. Returns whether there was one; when
    /// there was not, nothing changes.
    pub fn replace_cue(&mut self, id: &str, cue: Cue) -> (found: bool)
        ensures
            found == (cue_position(old(self).cues@, id@) < old(self).cues@.len()),
            final(self).cues@ == if found {
                old(self).cues@.update(cue_position(old(self).cues@, id@), cue)
            } else {
                old(self).cues@
            },
            final(self).screens@ == old(self).screens@,
            final(self).pads@ == old(self).pads@,
            final(self).name@ == old(self).name@,
            final(self).canvas == old(self).canvas,
            final(self).grid == old(self).grid,
    {
        let i = find_cue(&self.cues, id);
        if i < self.cues.len() {
            self.cues.set(i, cue);
            true
        } else {
            false
        }
    }

    /// Remove every cue with `id`, and every pad that fires it.
    pub fn remove_cue(&mut self, id: &str)
        ensures
            final(self).cues@ == cues_without(old(self).cues@, id@),
            final(self).pads@ == pads_without(old(self).pads@, id@),
            final(self).screens@ == old(self).screens@,
            final(self).name@ == old(self).name@,
            final(self).canvas == old(self).canvas,
            final(self).grid == old(self).grid,
    {
        let ghost pred = other_cue(id@);
        let mut kept: Vec<Cue> = Vec::new();
        let mut rest: Vec<Cue> = Vec::new();
        std::mem::swap(&mut rest, &mut self.cues);
        let ghost all = rest@;
        let total = rest.len();
        let mut n: usize = 0;
        assert(all.take(0) =~= Seq::<Cue>::empty());
        assert(all.take(0).filter(pred) =~= Seq::<Cue>::empty()) by {
            reveal(Seq::filter);
        }
        assert(all.skip(0) == all);
        while rest.len() > 0
            invariant
                pred == other_cue(id@),
                total == all.len(),
                n + rest@.len() == all.len(),
                rest@ == all.skip(n as int),
                kept@ == all.take(n as int).filter(pred),
            decreases rest@.len(),
        {
            let x = rest.remove(0);
            assert(x == all[n as int]);
            assert(rest@ =~= all.skip(n + 1));
            assert(all.take(n + 1) == all.take(n as int).push(all[n as int]));
            proof {
                all.take(n as int).lemma_filter_push(all[n as int], pred);
            }
            if !same_text(x.id.as_str(), id) {
                kept.push(x);
            }
            n = n + 1;
        }
        assert(all.take(all.len() as int) == all);
        self.cues = kept;
        self.remove_pads_for(id);
    }

    fn remove_pads_for(&mut self, id: &str)
        ensures
            final(self).pads@ == pads_without(old(self).pads@, id@),
            final(self).screens@ == old(self).screens@,
            final(self).cues@ == old(self).cues@,
            final(self).name@ == old(self).name@,
            final(self).canvas == old(self).canvas,
            final(self).grid == old(self).grid,
    {
        let ghost pred = other_pad(id@);
        let mut kept: Vec<Pad> = Vec::new();
        let mut rest: Vec<Pad> = Vec::new();
        std::mem::swap(&mut rest, &mut self.pads);
        let ghost all = rest@;
        let total = rest.len();
        let mut n: usize = 0;
        assert(all.take(0) =~= Seq::<Pad>::empty());
        assert(all.take(0).filter(pred) =~= Seq::<Pad>::empty()) by {
            reveal(Seq::filter);
        }
        assert(all.skip(0) == all);
        while rest.len() > 0
            invariant
                pred == other_pad(id@),
                total == all.len(),
                n + rest@.len() == all.len(),
                rest@ == all.skip(n as int),
                kept@ == all.take(n as int).filter(pred),
            decreases rest@.len(),
        {
            let x = rest.remove(0);
            assert(x == all[n as int]);
            assert(rest@ =~= all.skip(n + 1));
            assert(all.take(n + 1) == all.take(n as int).push(all[n as int]));
            proof {
                all.take(n as int).lemma_filter_push(all[n as int], pred);
            }
            if !same_text(x.cue.as_str(), id) {
                kept.push(x);
            }
            n = n + 1;
        }
        assert(all.take(all.len() as int) == all);
        self.pads = kept;
    }

    /// Replace the trigger grid's pads.
    pub fn set_pads(&mut self, pads: Vec<Pad>)
        ensures
            final(self).pads@ == pads@,
            final(self).screens@ == old(self).screens@,
            final(self).cues@ == old(self).cues@,
            final(self).name@ == old(self).name@,
            final(self).canvas == old(self).canvas,
            final(self).grid == old(self).grid,
    {
        self.pads = pads;
    }
}

/// After a cue is removed, no cue has its id and no pad fires it; every other
/// cue and pad is kept, in order.
pub proof fn lemma_removed_cue_leaves_no_trace(cues: Seq<Cue>, pads: Seq<Pad>, id: Seq<char>)
    ensures
        forall|i: int|
            0 <= i < cues_without(cues, id).len() ==> #[trigger] cues_without(cues, id)[i].id@
                != id,
        forall|i: int|
            0 <= i < pads_without(pads, id).len() ==> #[trigger] pads_without(pads, id)[i].cue@
                != id,
        forall|c: Cue| cues.contains(c) && c.id@ != id ==> #[trigger] cues_without(cues, id).contains(c),
        forall|p: Pad| pads.contains(p) && p.cue@ != id ==> #[trigger] pads_without(pads, id).contains(p),
{
    let cp = other_cue(id);
    let pp = other_pad(id);
    assert forall|i: int| 0 <= i < cues_without(cues, id).len() implies #[trigger] cues_without(
        cues,
        id,
    )[i].id@ != id by {
        cues.lemma_filter_pred(cp, i);
    }
    assert forall|i: int| 0 <= i < pads_without(pads, id).len() implies #[trigger] pads_without(
        pads,
        id,
    )[i].cue@ != id by {
        pads.lemma_filter_pred(pp, i);
    }
    assert forall|c: Cue| cues.contains(c) && c.id@ != id implies #[trigger] cues_without(
        cues,
        id,
    ).contains(c) by {
        let k = choose|k: int| 0 <= k < cues.len() && cues[k] == c;
        cues.lemma_filter_contains(cp, k);
    }
    assert forall|p: Pad| pads.contains(p) && p.cue@ != id implies #[trigger] pads_without(
        pads,
        id,
    ).contains(p) by {
        let k = choose|k: int| 0 <= k < pads.len() && pads[k] == p;
        pads.lemma_filter_contains(pp, k);
    }
}

} // verus!
