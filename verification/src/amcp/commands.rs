//! Typed builders for the AMCP command surface.
//!
//! One function per command, named after it. The set and the parameter order
//! follow the 2.5.0 server's command registry. Anything not covered here can
//! still be sent with [`Command::new`].
//!
//! Fractional values (opacity, fill rectangles, levels, …) are passed in their
//! decimal rendering, exactly as they will appear on the wire.

use vstd::prelude::*;

use crate::amcp::command::{Command, CommandView, Target};
use crate::text::decimal;

verus! {

/// A command with the given name, target and parameters.
pub open spec fn cmd(name: Seq<char>, target: Target, params: Seq<Seq<char>>) -> CommandView {
    CommandView { name, target, params }
}

/// `c` with `extra` appended to its parameters.
pub open spec fn with_params(c: CommandView, extra: Seq<Seq<char>>) -> CommandView {
    CommandView { params: c.params + extra, ..c }
}

// ---------------------------------------------------------------- transitions

/// How a layer's foreground is replaced when a background is played in.
#[derive(Debug, Clone, Copy, PartialEq, Eq, Structural)]
pub enum TransitionKind {
    Cut,
    Mix,
    Push,
    Slide,
    Wipe,
    /// A sting transition driven by a clip, named by [`Transition::sting`].
    Sting,
}

/// The keyword a transition kind is written as.
pub open spec fn kind_word(k: TransitionKind) -> Seq<char> {
    match k {
        TransitionKind::Cut => seq!['C', 'U', 'T'],
        TransitionKind::Mix => seq!['M', 'I', 'X'],
        TransitionKind::Push => seq!['P', 'U', 'S', 'H'],
        TransitionKind::Slide => seq!['S', 'L', 'I', 'D', 'E'],
        TransitionKind::Wipe => seq!['W', 'I', 'P', 'E'],
        TransitionKind::Sting => seq!['S', 'T', 'I', 'N', 'G'],
    }
}

impl Default for TransitionKind {
    fn default() -> (r: TransitionKind)
        ensures
            r == TransitionKind::Cut,
    {
        TransitionKind::Cut
    }
}

impl TransitionKind {
    /// The keyword, as it appears on the wire.
    pub fn word(self) -> (r: &'static str)
        ensures
            r@ == kind_word(self),
    {
        match self {
            TransitionKind::Cut => {
                proof {
                    reveal_strlit("CUT");
                }
                "CUT"
            },
            TransitionKind::Mix => {
                proof {
                    reveal_strlit("MIX");
                }
                "MIX"
            },
            TransitionKind::Push => {
                proof {
                    reveal_strlit("PUSH");
                }
                "PUSH"
            },
            TransitionKind::Slide => {
                proof {
                    reveal_strlit("SLIDE");
                }
                "SLIDE"
            },
            TransitionKind::Wipe => {
                proof {
                    reveal_strlit("WIPE");
                }
                "WIPE"
            },
            TransitionKind::Sting => {
                proof {
                    reveal_strlit("STING");
                }
                "STING"
            },
        }
    }
}

/// Which way a directional transition travels.
#[derive(Debug, Clone, Copy, PartialEq, Eq, Structural)]
pub enum Direction {
    Left,
    Right,
}

/// The keyword a direction is written as.
pub open spec fn direction_word(d: Direction) -> Seq<char> {
    match d {
        Direction::Left => seq!['L', 'E', 'F', 'T'],
        Direction::Right => seq!['R', 'I', 'G', 'H', 'T'],
    }
}

impl Default for Direction {
    fn default() -> (r: Direction)
        ensures
            r == Direction::Right,
    {
        Direction::Right
    }
}

impl Direction {
    /// The keyword, as it appears on the wire.
    pub fn word(self) -> (r: &'static str)
        ensures
            r@ == direction_word(self),
    {
        match self {
            Direction::Left => {
                proof {
                    reveal_strlit("LEFT");
                }
                "LEFT"
            },
            Direction::Right => {
                proof {
                    reveal_strlit("RIGHT");
                }
                "RIGHT"
            },
        }
    }
}

/// A transition applied by `LOADBG` / `PLAY`.
#[derive(Debug, PartialEq, Eq)]
pub struct Transition {
    pub kind: TransitionKind,
    /// Length in frames. Ignored for `CUT`.
    pub duration: u32,
    pub tween: Option<String>,
    pub direction: Option<Direction>,
    /// The sting clip, for [`TransitionKind::Sting`].
    pub sting: Option<String>,
}

/// The text of an optional string, or nothing.
pub open spec fn opt_text(o: Option<String>) -> Seq<Seq<char>> {
    match o {
        Some(s) => seq![s@],
        None => Seq::empty(),
    }
}

/// The parameters a transition adds: `STING <clip>` for a sting, otherwise
/// the kind, the duration, then the tween and direction when set.
pub open spec fn transition_params(t: Transition) -> Seq<Seq<char>> {
    if t.kind == TransitionKind::Sting {
        seq![
            kind_word(TransitionKind::Sting),
            match t.sting {
                Some(s) => s@,
                None => Seq::empty(),
            },
        ]
    } else {
        seq![kind_word(t.kind), decimal(t.duration as nat)] + opt_text(t.tween) + match t.direction {
            Some(d) => seq![direction_word(d)],
            None => Seq::empty(),
        }
    }
}

fn copy_opt(o: &Option<String>) -> (r: Option<String>)
    ensures
        r == *o,
{
    match o {
        Some(s) => Some(s.clone()),
        None => None,
    }
}

impl Clone for Transition {
    fn clone(&self) -> (r: Transition)
        ensures
            r == *self,
    {
        Transition {
            kind: self.kind,
            duration: self.duration,
            tween: copy_opt(&self.tween),
            direction: self.direction,
            sting: copy_opt(&self.sting),
        }
    }
}

impl Default for Transition {
    fn default() -> (r: Transition)
        ensures
            r == Transition::cut(),
    {
        Transition::cut()
    }
}

impl Transition {
    /// An immediate cut — the default when no transition is given.
    pub open spec fn cut_spec() -> Transition {
        Transition {
            kind: TransitionKind::Cut,
            duration: 0,
            tween: None,
            direction: None,
            sting: None,
        }
    }

    /// An immediate cut — the default when no transition is given.
    #[verifier::when_used_as_spec(cut_spec)]
    pub fn cut() -> (r: Transition)
        ensures
            r == Transition::cut_spec(),
    {
        Transition {
            kind: TransitionKind::Cut,
            duration: 0,
            tween: None,
            direction: None,
            sting: None,
        }
    }

    /// A dissolve over `frames`.
    pub fn mix(frames: u32) -> (r: Transition)
        ensures
            r == (Transition { kind: TransitionKind::Mix, duration: frames, ..Transition::cut() }),
    {
        Transition { kind: TransitionKind::Mix, duration: frames, ..Transition::cut() }
    }

    /// A push over `frames`.
    pub fn push(frames: u32, direction: Direction) -> (r: Transition)
        ensures
            r == (Transition {
                kind: TransitionKind::Push,
                duration: frames,
                direction: Some(direction),
                ..Transition::cut()
            }),
    {
        Transition {
            kind: TransitionKind::Push,
            duration: frames,
            direction: Some(direction),
            ..Transition::cut()
        }
    }

    /// A sting driven by a clip.
    pub fn sting(clip: &str) -> (r: Transition)
        ensures
            r.kind == TransitionKind::Sting,
            r.duration == 0,
            r.tween is None,
            r.direction is None,
            r.sting matches Some(s) && s@ == clip@,
    {
        Transition {
            kind: TransitionKind::Sting,
            sting: Some(crate::text::string_from(clip)),
            ..Transition::cut()
        }
    }

    /// Set the easing curve (`easeinoutsine`, `linear`, …).
    pub fn tween(self, tween: &str) -> (r: Transition)
        ensures
            r.kind == self.kind,
            r.duration == self.duration,
            r.tween matches Some(t) && t@ == tween@,
            r.direction == self.direction,
            r.sting == self.sting,
    {
        Transition { tween: Some(crate::text::string_from(tween)), ..self }
    }

    /// Append this transition's parameters to `cmd`.
    pub fn apply(&self, cmd: Command) -> (r: Command)
        ensures
            r@ == with_params(cmd@, transition_params(*self)),
    {
        if self.kind == TransitionKind::Sting {
            let c = cmd.arg(TransitionKind::Sting.word());
            match &self.sting {
                Some(s) => {
                    let r = c.arg(s.as_str());
                    assert(r@.params =~= cmd@.params + transition_params(*self));
                    return r;
                },
                None => {
                    let e = String::new();
                    let r = c.arg(e.as_str());
                    assert(r@.params =~= cmd@.params + transition_params(*self));
                    return r;
                },
            }
        }
        let mut c = cmd.arg(self.kind.word()).arg_num(self.duration as u64);
        if let Some(t) = &self.tween {
            c = c.arg(t.as_str());
        }
        if let Some(d) = self.direction {
            c = c.arg(d.word());
        }
        assert(c@.params =~= cmd@.params + transition_params(*self));
        c
    }
}

/// The duration + easing tail shared by most `MIXER` commands.
#[derive(Debug, PartialEq, Eq)]
pub struct Anim {
    /// Length in frames; 0 applies the change immediately.
    pub duration: u32,
    pub tween: Option<String>,
}

/// The parameters an animation adds: nothing for an instant change, else the
/// duration and then the tween when set.
pub open spec fn anim_params(a: Anim) -> Seq<Seq<char>> {
    if a.duration == 0 && a.tween is None {
        Seq::empty()
    } else {
        seq![decimal(a.duration as nat)] + opt_text(a.tween)
    }
}

impl Clone for Anim {
    fn clone(&self) -> (r: Anim)
        ensures
            r == *self,
    {
        Anim { duration: self.duration, tween: copy_opt(&self.tween) }
    }
}

impl Default for Anim {
    fn default() -> (r: Anim)
        ensures
            r == (Anim { duration: 0, tween: None }),
    {
        Anim { duration: 0, tween: None }
    }
}

impl Anim {
    /// Apply instantly.
    pub fn instant() -> (r: Anim)
        ensures
            r == (Anim { duration: 0, tween: None }),
    {
        Anim { duration: 0, tween: None }
    }

    /// Ramp over `frames`, linearly.
    pub fn frames(frames: u32) -> (r: Anim)
        ensures
            r == (Anim { duration: frames, tween: None }),
    {
        Anim { duration: frames, tween: None }
    }

    /// Ramp over `frames` with an easing curve.
    pub fn eased(frames: u32, tween: &str) -> (r: Anim)
        ensures
            r.duration == frames,
            r.tween matches Some(t) && t@ == tween@,
    {
        Anim { duration: frames, tween: Some(crate::text::string_from(tween)) }
    }

    /// Append this animation's parameters to `cmd`.
    pub fn apply(&self, cmd: Command) -> (r: Command)
        ensures
            r@ == with_params(cmd@, anim_params(*self)),
    {
        if self.duration == 0 && self.tween.is_none() {
            assert(cmd@.params + Seq::<Seq<char>>::empty() =~= cmd@.params);
            return cmd;
        }
        let mut c = cmd.arg_num(self.duration as u64);
        if let Some(t) = &self.tween {
            c = c.arg(t.as_str());
        }
        assert(c@.params =~= cmd@.params + anim_params(*self));
        c
    }
}

/// `LOOP` when `looping`.
pub open spec fn loop_param(looping: bool) -> Seq<Seq<char>> {
    if looping {
        seq![seq!['L', 'O', 'O', 'P']]
    } else {
        Seq::empty()
    }
}

/// The parameters of an optional transition.
pub open spec fn opt_transition(tr: Option<&Transition>) -> Seq<Seq<char>> {
    match tr {
        Some(t) => transition_params(*t),
        None => Seq::empty(),
    }
}

/// A clip command: the clip, `LOOP` when looping, then the transition.
fn clip_command(name: &str, ch: u32, layer: u32, clip: &str, looping: bool, tr: Option<&Transition>) -> (r: Command)
    ensures
        r@ == cmd(name@, Target::Layer(ch, layer), seq![clip@] + loop_param(looping) + opt_transition(tr)),
{
    let mut c = Command::new(name).layer(ch, layer).arg(clip);
    if looping {
        proof {
            reveal_strlit("LOOP");
        }
        c = c.arg("LOOP");
        assert("LOOP"@ =~= seq!['L', 'O', 'O', 'P']);
    }
    assert(c@.params =~= seq![clip@] + loop_param(looping));
    assert(c@.name == name@ && c@.target == Target::Layer(ch, layer));
    if let Some(t) = tr {
        c = t.apply(c);
    }
    assert(c@.params =~= seq![clip@] + loop_param(looping) + opt_transition(tr));
    c
}

// --------------------------------------------------------------------- basic

/// `LOADBG` — cue a producer into the layer's background.
pub fn loadbg(ch: u32, layer: u32, clip: &str, looping: bool, tr: Option<&Transition>) -> (r: Command)
    ensures
        r@ == cmd("LOADBG"@, Target::Layer(ch, layer), seq![clip@] + loop_param(looping) + opt_transition(tr)),
{
    clip_command("LOADBG", ch, layer, clip, looping, tr)
}

/// `PLAY` with a clip — load and start it in one step.
pub fn play_clip(ch: u32, layer: u32, clip: &str, looping: bool, tr: Option<&Transition>) -> (r: Command)
    ensures
        r@ == cmd("PLAY"@, Target::Layer(ch, layer), seq![clip@] + loop_param(looping) + opt_transition(tr)),
{
    clip_command("PLAY", ch, layer, clip, looping, tr)
}

/// `SWAP` — exchange the contents of two layers, optionally with their
/// transforms.
pub fn swap(ch: u32, layer: u32, other: &str, with_transforms: bool) -> (r: Command)
    ensures
        r@ == cmd(
            "SWAP"@,
            Target::Layer(ch, layer),
            if with_transforms { seq![other@, "TRANSFORMS"@] } else { seq![other@] },
        ),
{
    let c = Command::new("SWAP").layer(ch, layer).arg(other);
    if with_transforms {
        let r = c.arg("TRANSFORMS");
        assert(r@.params =~= seq![other@, "TRANSFORMS"@]);
        r
    } else {
        assert(c@.params =~= seq![other@]);
        c
    }
}

/// `CG ADD` — load a template into a CG layer and optionally play it at once.
pub fn cg_add(ch: u32, layer: u32, cg_layer: u32, template: &str, play_on_load: bool, data: Option<&str>) -> (r: Command)
    ensures
        r@ == cmd(
            "CG ADD"@,
            Target::Layer(ch, layer),
            seq![decimal(cg_layer as nat), template@, decimal(if play_on_load { 1nat } else { 0nat })]
                + match data {
                Some(d) => seq![d@],
                None => Seq::empty(),
            },
        ),
{
    let c = Command::new("CG ADD").layer(ch, layer).arg_num(cg_layer as u64).arg(template).arg_num(
        if play_on_load { 1 } else { 0 },
    ).opt(data);
    assert(c@.params =~= seq![decimal(cg_layer as nat), template@, decimal(if play_on_load { 1nat } else { 0nat })]
        + match data {
        Some(d) => seq![d@],
        None => Seq::<Seq<char>>::empty(),
    });
    c
}

/// `MIXER PERSPECTIVE` — corner-pin the layer by its four corners, clockwise
/// from top-left. This is real keystone correction, and it is what lets a
/// projector output be aligned without external hardware.
pub fn mixer_perspective(ch: u32, layer: u32, corners: &[(&str, &str); 4], anim: &Anim) -> (r: Command)
    ensures
        r@ == cmd(
            "MIXER PERSPECTIVE"@,
            Target::Layer(ch, layer),
            seq![
                corners@[0].0@, corners@[0].1@, corners@[1].0@, corners@[1].1@,
                corners@[2].0@, corners@[2].1@, corners@[3].0@, corners@[3].1@,
            ] + anim_params(*anim),
        ),
{
    let mut c = Command::new("MIXER PERSPECTIVE").layer(ch, layer);
    let ghost start = c@;
    let mut i: usize = 0;
    while i < 4
        invariant
            i <= 4,
            c@.name == start.name,
            c@.target == start.target,
            c@.params.len() == 2 * i,
            forall|k: int| 0 <= k < i ==> c@.params[2 * k] == corners@[k].0@ && c@.params[2 * k + 1] == corners@[k].1@,
        decreases 4 - i,
    {
        let (x, y) = corners[i];
        c = c.arg(x).arg(y);
        i = i + 1;
    }
    let r = anim.apply(c);
    assert(r@.params =~= seq![
        corners@[0].0@, corners@[0].1@, corners@[1].0@, corners@[1].1@,
        corners@[2].0@, corners@[2].1@, corners@[3].0@, corners@[3].1@,
    ] + anim_params(*anim));
    r
}
/// `LOAD` — load a producer straight into the foreground, paused on frame one.
pub fn load(ch: u32, layer: u32, clip: &str) -> (r: Command)
    ensures
        r@ == cmd("LOAD"@, Target::Layer(ch, layer), seq![clip@]),
{
    let r = Command::new("LOAD").layer(ch, layer).arg(clip);
    assert(r@.params =~= seq![clip@]);
    r
}

/// `PLAY` with no clip — promote whatever `LOADBG` cued into the foreground.
pub fn play(ch: u32, layer: u32) -> (r: Command)
    ensures
        r@ == cmd("PLAY"@, Target::Layer(ch, layer), Seq::empty()),
{
    let r = Command::new("PLAY").layer(ch, layer);
    assert(r@.params =~= Seq::<Seq<char>>::empty());
    r
}

/// `PAUSE`.
pub fn pause(ch: u32, layer: u32) -> (r: Command)
    ensures
        r@ == cmd("PAUSE"@, Target::Layer(ch, layer), Seq::empty()),
{
    let r = Command::new("PAUSE").layer(ch, layer);
    assert(r@.params =~= Seq::<Seq<char>>::empty());
    r
}

/// `RESUME`.
pub fn resume(ch: u32, layer: u32) -> (r: Command)
    ensures
        r@ == cmd("RESUME"@, Target::Layer(ch, layer), Seq::empty()),
{
    let r = Command::new("RESUME").layer(ch, layer);
    assert(r@.params =~= Seq::<Seq<char>>::empty());
    r
}

/// `STOP` — remove the foreground producer.
pub fn stop(ch: u32, layer: u32) -> (r: Command)
    ensures
        r@ == cmd("STOP"@, Target::Layer(ch, layer), Seq::empty()),
{
    let r = Command::new("STOP").layer(ch, layer);
    assert(r@.params =~= Seq::<Seq<char>>::empty());
    r
}

/// `CLEAR` a layer — foreground *and* background.
pub fn clear_layer(ch: u32, layer: u32) -> (r: Command)
    ensures
        r@ == cmd("CLEAR"@, Target::Layer(ch, layer), Seq::empty()),
{
    let r = Command::new("CLEAR").layer(ch, layer);
    assert(r@.params =~= Seq::<Seq<char>>::empty());
    r
}

/// `CLEAR` a whole channel.
pub fn clear_channel(ch: u32) -> (r: Command)
    ensures
        r@ == cmd("CLEAR"@, Target::Channel(ch), Seq::empty()),
{
    let r = Command::new("CLEAR").channel(ch);
    assert(r@.params =~= Seq::<Seq<char>>::empty());
    r
}

/// `CLEAR ALL` — every channel.
pub fn clear_all() -> (r: Command)
    ensures
        r@ == cmd("CLEAR ALL"@, Target::Server, Seq::empty()),
{
    let r = Command::new("CLEAR ALL");
    assert(r@.params =~= Seq::<Seq<char>>::empty());
    r
}

/// `CALL` — invoke a parameter on the foreground producer, e.g. `SEEK 200`.
pub fn call(ch: u32, layer: u32, params: &[&str]) -> (r: Command)
    ensures
        r@ == cmd("CALL"@, Target::Layer(ch, layer), params@.map_values(|v: &str| v@)),
{
    let r = Command::new("CALL").layer(ch, layer).args(params);
    assert(r@.params =~= params@.map_values(|v: &str| v@));
    r
}

/// `CALLBG` — as `CALL`, but on the background producer (2.5+).
pub fn callbg(ch: u32, layer: u32, params: &[&str]) -> (r: Command)
    ensures
        r@ == cmd("CALLBG"@, Target::Layer(ch, layer), params@.map_values(|v: &str| v@)),
{
    let r = Command::new("CALLBG").layer(ch, layer).args(params);
    assert(r@.params =~= params@.map_values(|v: &str| v@));
    r
}

/// `ADD` a consumer to a channel, e.g. `ADD 1 SCREEN` or `ADD 1 FILE out.mp4`.
pub fn add_consumer(ch: u32, params: &[&str]) -> (r: Command)
    ensures
        r@ == cmd("ADD"@, Target::Channel(ch), params@.map_values(|v: &str| v@)),
{
    let r = Command::new("ADD").channel(ch).args(params);
    assert(r@.params =~= params@.map_values(|v: &str| v@));
    r
}

/// `REMOVE` a consumer from a channel.
pub fn remove_consumer(ch: u32, params: &[&str]) -> (r: Command)
    ensures
        r@ == cmd("REMOVE"@, Target::Channel(ch), params@.map_values(|v: &str| v@)),
{
    let r = Command::new("REMOVE").channel(ch).args(params);
    assert(r@.params =~= params@.map_values(|v: &str| v@));
    r
}

/// `PRINT` — write a PNG snapshot of the channel output.
pub fn print(ch: u32) -> (r: Command)
    ensures
        r@ == cmd("PRINT"@, Target::Channel(ch), Seq::empty()),
{
    let r = Command::new("PRINT").channel(ch);
    assert(r@.params =~= Seq::<Seq<char>>::empty());
    r
}

/// `SET` a channel property, e.g. `MODE 1080p5000`.
pub fn set(ch: u32, key: &str, value: &str) -> (r: Command)
    ensures
        r@ == cmd("SET"@, Target::Channel(ch), seq![key@, value@]),
{
    let r = Command::new("SET").channel(ch).arg(key).arg(value);
    assert(r@.params =~= seq![key@, value@]);
    r
}

/// `DATA STORE`.
pub fn data_store(name: &str, data: &str) -> (r: Command)
    ensures
        r@ == cmd("DATA STORE"@, Target::Server, seq![name@, data@]),
{
    let r = Command::new("DATA STORE").arg(name).arg(data);
    assert(r@.params =~= seq![name@, data@]);
    r
}

/// `DATA RETRIEVE`.
pub fn data_retrieve(name: &str) -> (r: Command)
    ensures
        r@ == cmd("DATA RETRIEVE"@, Target::Server, seq![name@]),
{
    let r = Command::new("DATA RETRIEVE").arg(name);
    assert(r@.params =~= seq![name@]);
    r
}

/// `DATA LIST`.
pub fn data_list() -> (r: Command)
    ensures
        r@ == cmd("DATA LIST"@, Target::Server, Seq::empty()),
{
    let r = Command::new("DATA LIST");
    assert(r@.params =~= Seq::<Seq<char>>::empty());
    r
}

/// `DATA REMOVE`.
pub fn data_remove(name: &str) -> (r: Command)
    ensures
        r@ == cmd("DATA REMOVE"@, Target::Server, seq![name@]),
{
    let r = Command::new("DATA REMOVE").arg(name);
    assert(r@.params =~= seq![name@]);
    r
}

/// `CG PLAY`.
pub fn cg_play(ch: u32, layer: u32, cg_layer: u32) -> (r: Command)
    ensures
        r@ == cmd("CG PLAY"@, Target::Layer(ch, layer), seq![decimal(cg_layer as nat)]),
{
    let r = Command::new("CG PLAY").layer(ch, layer).arg_num(cg_layer as u64);
    assert(r@.params =~= seq![decimal(cg_layer as nat)]);
    r
}

/// `CG STOP`.
pub fn cg_stop(ch: u32, layer: u32, cg_layer: u32) -> (r: Command)
    ensures
        r@ == cmd("CG STOP"@, Target::Layer(ch, layer), seq![decimal(cg_layer as nat)]),
{
    let r = Command::new("CG STOP").layer(ch, layer).arg_num(cg_layer as u64);
    assert(r@.params =~= seq![decimal(cg_layer as nat)]);
    r
}

/// `CG NEXT`.
pub fn cg_next(ch: u32, layer: u32, cg_layer: u32) -> (r: Command)
    ensures
        r@ == cmd("CG NEXT"@, Target::Layer(ch, layer), seq![decimal(cg_layer as nat)]),
{
    let r = Command::new("CG NEXT").layer(ch, layer).arg_num(cg_layer as u64);
    assert(r@.params =~= seq![decimal(cg_layer as nat)]);
    r
}

/// `CG REMOVE`.
pub fn cg_remove(ch: u32, layer: u32, cg_layer: u32) -> (r: Command)
    ensures
        r@ == cmd("CG REMOVE"@, Target::Layer(ch, layer), seq![decimal(cg_layer as nat)]),
{
    let r = Command::new("CG REMOVE").layer(ch, layer).arg_num(cg_layer as u64);
    assert(r@.params =~= seq![decimal(cg_layer as nat)]);
    r
}

/// `CG CLEAR` — every CG layer on the layer.
pub fn cg_clear(ch: u32, layer: u32) -> (r: Command)
    ensures
        r@ == cmd("CG CLEAR"@, Target::Layer(ch, layer), Seq::empty()),
{
    let r = Command::new("CG CLEAR").layer(ch, layer);
    assert(r@.params =~= Seq::<Seq<char>>::empty());
    r
}

/// `CG UPDATE` — push new data into a running template.
pub fn cg_update(ch: u32, layer: u32, cg_layer: u32, data: &str) -> (r: Command)
    ensures
        r@ == cmd("CG UPDATE"@, Target::Layer(ch, layer), seq![decimal(cg_layer as nat), data@]),
{
    let r = Command::new("CG UPDATE").layer(ch, layer).arg_num(cg_layer as u64).arg(data);
    assert(r@.params =~= seq![decimal(cg_layer as nat), data@]);
    r
}

/// `CG INVOKE` — call a method on a running template.
pub fn cg_invoke(ch: u32, layer: u32, cg_layer: u32, method: &str) -> (r: Command)
    ensures
        r@ == cmd("CG INVOKE"@, Target::Layer(ch, layer), seq![decimal(cg_layer as nat), method@]),
{
    let r = Command::new("CG INVOKE").layer(ch, layer).arg_num(cg_layer as u64).arg(method);
    assert(r@.params =~= seq![decimal(cg_layer as nat), method@]);
    r
}

/// `MIXER OPACITY`.
pub fn mixer_opacity(ch: u32, layer: u32, value: &str, anim: &Anim) -> (r: Command)
    ensures
        r@ == cmd("MIXER OPACITY"@, Target::Layer(ch, layer), seq![value@] + anim_params(*anim)),
{
    let r = anim.apply(Command::new("MIXER OPACITY").layer(ch, layer).arg(value));
    assert(r@.params =~= seq![value@] + anim_params(*anim));
    r
}

/// `MIXER BRIGHTNESS`.
pub fn mixer_brightness(ch: u32, layer: u32, value: &str, anim: &Anim) -> (r: Command)
    ensures
        r@ == cmd("MIXER BRIGHTNESS"@, Target::Layer(ch, layer), seq![value@] + anim_params(*anim)),
{
    let r = anim.apply(Command::new("MIXER BRIGHTNESS").layer(ch, layer).arg(value));
    assert(r@.params =~= seq![value@] + anim_params(*anim));
    r
}

/// `MIXER SATURATION`.
pub fn mixer_saturation(ch: u32, layer: u32, value: &str, anim: &Anim) -> (r: Command)
    ensures
        r@ == cmd("MIXER SATURATION"@, Target::Layer(ch, layer), seq![value@] + anim_params(*anim)),
{
    let r = anim.apply(Command::new("MIXER SATURATION").layer(ch, layer).arg(value));
    assert(r@.params =~= seq![value@] + anim_params(*anim));
    r
}

/// `MIXER CONTRAST`.
pub fn mixer_contrast(ch: u32, layer: u32, value: &str, anim: &Anim) -> (r: Command)
    ensures
        r@ == cmd("MIXER CONTRAST"@, Target::Layer(ch, layer), seq![value@] + anim_params(*anim)),
{
    let r = anim.apply(Command::new("MIXER CONTRAST").layer(ch, layer).arg(value));
    assert(r@.params =~= seq![value@] + anim_params(*anim));
    r
}

/// `MIXER VOLUME`.
pub fn mixer_volume(ch: u32, layer: u32, value: &str, anim: &Anim) -> (r: Command)
    ensures
        r@ == cmd("MIXER VOLUME"@, Target::Layer(ch, layer), seq![value@] + anim_params(*anim)),
{
    let r = anim.apply(Command::new("MIXER VOLUME").layer(ch, layer).arg(value));
    assert(r@.params =~= seq![value@] + anim_params(*anim));
    r
}

/// `MIXER MASTERVOLUME` — channel-wide.
pub fn mixer_mastervolume(ch: u32, value: &str) -> (r: Command)
    ensures
        r@ == cmd("MIXER MASTERVOLUME"@, Target::Channel(ch), seq![value@]),
{
    let r = Command::new("MIXER MASTERVOLUME").channel(ch).arg(value);
    assert(r@.params =~= seq![value@]);
    r
}

/// `MIXER LEVELS` — min/max in, gamma, min/max out.
pub fn mixer_levels(ch: u32, layer: u32, min_in: &str, max_in: &str, gamma: &str, min_out: &str, max_out: &str, anim: &Anim) -> (r: Command)
    ensures
        r@ == cmd("MIXER LEVELS"@, Target::Layer(ch, layer), seq![min_in@, max_in@, gamma@, min_out@, max_out@] + anim_params(*anim)),
{
    let r = anim.apply(Command::new("MIXER LEVELS").layer(ch, layer).arg(min_in).arg(max_in).arg(gamma).arg(min_out).arg(max_out));
    assert(r@.params =~= seq![min_in@, max_in@, gamma@, min_out@, max_out@] + anim_params(*anim));
    r
}

/// `MIXER FILL` — position and scale the layer within the channel, in
/// normalised units where 1.0 is the channel's width or height.
pub fn mixer_fill(ch: u32, layer: u32, x: &str, y: &str, w: &str, h: &str, anim: &Anim) -> (r: Command)
    ensures
        r@ == cmd("MIXER FILL"@, Target::Layer(ch, layer), seq![x@, y@, w@, h@] + anim_params(*anim)),
{
    let r = anim.apply(Command::new("MIXER FILL").layer(ch, layer).arg(x).arg(y).arg(w).arg(h));
    assert(r@.params =~= seq![x@, y@, w@, h@] + anim_params(*anim));
    r
}

/// `MIXER CLIP` — the rectangle outside which the layer is masked away.
pub fn mixer_clip(ch: u32, layer: u32, x: &str, y: &str, w: &str, h: &str, anim: &Anim) -> (r: Command)
    ensures
        r@ == cmd("MIXER CLIP"@, Target::Layer(ch, layer), seq![x@, y@, w@, h@] + anim_params(*anim)),
{
    let r = anim.apply(Command::new("MIXER CLIP").layer(ch, layer).arg(x).arg(y).arg(w).arg(h));
    assert(r@.params =~= seq![x@, y@, w@, h@] + anim_params(*anim));
    r
}

/// `MIXER CROP` — trim the source edges.
pub fn mixer_crop(ch: u32, layer: u32, left: &str, top: &str, right: &str, bottom: &str, anim: &Anim) -> (r: Command)
    ensures
        r@ == cmd("MIXER CROP"@, Target::Layer(ch, layer), seq![left@, top@, right@, bottom@] + anim_params(*anim)),
{
    let r = anim.apply(Command::new("MIXER CROP").layer(ch, layer).arg(left).arg(top).arg(right).arg(bottom));
    assert(r@.params =~= seq![left@, top@, right@, bottom@] + anim_params(*anim));
    r
}

/// `MIXER ANCHOR` — the origin that rotation and fill scale around.
pub fn mixer_anchor(ch: u32, layer: u32, x: &str, y: &str, anim: &Anim) -> (r: Command)
    ensures
        r@ == cmd("MIXER ANCHOR"@, Target::Layer(ch, layer), seq![x@, y@] + anim_params(*anim)),
{
    let r = anim.apply(Command::new("MIXER ANCHOR").layer(ch, layer).arg(x).arg(y));
    assert(r@.params =~= seq![x@, y@] + anim_params(*anim));
    r
}

/// `MIXER ROTATION`, in degrees.
pub fn mixer_rotation(ch: u32, layer: u32, degrees: &str, anim: &Anim) -> (r: Command)
    ensures
        r@ == cmd("MIXER ROTATION"@, Target::Layer(ch, layer), seq![degrees@] + anim_params(*anim)),
{
    let r = anim.apply(Command::new("MIXER ROTATION").layer(ch, layer).arg(degrees));
    assert(r@.params =~= seq![degrees@] + anim_params(*anim));
    r
}

/// `MIXER KEYER` — use the layer as an alpha key for the one below.
pub fn mixer_keyer(ch: u32, layer: u32, on: bool) -> (r: Command)
    ensures
        r@ == cmd("MIXER KEYER"@, Target::Layer(ch, layer), seq![decimal(if on { 1nat } else { 0nat })]),
{
    let r = Command::new("MIXER KEYER").layer(ch, layer).arg_num(if on { 1 } else { 0 });
    assert(r@.params =~= seq![decimal(if on { 1nat } else { 0nat })]);
    r
}

/// `MIXER INVERT` — invert the layer's alpha (2.5+).
pub fn mixer_invert(ch: u32, layer: u32, on: bool) -> (r: Command)
    ensures
        r@ == cmd("MIXER INVERT"@, Target::Layer(ch, layer), seq![decimal(if on { 1nat } else { 0nat })]),
{
    let r = Command::new("MIXER INVERT").layer(ch, layer).arg_num(if on { 1 } else { 0 });
    assert(r@.params =~= seq![decimal(if on { 1nat } else { 0nat })]);
    r
}

/// `MIXER BLEND` — set the layer's blend mode, e.g. `screen`, `add`.
pub fn mixer_blend(ch: u32, layer: u32, mode: &str) -> (r: Command)
    ensures
        r@ == cmd("MIXER BLEND"@, Target::Layer(ch, layer), seq![mode@]),
{
    let r = Command::new("MIXER BLEND").layer(ch, layer).arg(mode);
    assert(r@.params =~= seq![mode@]);
    r
}

/// `MIXER CHROMA` — chroma key.
pub fn mixer_chroma(ch: u32, layer: u32, params: &[&str]) -> (r: Command)
    ensures
        r@ == cmd("MIXER CHROMA"@, Target::Layer(ch, layer), params@.map_values(|v: &str| v@)),
{
    let r = Command::new("MIXER CHROMA").layer(ch, layer).args(params);
    assert(r@.params =~= params@.map_values(|v: &str| v@));
    r
}

/// `MIXER GRID` — lay every layer of the channel out in an n×n grid.
pub fn mixer_grid(ch: u32, n: u32, anim: &Anim) -> (r: Command)
    ensures
        r@ == cmd("MIXER GRID"@, Target::Channel(ch), seq![decimal(n as nat)] + anim_params(*anim)),
{
    let r = anim.apply(Command::new("MIXER GRID").channel(ch).arg_num(n as u64));
    assert(r@.params =~= seq![decimal(n as nat)] + anim_params(*anim));
    r
}

/// `MIXER CLEAR` — drop every transform on a layer.
pub fn mixer_clear_layer(ch: u32, layer: u32) -> (r: Command)
    ensures
        r@ == cmd("MIXER CLEAR"@, Target::Layer(ch, layer), Seq::empty()),
{
    let r = Command::new("MIXER CLEAR").layer(ch, layer);
    assert(r@.params =~= Seq::<Seq<char>>::empty());
    r
}

/// `MIXER CLEAR` — drop every transform on a channel.
pub fn mixer_clear_channel(ch: u32) -> (r: Command)
    ensures
        r@ == cmd("MIXER CLEAR"@, Target::Channel(ch), Seq::empty()),
{
    let r = Command::new("MIXER CLEAR").channel(ch);
    assert(r@.params =~= Seq::<Seq<char>>::empty());
    r
}

/// `CHANNEL_GRID` — route every channel into a monitoring grid on the last one.
pub fn channel_grid() -> (r: Command)
    ensures
        r@ == cmd("CHANNEL_GRID"@, Target::Server, Seq::empty()),
{
    let r = Command::new("CHANNEL_GRID");
    assert(r@.params =~= Seq::<Seq<char>>::empty());
    r
}

/// `INFO` — one line per channel.
pub fn info() -> (r: Command)
    ensures
        r@ == cmd("INFO"@, Target::Server, Seq::empty()),
{
    let r = Command::new("INFO");
    assert(r@.params =~= Seq::<Seq<char>>::empty());
    r
}

/// `INFO <channel>` — the channel's full state as XML.
pub fn info_channel(ch: u32) -> (r: Command)
    ensures
        r@ == cmd("INFO"@, Target::Channel(ch), Seq::empty()),
{
    let r = Command::new("INFO").channel(ch);
    assert(r@.params =~= Seq::<Seq<char>>::empty());
    r
}

/// `INFO <channel>-<layer>` — one layer's state as XML.
pub fn info_layer(ch: u32, layer: u32) -> (r: Command)
    ensures
        r@ == cmd("INFO"@, Target::Layer(ch, layer), Seq::empty()),
{
    let r = Command::new("INFO").layer(ch, layer);
    assert(r@.params =~= Seq::<Seq<char>>::empty());
    r
}

/// `INFO CONFIG` — the server's running configuration as XML.
pub fn info_config() -> (r: Command)
    ensures
        r@ == cmd("INFO CONFIG"@, Target::Server, Seq::empty()),
{
    let r = Command::new("INFO CONFIG");
    assert(r@.params =~= Seq::<Seq<char>>::empty());
    r
}

/// `INFO PATHS` — the configured media/template/data/log paths.
pub fn info_paths() -> (r: Command)
    ensures
        r@ == cmd("INFO PATHS"@, Target::Server, Seq::empty()),
{
    let r = Command::new("INFO PATHS");
    assert(r@.params =~= Seq::<Seq<char>>::empty());
    r
}

/// `VERSION`.
pub fn version() -> (r: Command)
    ensures
        r@ == cmd("VERSION"@, Target::Server, Seq::empty()),
{
    let r = Command::new("VERSION");
    assert(r@.params =~= Seq::<Seq<char>>::empty());
    r
}

/// `CLS` — list media. Proxied by the server to media-scanner, so it fails
/// with `501` when the scanner is not running.
pub fn cls() -> (r: Command)
    ensures
        r@ == cmd("CLS"@, Target::Server, Seq::empty()),
{
    let r = Command::new("CLS");
    assert(r@.params =~= Seq::<Seq<char>>::empty());
    r
}

/// `TLS` — list templates. Also proxied to media-scanner.
pub fn tls() -> (r: Command)
    ensures
        r@ == cmd("TLS"@, Target::Server, Seq::empty()),
{
    let r = Command::new("TLS");
    assert(r@.params =~= Seq::<Seq<char>>::empty());
    r
}

/// `FLS` — list fonts. Also proxied to media-scanner.
pub fn fls() -> (r: Command)
    ensures
        r@ == cmd("FLS"@, Target::Server, Seq::empty()),
{
    let r = Command::new("FLS");
    assert(r@.params =~= Seq::<Seq<char>>::empty());
    r
}

/// `CINF` — info for one media file. Also proxied to media-scanner.
pub fn cinf(name: &str) -> (r: Command)
    ensures
        r@ == cmd("CINF"@, Target::Server, seq![name@]),
{
    let r = Command::new("CINF").arg(name);
    assert(r@.params =~= seq![name@]);
    r
}

/// `GL INFO` — OpenGL device and texture pool state.
pub fn gl_info() -> (r: Command)
    ensures
        r@ == cmd("GL INFO"@, Target::Server, Seq::empty()),
{
    let r = Command::new("GL INFO");
    assert(r@.params =~= Seq::<Seq<char>>::empty());
    r
}

/// `DIAG` — open the server's diagnostics window.
pub fn diag() -> (r: Command)
    ensures
        r@ == cmd("DIAG"@, Target::Server, Seq::empty()),
{
    let r = Command::new("DIAG");
    assert(r@.params =~= Seq::<Seq<char>>::empty());
    r
}

/// `LOG LEVEL`.
pub fn log_level(level: &str) -> (r: Command)
    ensures
        r@ == cmd("LOG LEVEL"@, Target::Server, seq![level@]),
{
    let r = Command::new("LOG LEVEL").arg(level);
    assert(r@.params =~= seq![level@]);
    r
}

/// `BYE` — close the connection politely.
pub fn bye() -> (r: Command)
    ensures
        r@ == cmd("BYE"@, Target::Server, Seq::empty()),
{
    let r = Command::new("BYE");
    assert(r@.params =~= Seq::<Seq<char>>::empty());
    r
}

/// `THUMBNAIL LIST`.
pub fn thumbnail_list() -> (r: Command)
    ensures
        r@ == cmd("THUMBNAIL LIST"@, Target::Server, Seq::empty()),
{
    let r = Command::new("THUMBNAIL LIST");
    assert(r@.params =~= Seq::<Seq<char>>::empty());
    r
}

/// `THUMBNAIL RETRIEVE` — base64 PNG for one media file.
pub fn thumbnail_retrieve(name: &str) -> (r: Command)
    ensures
        r@ == cmd("THUMBNAIL RETRIEVE"@, Target::Server, seq![name@]),
{
    let r = Command::new("THUMBNAIL RETRIEVE").arg(name);
    assert(r@.params =~= seq![name@]);
    r
}

/// `THUMBNAIL GENERATE`.
pub fn thumbnail_generate(name: &str) -> (r: Command)
    ensures
        r@ == cmd("THUMBNAIL GENERATE"@, Target::Server, seq![name@]),
{
    let r = Command::new("THUMBNAIL GENERATE").arg(name);
    assert(r@.params =~= seq![name@]);
    r
}

/// `THUMBNAIL GENERATE_ALL`.
pub fn thumbnail_generate_all() -> (r: Command)
    ensures
        r@ == cmd("THUMBNAIL GENERATE_ALL"@, Target::Server, Seq::empty()),
{
    let r = Command::new("THUMBNAIL GENERATE_ALL");
    assert(r@.params =~= Seq::<Seq<char>>::empty());
    r
}

/// `OSC SUBSCRIBE <port>` (2.5+) — ask the server to send this client's OSC
/// telemetry to `port` on the connecting address, instead of relying on the
/// default port that every other client is also listening on.
pub fn osc_subscribe(port: u16) -> (r: Command)
    ensures
        r@ == cmd("OSC SUBSCRIBE"@, Target::Server, seq![decimal(port as nat)]),
{
    let r = Command::new("OSC SUBSCRIBE").arg_num(port as u64);
    assert(r@.params =~= seq![decimal(port as nat)]);
    r
}

/// `OSC UNSUBSCRIBE <port>`.
pub fn osc_unsubscribe(port: u16) -> (r: Command)
    ensures
        r@ == cmd("OSC UNSUBSCRIBE"@, Target::Server, seq![decimal(port as nat)]),
{
    let r = Command::new("OSC UNSUBSCRIBE").arg_num(port as u64);
    assert(r@.params =~= seq![decimal(port as nat)]);
    r
}

} // verus!
