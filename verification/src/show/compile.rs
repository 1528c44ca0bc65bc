//! Compiling a show down to AMCP.
//!
//! A screen maps to `MIXER FILL` (position and scale), `MIXER PERSPECTIVE`
//! (corner-pin keystone) and `MIXER OPACITY`. A cue's actions compile in
//! order into one list, fired as a single batch. An action on a screen the
//! show does not have fails the whole cue: half a cue on stage is worse than
//! none, and the operator is told which screen is missing.

use vstd::prelude::*;

use crate::amcp::command::{command_views, Command, CommandView, Target};
use crate::amcp::commands::{
    anim_params, cg_add, cg_stop, clear_layer, cmd, kind_word, loop_param, loadbg, mixer_fill,
    mixer_opacity, mixer_perspective, mixer_volume, opt_text, pause, play, play_clip, resume,
    stop, transition_params, Anim, Direction, Transition, TransitionKind,
};
use crate::show::model::{
    action_screen, first_cue, first_screen, is_identity, Action, Cue, Real, Screen, Show,
    TransitionSpec, UnknownScreen,
};
use crate::text::{decimal, lowercase, push_decimal, push_str, same_text, string_from, to_lower};

verus! {

broadcast use vstd::string::group_string_axioms;

// ---------------------------------------------------------------- transitions

/// The transition kind a (lower-cased) name selects; anything unknown cuts.
pub open spec fn kind_named(name: Seq<char>) -> TransitionKind {
    if name == "mix"@ {
        TransitionKind::Mix
    } else if name == "push"@ {
        TransitionKind::Push
    } else if name == "slide"@ {
        TransitionKind::Slide
    } else if name == "wipe"@ {
        TransitionKind::Wipe
    } else if name == "sting"@ {
        TransitionKind::Sting
    } else {
        TransitionKind::Cut
    }
}

/// The direction a show file names: exactly `left` or `right`.
pub open spec fn direction_named(d: Option<String>) -> Option<Direction> {
    match d {
        Some(s) => if s@ == "left"@ {
            Some(Direction::Left)
        } else if s@ == "right"@ {
            Some(Direction::Right)
        } else {
            None
        },
        None => None,
    }
}

/// The transition a spec describes. The kind is matched case-insensitively.
pub open spec fn transition_of(t: TransitionSpec) -> Transition {
    Transition {
        kind: kind_named(lowercase(t.kind@)),
        duration: t.frames,
        tween: t.tween,
        direction: direction_named(t.direction),
        sting: t.sting,
    }
}

/// The parameters an optional transition spec adds.
pub open spec fn spec_params(t: Option<TransitionSpec>) -> Seq<Seq<char>> {
    match t {
        Some(ts) => transition_params(transition_of(ts)),
        None => Seq::empty(),
    }
}

fn copy_text(o: &Option<String>) -> (r: Option<String>)
    ensures
        r == *o,
{
    match o {
        Some(s) => Some(s.clone()),
        None => None,
    }
}

impl TransitionSpec {
    /// The transition this spec describes.
    pub fn to_transition(&self) -> (r: Transition)
        ensures
            r == transition_of(*self),
    {
        let lower = to_lower(self.kind.as_str());
        let k = lower.as_str();
        let kind = if same_text(k, "mix") {
            TransitionKind::Mix
        } else if same_text(k, "push") {
            TransitionKind::Push
        } else if same_text(k, "slide") {
            TransitionKind::Slide
        } else if same_text(k, "wipe") {
            TransitionKind::Wipe
        } else if same_text(k, "sting") {
            TransitionKind::Sting
        } else {
            TransitionKind::Cut
        };
        let direction = match &self.direction {
            Some(d) => if same_text(d.as_str(), "left") {
                Some(Direction::Left)
            } else if same_text(d.as_str(), "right") {
                Some(Direction::Right)
            } else {
                None
            },
            None => None,
        };
        Transition {
            kind,
            duration: self.frames,
            tween: copy_text(&self.tween),
            direction,
            sting: copy_text(&self.sting),
        }
    }
}

/// The ramp of a fade: the frame count, then the tween when there is one;
/// nothing at all for an instant, linear change.
pub open spec fn ramp(frames: u32, tween: Option<String>) -> Seq<Seq<char>> {
    if frames == 0 && tween is None {
        Seq::empty()
    } else {
        seq![decimal(frames as nat)] + opt_text(tween)
    }
}

pub(crate) fn anim(frames: u32, tween: &Option<String>) -> (r: Anim)
    ensures
        anim_params(r) == ramp(frames, *tween),
{
    match tween {
        Some(t) => Anim::eased(frames, t.as_str()),
        None => Anim::frames(frames),
    }
}

// -------------------------------------------------------------------- mapping

/// The commands that put a screen's geometry into the server: its fill, its
/// corner-pin when the corners are warped, and its opacity — zero when the
/// screen is disabled.
pub open spec fn screen_mapping(s: Screen) -> Seq<CommandView> {
    let target = Target::Layer(s.channel, s.layer);
    seq![cmd("MIXER FILL"@, target, seq![s.rect.x.text@, s.rect.y.text@, s.rect.w.text@, s.rect.h.text@])]
        + (if is_identity(s.corners) {
        Seq::empty()
    } else {
        seq![
            cmd(
                "MIXER PERSPECTIVE"@,
                target,
                seq![
                    s.corners@[0].0.text@, s.corners@[0].1.text@,
                    s.corners@[1].0.text@, s.corners@[1].1.text@,
                    s.corners@[2].0.text@, s.corners@[2].1.text@,
                    s.corners@[3].0.text@, s.corners@[3].1.text@,
                ],
            ),
        ]
    }) + seq![
        cmd(
            "MIXER OPACITY"@,
            target,
            seq![
                if s.enabled {
                    s.opacity.text@
                } else {
                    "0"@
                },
            ],
        ),
    ]
}

/// Every screen's mapping, in screen order.
pub open spec fn show_mapping(screens: Seq<Screen>) -> Seq<CommandView>
    decreases screens.len(),
{
    if screens.len() == 0 {
        Seq::empty()
    } else {
        show_mapping(screens.drop_last()) + screen_mapping(screens.last())
    }
}

impl Screen {
    /// The commands that put this screen's geometry into the server.
    ///
    /// `PERSPECTIVE` is only sent when the corners are actually warped — an
    /// identity corner-pin still costs a transform on the layer, and sending
    /// it needlessly makes the server's state harder to read.
    pub fn mapping_commands(&self) -> (r: Vec<Command>)
        ensures
            command_views(r@) == screen_mapping(*self),
    {
        let instant = Anim::instant();
        let mut out: Vec<Command> = Vec::new();
        out.push(
            mixer_fill(
                self.channel,
                self.layer,
                self.rect.x.text.as_str(),
                self.rect.y.text.as_str(),
                self.rect.w.text.as_str(),
                self.rect.h.text.as_str(),
                &instant,
            ),
        );
        let c = &self.corners;
        let identity = c[0].0.is_zero() && c[0].1.is_zero() && c[1].0.is_one() && c[1].1.is_zero()
            && c[2].0.is_one() && c[2].1.is_one() && c[3].0.is_zero() && c[3].1.is_one();
        if !identity {
            let pins: [(&str, &str); 4] = [
                (c[0].0.text.as_str(), c[0].1.text.as_str()),
                (c[1].0.text.as_str(), c[1].1.text.as_str()),
                (c[2].0.text.as_str(), c[2].1.text.as_str()),
                (c[3].0.text.as_str(), c[3].1.text.as_str()),
            ];
            out.push(mixer_perspective(self.channel, self.layer, &pins, &instant));
        }
        let zero = string_from("0");
        let opacity = if self.enabled {
            self.opacity.text.as_str()
        } else {
            zero.as_str()
        };
        out.push(mixer_opacity(self.channel, self.layer, opacity, &instant));
        assert(command_views(out@) =~= screen_mapping(*self));
        out
    }
}

// -------------------------------------------------------------------- actions

/// The commands an action compiles to on channel `ch`, layer `ly`, given the
/// screen it resolved to (if it needs one).
pub open spec fn action_commands(a: Action, ch: u32, ly: u32, screen: Option<Screen>) -> Seq<
    CommandView,
> {
    let target = Target::Layer(ch, ly);
    match a {
        Action::Play { clip, looping, transition, .. } => seq![
            cmd("PLAY"@, target, seq![clip@] + loop_param(looping) + spec_params(transition)),
        ],
        Action::Load { clip, looping, transition, .. } => seq![
            cmd("LOADBG"@, target, seq![clip@] + loop_param(looping) + spec_params(transition)),
        ],
        Action::Take { .. } => seq![cmd("PLAY"@, target, Seq::empty())],
        Action::Pause { .. } => seq![cmd("PAUSE"@, target, Seq::empty())],
        Action::Resume { .. } => seq![cmd("RESUME"@, target, Seq::empty())],
        Action::Stop { .. } => seq![cmd("STOP"@, target, Seq::empty())],
        Action::Clear { .. } => seq![cmd("CLEAR"@, target, Seq::empty())],
        Action::Opacity { value, frames, tween, .. } => seq![
            cmd("MIXER OPACITY"@, target, seq![value.text@] + ramp(frames, tween)),
        ],
        Action::Volume { value, frames, tween, .. } => seq![
            cmd("MIXER VOLUME"@, target, seq![value.text@] + ramp(frames, tween)),
        ],
        Action::Remap { .. } => match screen {
            Some(s) => screen_mapping(s),
            None => Seq::empty(),
        },
        Action::Template { template, cg_layer, data, .. } => seq![
            cmd(
                "CG ADD"@,
                target,
                seq![decimal(cg_layer as nat), template@, decimal(1)] + opt_text(data),
            ),
        ],
        Action::TemplateStop { cg_layer, .. } => seq![
            cmd("CG STOP"@, target, seq![decimal(cg_layer as nat)]),
        ],
        Action::Raw { command } => seq![cmd(command@, Target::Server, Seq::empty())],
    }
}

/// What one action compiles to in a show: its commands, or the id of the
/// screen it names that the show does not have. An action with no screen
/// runs on channel 1, layer 1.
pub open spec fn compiled(screens: Seq<Screen>, a: Action) -> Result<Seq<CommandView>, Seq<char>> {
    match action_screen(a) {
        Some(id) => match first_screen(screens, id) {
            Some(s) => Ok(action_commands(a, s.channel, s.layer, Some(s))),
            None => Err(id),
        },
        None => Ok(action_commands(a, 1, 1, None)),
    }
}

/// What a list of actions compiles to: every action's commands in order, or
/// the first unknown screen.
pub open spec fn compiled_all(screens: Seq<Screen>, actions: Seq<Action>) -> Result<
    Seq<CommandView>,
    Seq<char>,
>
    decreases actions.len(),
{
    if actions.len() == 0 {
        Ok(Seq::empty())
    } else {
        match compiled_all(screens, actions.drop_last()) {
            Ok(front) => match compiled(screens, actions.last()) {
                Ok(cs) => Ok(front + cs),
                Err(id) => Err(id),
            },
            Err(id) => Err(id),
        }
    }
}

/// The outcome of a compile, as it is returned.
pub open spec fn outcome(r: Result<Vec<Command>, UnknownScreen>) -> Result<Seq<CommandView>, Seq<char>> {
    match r {
        Ok(v) => Ok(command_views(v@)),
        Err(e) => Err(e.0@),
    }
}

fn one(c: Command) -> (r: Vec<Command>)
    ensures
        command_views(r@) == seq![c@],
{
    let mut v: Vec<Command> = Vec::new();
    v.push(c);
    assert(command_views(v@) =~= seq![c@]);
    v
}

fn transition_arg(t: &Option<TransitionSpec>) -> (r: Option<Transition>)
    ensures
        match r {
            Some(tr) => spec_params(*t) == transition_params(tr),
            None => spec_params(*t) == Seq::<Seq<char>>::empty(),
        },
{
    match t {
        Some(ts) => Some(ts.to_transition()),
        None => None,
    }
}

impl Show {
    /// Compile one action into AMCP commands.
    pub fn compile_action(&self, action: &Action) -> (r: Result<Vec<Command>, UnknownScreen>)
        ensures
            outcome(r) == compiled(self.screens@, *action),
    {
        let (ch, ly, screen) = match action.screen_id() {
            Some(id) => match self.screen(id) {
                Some(s) => (s.channel, s.layer, Some(s)),
                None => {
                    return Err(UnknownScreen(string_from(id)));
                },
            },
            None => (1u32, 1u32, None),
        };
        let cmds = match action {
            Action::Play { clip, looping, transition, .. } => {
                let t = transition_arg(transition);
                let c = match &t {
                    Some(tr) => play_clip(ch, ly, clip.as_str(), *looping, Some(tr)),
                    None => play_clip(ch, ly, clip.as_str(), *looping, None),
                };
                one(c)
            },
            Action::Load { clip, looping, transition, .. } => {
                let t = transition_arg(transition);
                let c = match &t {
                    Some(tr) => loadbg(ch, ly, clip.as_str(), *looping, Some(tr)),
                    None => loadbg(ch, ly, clip.as_str(), *looping, None),
                };
                one(c)
            },
            Action::Take { .. } => one(play(ch, ly)),
            Action::Pause { .. } => one(pause(ch, ly)),
            Action::Resume { .. } => one(resume(ch, ly)),
            Action::Stop { .. } => one(stop(ch, ly)),
            Action::Clear { .. } => one(clear_layer(ch, ly)),
            Action::Opacity { value, frames, tween, .. } => {
                let a = anim(*frames, tween);
                one(mixer_opacity(ch, ly, value.text.as_str(), &a))
            },
            Action::Volume { value, frames, tween, .. } => {
                let a = anim(*frames, tween);
                one(mixer_volume(ch, ly, value.text.as_str(), &a))
            },
            Action::Remap { .. } => match screen {
                Some(s) => s.mapping_commands(),
                None => {
                    let v: Vec<Command> = Vec::new();
                    assert(command_views(v@) =~= Seq::<CommandView>::empty());
                    v
                },
            },
            Action::Template { template, cg_layer, data, .. } => {
                let c = match data {
                    Some(d) => cg_add(ch, ly, *cg_layer, template.as_str(), true, Some(d.as_str())),
                    None => cg_add(ch, ly, *cg_layer, template.as_str(), true, None),
                };
                one(c)
            },
            Action::TemplateStop { cg_layer, .. } => one(cg_stop(ch, ly, *cg_layer)),
            Action::Raw { command } => one(Command::new(command.as_str())),
        };
        Ok(cmds)
    }

    /// Compile a whole cue. An unknown screen fails the cue, rather than
    /// firing the actions that happen to resolve.
    pub fn compile_cue(&self, cue: &Cue) -> (r: Result<Vec<Command>, UnknownScreen>)
        ensures
            outcome(r) == compiled_all(self.screens@, cue.actions@),
    {
        let mut out: Vec<Command> = Vec::new();
        assert(cue.actions@.take(0) =~= Seq::<Action>::empty());
        assert(command_views(out@) =~= Seq::<CommandView>::empty());
        for i in 0..cue.actions.len()
            invariant
                compiled_all(self.screens@, cue.actions@.take(i as int)) == Ok::<
                    Seq<CommandView>,
                    Seq<char>,
                >(command_views(out@)),
        {
            let ghost before = command_views(out@);
            assert(cue.actions@.take(i + 1).drop_last() == cue.actions@.take(i as int));
            assert(cue.actions@.take(i + 1).last() == cue.actions@[i as int]);
            let mut cs = match self.compile_action(&cue.actions[i]) {
                Ok(cs) => cs,
                Err(e) => {
                    proof {
                        lemma_failure_sticks(self.screens@, cue.actions@, i + 1);
                        lemma_failed_prefix(self.screens@, cue.actions@, i + 1);
                        assert(cue.actions@.take(cue.actions@.len() as int) == cue.actions@);
                    }
                    return Err(e);
                },
            };
            let ghost added = command_views(cs@);
            out.append(&mut cs);
            assert(command_views(out@) =~= before + added);
        }
        assert(cue.actions@.take(cue.actions@.len() as int) == cue.actions@);
        Ok(out)
    }

    /// Every screen's mapping, for pushing the whole layout at once — on
    /// connect, or after the server restarts.
    pub fn mapping_commands(&self) -> (r: Vec<Command>)
        ensures
            command_views(r@) == show_mapping(self.screens@),
    {
        let mut out: Vec<Command> = Vec::new();
        for i in 0..self.screens.len()
            invariant
                command_views(out@) == show_mapping(self.screens@.take(i as int)),
        {
            let ghost before = command_views(out@);
            assert(self.screens@.take(i + 1).drop_last() == self.screens@.take(i as int));
            let mut cs = self.screens[i].mapping_commands();
            let ghost added = command_views(cs@);
            out.append(&mut cs);
            assert(command_views(out@) =~= before + added);
        }
        assert(self.screens@.take(self.screens@.len() as int) == self.screens@);
        out
    }

    /// The commands a cue fires, by the cue's id. A missing cue is reported
    /// the way a missing screen is, naming the id that was asked for.
    pub fn cue_commands(&self, cue_id: &str) -> (r: Result<Vec<Command>, UnknownScreen>)
        ensures
            outcome(r) == match first_cue(self.cues@, cue_id@) {
                Some(c) => compiled_all(self.screens@, c.actions@),
                None => Err(cue_id@),
            },
    {
        match self.cue(cue_id) {
            Some(c) => self.compile_cue(c),
            None => Err(UnknownScreen(string_from(cue_id))),
        }
    }
}

// ------------------------------------------------------------------ warnings

/// The warning for two screens on one channel and layer.
pub open spec fn clash_message(a: Screen, b: Screen) -> Seq<char> {
    "'"@ + a.name@ + "' and '"@ + b.name@ + "' both use channel "@ + decimal(a.channel as nat)
        + " layer "@ + decimal(a.layer as nat) + " — one will replace the other"@
}

/// The warnings for `a` against each of `rest` that shares its channel and
/// layer, in order.
pub open spec fn clashes(a: Screen, rest: Seq<Screen>) -> Seq<Seq<char>>
    decreases rest.len(),
{
    if rest.len() == 0 {
        Seq::empty()
    } else {
        clashes(a, rest.drop_last()) + if a.channel == rest.last().channel && a.layer
            == rest.last().layer {
            seq![clash_message(a, rest.last())]
        } else {
            Seq::empty()
        }
    }
}

/// The clash warnings for each of the first `n` screens against those after it.
pub open spec fn clashes_upto(s: Seq<Screen>, n: int) -> Seq<Seq<char>>
    decreases n,
{
    if n <= 0 {
        Seq::empty()
    } else {
        clashes_upto(s, n - 1) + clashes(s[n - 1], s.skip(n))
    }
}

/// The warning for a pad whose cue is missing.
pub open spec fn missing_cue_message(index: u32, cue: Seq<char>) -> Seq<char> {
    "pad "@ + decimal(index as nat) + " fires missing cue '"@ + cue + "'"@
}

/// The warnings for the pads that fire a cue the show does not have.
pub open spec fn pad_warnings(pads: Seq<crate::show::model::Pad>, cues: Seq<Cue>) -> Seq<Seq<char>>
    decreases pads.len(),
{
    if pads.len() == 0 {
        Seq::empty()
    } else {
        pad_warnings(pads.drop_last(), cues) + if first_cue(cues, pads.last().cue@) is None {
            seq![missing_cue_message(pads.last().index, pads.last().cue@)]
        } else {
            Seq::empty()
        }
    }
}

/// Every warning about a show: screen clashes in screen order, then pads
/// with missing cues in pad order.
pub open spec fn show_warnings(show: Show) -> Seq<Seq<char>> {
    clashes_upto(show.screens@, show.screens@.len() as int) + pad_warnings(show.pads@, show.cues@)
}

fn clash_text(a: &Screen, b: &Screen) -> (r: String)
    ensures
        r@ == clash_message(*a, *b),
{
    let mut out = string_from("'");
    push_str(&mut out, a.name.as_str());
    push_str(&mut out, "' and '");
    push_str(&mut out, b.name.as_str());
    push_str(&mut out, "' both use channel ");
    push_decimal(&mut out, a.channel as u64);
    push_str(&mut out, " layer ");
    push_decimal(&mut out, a.layer as u64);
    push_str(&mut out, " — one will replace the other");
    out
}

fn missing_cue_text(index: u32, cue: &str) -> (r: String)
    ensures
        r@ == missing_cue_message(index, cue@),
{
    let mut out = string_from("pad ");
    push_decimal(&mut out, index as u64);
    push_str(&mut out, " fires missing cue '");
    push_str(&mut out, cue);
    push_str(&mut out, "'");
    out
}

impl Show {
    /// Problems worth telling the operator about before the show rather than
    /// during it: two screens on the same channel *and* layer (the second
    /// silently replaces the first), and pads that fire a missing cue.
    pub fn warnings(&self) -> (r: Vec<String>)
        ensures
            r@.map_values(|w: String| w@) == show_warnings(*self),
    {
        let s = &self.screens;
        let mut out: Vec<String> = Vec::new();
        assert(out@.map_values(|w: String| w@) =~= Seq::<Seq<char>>::empty());
        for i in 0..s.len()
            invariant
                s == &self.screens,
                out@.map_values(|w: String| w@) == clashes_upto(s@, i as int),
        {
            let ghost base = out@.map_values(|w: String| w@);
            let ghost rest = s@.skip(i + 1);
            assert(rest.take(0) =~= Seq::<Screen>::empty());
            assert(out@.map_values(|w: String| w@) =~= base + clashes(s@[i as int], rest.take(0)));
            for j in i + 1..s.len()
                invariant
                    s == &self.screens,
                    i < s@.len(),
                    rest == s@.skip(i + 1),
                    out@.map_values(|w: String| w@) == base + clashes(
                        s@[i as int],
                        rest.take(j - i - 1),
                    ),
            {
                let ghost before = out@.map_values(|w: String| w@);
                assert(rest.take(j - i).drop_last() == rest.take(j - i - 1));
                assert(rest.take(j - i).last() == s@[j as int]);
                if s[i].channel == s[j].channel && s[i].layer == s[j].layer {
                    out.push(clash_text(&s[i], &s[j]));
                    assert(out@.map_values(|w: String| w@) =~= before.push(
                        clash_message(s@[i as int], s@[j as int]),
                    ));
                } else {
                    assert(before + Seq::<Seq<char>>::empty() == before);
                }
                assert(base + clashes(s@[i as int], rest.take(j - i)) =~= before + if s@[i as int].channel
                    == s@[j as int].channel && s@[i as int].layer == s@[j as int].layer {
                    seq![clash_message(s@[i as int], s@[j as int])]
                } else {
                    Seq::<Seq<char>>::empty()
                });
            }
            assert(rest.take(s@.len() - i - 1) == rest);
        }
        let ghost clash_part = out@.map_values(|w: String| w@);
        let p = &self.pads;
        assert(p@.take(0) =~= Seq::<crate::show::model::Pad>::empty());
        assert(clash_part + pad_warnings(p@.take(0), self.cues@) =~= clash_part);
        for k in 0..p.len()
            invariant
                p == &self.pads,
                out@.map_values(|w: String| w@) == clash_part + pad_warnings(
                    p@.take(k as int),
                    self.cues@,
                ),
        {
            let ghost before = out@.map_values(|w: String| w@);
            assert(p@.take(k + 1).drop_last() == p@.take(k as int));
            assert(p@.take(k + 1).last() == p@[k as int]);
            if self.cue(p[k].cue.as_str()).is_none() {
                out.push(missing_cue_text(p[k].index, p[k].cue.as_str()));
                assert(out@.map_values(|w: String| w@) =~= before.push(
                    missing_cue_message(p@[k as int].index, p@[k as int].cue@),
                ));
            }
            assert(clash_part + pad_warnings(p@.take(k + 1), self.cues@) =~= before + if first_cue(
                self.cues@,
                p@[k as int].cue@,
            ) is None {
                seq![missing_cue_message(p@[k as int].index, p@[k as int].cue@)]
            } else {
                Seq::<Seq<char>>::empty()
            });
        }
        assert(p@.take(p@.len() as int) == p@);
        out
    }
}

/// Two screens share an output when they are on the same channel and layer.
pub open spec fn share_a_layer(a: Screen, b: Screen) -> bool {
    a.channel == b.channel && a.layer == b.layer
}

proof fn lemma_no_clashes_with(a: Screen, rest: Seq<Screen>)
    ensures
        clashes(a, rest).len() == 0 <==> forall|j: int|
            0 <= j < rest.len() ==> !share_a_layer(a, #[trigger] rest[j]),
    decreases rest.len(),
{
    if rest.len() > 0 {
        let front = rest.drop_last();
        lemma_no_clashes_with(a, front);
        assert forall|j: int| 0 <= j < front.len() implies #[trigger] front[j] == rest[j] by {}
        if !(forall|j: int| 0 <= j < rest.len() ==> !share_a_layer(a, #[trigger] rest[j])) {
            let j = choose|j: int| 0 <= j < rest.len() && share_a_layer(a, #[trigger] rest[j]);
            if j < front.len() {
                assert(share_a_layer(a, front[j]));
            }
        }
    }
}

proof fn lemma_no_clashes_upto(s: Seq<Screen>, n: int)
    requires
        0 <= n <= s.len(),
    ensures
        clashes_upto(s, n).len() == 0 <==> forall|i: int, j: int|
            0 <= i < n && i < j < s.len() ==> !share_a_layer(#[trigger] s[i], #[trigger] s[j]),
    decreases n,
{
    if n > 0 {
        lemma_no_clashes_upto(s, n - 1);
        lemma_no_clashes_with(s[n - 1], s.skip(n));
        if !(forall|i: int, j: int|
            0 <= i < n && i < j < s.len() ==> !share_a_layer(#[trigger] s[i], #[trigger] s[j])) {
            let (i, j) = choose|i: int, j: int|
                0 <= i < n && i < j < s.len() && share_a_layer(#[trigger] s[i], #[trigger] s[j]);
            if i == n - 1 {
                assert(s.skip(n)[j - n] == s[j]);
            }
        }
        if clashes(s[n - 1], s.skip(n)).len() > 0 {
            let j = choose|j: int| 0 <= j < s.skip(n).len() && share_a_layer(s[n - 1], #[trigger] s.skip(n)[j]);
            assert(s.skip(n)[j] == s[j + n]);
        }
    }
}

proof fn lemma_no_pad_warnings(pads: Seq<crate::show::model::Pad>, cues: Seq<Cue>)
    ensures
        pad_warnings(pads, cues).len() == 0 <==> forall|i: int|
            0 <= i < pads.len() ==> first_cue(cues, #[trigger] pads[i].cue@) is Some,
    decreases pads.len(),
{
    if pads.len() > 0 {
        let front = pads.drop_last();
        lemma_no_pad_warnings(front, cues);
        assert forall|i: int| 0 <= i < front.len() implies #[trigger] front[i] == pads[i] by {}
        if !(forall|i: int| 0 <= i < pads.len() ==> first_cue(cues, #[trigger] pads[i].cue@) is Some) {
            let i = choose|i: int| 0 <= i < pads.len() && first_cue(cues, #[trigger] pads[i].cue@) is None;
            if i < front.len() {
                assert(first_cue(cues, front[i].cue@) is None);
            }
        }
    }
}

/// A show has nothing to warn about exactly when no two screens share a
/// channel and layer and every pad fires a cue the show has.
pub proof fn lemma_quiet_show(show: Show)
    ensures
        show_warnings(show).len() == 0 <==> (forall|i: int, j: int|
            0 <= i < j < show.screens@.len() ==> !share_a_layer(
                #[trigger] show.screens@[i],
                #[trigger] show.screens@[j],
            )) && (forall|k: int|
            0 <= k < show.pads@.len() ==> first_cue(show.cues@, #[trigger] show.pads@[k].cue@) is Some),
{
    lemma_no_clashes_upto(show.screens@, show.screens@.len() as int);
    lemma_no_pad_warnings(show.pads@, show.cues@);
}

// ----------------------------------------------------------------- the law

proof fn lemma_failure_sticks(screens: Seq<Screen>, actions: Seq<Action>, n: int)
    requires
        0 < n <= actions.len(),
        compiled_all(screens, actions.take(n - 1)) is Ok,
        compiled(screens, actions[n - 1]) is Err,
    ensures
        compiled_all(screens, actions.take(n)) == Err::<Seq<CommandView>, Seq<char>>(
            compiled(screens, actions[n - 1])->Err_0,
        ),
{
    assert(actions.take(n).drop_last() == actions.take(n - 1));
    assert(actions.take(n).last() == actions[n - 1]);
}

proof fn lemma_failed_prefix(screens: Seq<Screen>, actions: Seq<Action>, n: int)
    requires
        0 <= n <= actions.len(),
        compiled_all(screens, actions.take(n)) is Err,
    ensures
        compiled_all(screens, actions.take(actions.len() as int)) == compiled_all(
            screens,
            actions.take(n),
        ),
    decreases actions.len() - n,
{
    if n < actions.len() {
        assert(actions.take(n + 1).drop_last() == actions.take(n));
        lemma_failed_prefix(screens, actions, n + 1);
    }
}

/// A cue compiles all or nothing. It compiles exactly when every one of its
/// actions does, and then to their commands in order; otherwise it fails
/// naming the unknown screen of the first action that does not compile.
pub proof fn lemma_cue_is_all_or_nothing(screens: Seq<Screen>, actions: Seq<Action>)
    ensures
        compiled_all(screens, actions) is Ok <==> forall|i: int|
            0 <= i < actions.len() ==> #[trigger] compiled(screens, actions[i]) is Ok,
        forall|i: int|
            0 <= i < actions.len() && compiled(screens, actions[i]) is Err && (forall|j: int|
                0 <= j < i ==> #[trigger] compiled(screens, actions[j]) is Ok) ==> compiled_all(
                screens,
                actions,
            ) == Err::<Seq<CommandView>, Seq<char>>(
                #[trigger] compiled(screens, actions[i])->Err_0,
            ),
    decreases actions.len(),
{
    if actions.len() > 0 {
        let front = actions.drop_last();
        lemma_cue_is_all_or_nothing(screens, front);
        assert forall|i: int| 0 <= i < front.len() implies front[i] == actions[i] by {}
        assert(actions.last() == actions[actions.len() - 1]);
    }
}

/// What a compiled cue sends is each action's commands, one after another.
pub proof fn lemma_cue_concatenates(screens: Seq<Screen>, a: Seq<Action>, b: Seq<Action>)
    requires
        compiled_all(screens, a) is Ok,
        compiled_all(screens, b) is Ok,
    ensures
        compiled_all(screens, a + b) == Ok::<Seq<CommandView>, Seq<char>>(
            compiled_all(screens, a)->Ok_0 + compiled_all(screens, b)->Ok_0,
        ),
    decreases b.len(),
{
    if b.len() == 0 {
        assert(a + b == a);
        assert(compiled_all(screens, a)->Ok_0 + Seq::<CommandView>::empty() == compiled_all(
            screens,
            a,
        )->Ok_0);
    } else {
        let bf = b.drop_last();
        assert((a + b).drop_last() == a + bf);
        assert((a + b).last() == b.last());
        lemma_cue_concatenates(screens, a, bf);
        let x = compiled_all(screens, a)->Ok_0;
        let y = compiled_all(screens, bf)->Ok_0;
        let z = compiled(screens, b.last())->Ok_0;
        assert(x + y + z == x + (y + z));
    }
}


/// The command an action on a screen the show has compiles to, kind by kind:
/// exactly one command, on that screen's channel and layer. A fade sends
/// `MIXER OPACITY` (the picture) or `MIXER VOLUME` (the audio) with the value,
/// then the frame count and the tween unless the change is instant and
/// linear; transport actions send `PAUSE`, `RESUME`, `STOP`, `CLEAR`, or a
/// bare `PLAY` to take what was loaded; a clip is played with `PLAY` and
/// cued with `LOADBG`, the clip first and `LOOP` after it when it loops;
/// templates are added and stopped with `CG ADD` and `CG STOP` on their
/// CG layer.
pub proof fn lemma_action_sends_its_command(screens: Seq<Screen>, a: Action, s: Screen)
    requires
        action_screen(a) matches Some(id) && first_screen(screens, id) == Some(s),
    ensures
        a matches Action::Opacity { value, frames, tween, .. } ==> (compiled(screens, a) == Ok::<
                Seq<CommandView>,
                Seq<char>,
            >(
                seq![
                    CommandView {
                        name: seq!['M', 'I', 'X', 'E', 'R', ' ', 'O', 'P', 'A', 'C', 'I', 'T', 'Y'],
                        target: Target::Layer(s.channel, s.layer),
                        params: seq![value.text@] + if frames == 0 && tween is None {
                            Seq::<Seq<char>>::empty()
                        } else {
                            seq![decimal(frames as nat)] + match tween {
                                Some(t) => seq![t@],
                                None => Seq::<Seq<char>>::empty(),
                            }
                        },
                    },
                ],
            )),
        a matches Action::Volume { value, frames, tween, .. } ==> (compiled(screens, a) == Ok::<
                Seq<CommandView>,
                Seq<char>,
            >(
                seq![
                    CommandView {
                        name: seq!['M', 'I', 'X', 'E', 'R', ' ', 'V', 'O', 'L', 'U', 'M', 'E'],
                        target: Target::Layer(s.channel, s.layer),
                        params: seq![value.text@] + if frames == 0 && tween is None {
                            Seq::<Seq<char>>::empty()
                        } else {
                            seq![decimal(frames as nat)] + match tween {
                                Some(t) => seq![t@],
                                None => Seq::<Seq<char>>::empty(),
                            }
                        },
                    },
                ],
            )),
        a matches Action::Pause { .. } ==> (compiled(screens, a) == Ok::<Seq<CommandView>, Seq<char>>(
                seq![
                    CommandView {
                        name: seq!['P', 'A', 'U', 'S', 'E'],
                        target: Target::Layer(s.channel, s.layer),
                        params: Seq::empty(),
                    },
                ],
            )),
        a matches Action::Resume { .. } ==> (compiled(screens, a) == Ok::<Seq<CommandView>, Seq<char>>(
                seq![
                    CommandView {
                        name: seq!['R', 'E', 'S', 'U', 'M', 'E'],
                        target: Target::Layer(s.channel, s.layer),
                        params: Seq::empty(),
                    },
                ],
            )),
        a matches Action::Stop { .. } ==> (compiled(screens, a) == Ok::<Seq<CommandView>, Seq<char>>(
                seq![
                    CommandView {
                        name: seq!['S', 'T', 'O', 'P'],
                        target: Target::Layer(s.channel, s.layer),
                        params: Seq::empty(),
                    },
                ],
            )),
        a matches Action::Clear { .. } ==> (compiled(screens, a) == Ok::<Seq<CommandView>, Seq<char>>(
                seq![
                    CommandView {
                        name: seq!['C', 'L', 'E', 'A', 'R'],
                        target: Target::Layer(s.channel, s.layer),
                        params: Seq::empty(),
                    },
                ],
            )),
        a matches Action::Take { .. } ==> (compiled(screens, a) == Ok::<Seq<CommandView>, Seq<char>>(
                seq![
                    CommandView {
                        name: seq!['P', 'L', 'A', 'Y'],
                        target: Target::Layer(s.channel, s.layer),
                        params: Seq::empty(),
                    },
                ],
            )),
        a matches Action::Play { clip, looping, .. } ==> (compiled(screens, a) matches Ok(v) && v.len()
                == 1 && v[0].name == seq!['P', 'L', 'A', 'Y'] && v[0].target == Target::Layer(
                s.channel,
                s.layer,
            ) && v[0].params.len() >= 1 && v[0].params[0] == clip@ && (looping ==> v[0].params.len()
                >= 2 && v[0].params[1] == seq!['L', 'O', 'O', 'P'])),
        a matches Action::Load { clip, looping, .. } ==> (compiled(screens, a) matches Ok(v) && v.len()
                == 1 && v[0].name == seq!['L', 'O', 'A', 'D', 'B', 'G'] && v[0].target
                == Target::Layer(s.channel, s.layer) && v[0].params.len() >= 1 && v[0].params[0]
                == clip@ && (looping ==> v[0].params.len() >= 2 && v[0].params[1] == seq![
                'L',
                'O',
                'O',
                'P',
            ])),
        a matches Action::Template { template, cg_layer, .. } ==> (compiled(screens, a) matches Ok(v)
                && v.len() == 1 && v[0].name == seq!['C', 'G', ' ', 'A', 'D', 'D'] && v[0].target
                == Target::Layer(s.channel, s.layer) && v[0].params.len() >= 3 && v[0].params[0]
                == decimal(cg_layer as nat) && v[0].params[1] == template@),
        a matches Action::TemplateStop { cg_layer, .. } ==> (compiled(screens, a) == Ok::<
                Seq<CommandView>,
                Seq<char>,
            >(
                seq![
                    CommandView {
                        name: seq!['C', 'G', ' ', 'S', 'T', 'O', 'P'],
                        target: Target::Layer(s.channel, s.layer),
                        params: seq![decimal(cg_layer as nat)],
                    },
                ],
            )),
{
    reveal_strlit("MIXER OPACITY");
    reveal_strlit("MIXER VOLUME");
    reveal_strlit("PAUSE");
    reveal_strlit("RESUME");
    reveal_strlit("STOP");
    reveal_strlit("CLEAR");
    reveal_strlit("PLAY");
    reveal_strlit("LOADBG");
    reveal_strlit("CG ADD");
    reveal_strlit("CG STOP");
    assert("PAUSE"@ =~= seq!['P', 'A', 'U', 'S', 'E']);
    assert("RESUME"@ =~= seq!['R', 'E', 'S', 'U', 'M', 'E']);
    assert("STOP"@ =~= seq!['S', 'T', 'O', 'P']);
    assert("CLEAR"@ =~= seq!['C', 'L', 'E', 'A', 'R']);
    assert("PLAY"@ =~= seq!['P', 'L', 'A', 'Y']);
    assert("LOADBG"@ =~= seq!['L', 'O', 'A', 'D', 'B', 'G']);
    assert("CG ADD"@ =~= seq!['C', 'G', ' ', 'A', 'D', 'D']);
    assert("CG STOP"@ =~= seq!['C', 'G', ' ', 'S', 'T', 'O', 'P']);
    match a {
        Action::Play { clip, looping, transition, .. } => {
            let p = seq![clip@] + loop_param(looping) + spec_params(transition);
            assert(p[0] == clip@);
            if looping {
                assert(p[1] == seq!['L', 'O', 'O', 'P']);
            }
        },
        Action::Load { clip, looping, transition, .. } => {
            let p = seq![clip@] + loop_param(looping) + spec_params(transition);
            assert(p[0] == clip@);
            if looping {
                assert(p[1] == seq!['L', 'O', 'O', 'P']);
            }
        },
        Action::Template { template, cg_layer, data, .. } => {
            let p = seq![decimal(cg_layer as nat), template@, decimal(1)] + opt_text(data);
            assert(p[0] == decimal(cg_layer as nat));
            assert(p[1] == template@);
        },
        Action::Opacity { value, frames, tween, .. } => {
            assert("MIXER OPACITY"@ =~= seq!['M', 'I', 'X', 'E', 'R', ' ', 'O', 'P', 'A', 'C', 'I', 'T', 'Y']);
            assert(ramp(frames, tween) =~= if frames == 0 && tween is None {
                Seq::<Seq<char>>::empty()
            } else {
                seq![decimal(frames as nat)] + match tween {
                    Some(t) => seq![t@],
                    None => Seq::<Seq<char>>::empty(),
                }
            });
        },
        Action::Volume { value, frames, tween, .. } => {
            assert("MIXER VOLUME"@ =~= seq!['M', 'I', 'X', 'E', 'R', ' ', 'V', 'O', 'L', 'U', 'M', 'E']);
            assert(ramp(frames, tween) =~= if frames == 0 && tween is None {
                Seq::<Seq<char>>::empty()
            } else {
                seq![decimal(frames as nat)] + match tween {
                    Some(t) => seq![t@],
                    None => Seq::<Seq<char>>::empty(),
                }
            });
        },
        _ => {},
    }
}


/// What a screen's mapping sends, all on the screen's channel and layer:
/// first `MIXER FILL` with the rectangle's x, y, width and height; then, only
/// when the corners are not the identity, `MIXER PERSPECTIVE` with the four
/// corners clockwise from top-left; last `MIXER OPACITY` with the screen's
/// opacity, or `0` when the screen is disabled.
pub proof fn lemma_screen_mapping_commands(s: Screen)
    ensures
        screen_mapping(s).len() == if is_identity(s.corners) {
            2int
        } else {
            3int
        },
        screen_mapping(s)[0] == (CommandView {
            name: seq!['M', 'I', 'X', 'E', 'R', ' ', 'F', 'I', 'L', 'L'],
            target: Target::Layer(s.channel, s.layer),
            params: seq![s.rect.x.text@, s.rect.y.text@, s.rect.w.text@, s.rect.h.text@],
        }),
        screen_mapping(s).last() == (CommandView {
            name: seq!['M', 'I', 'X', 'E', 'R', ' ', 'O', 'P', 'A', 'C', 'I', 'T', 'Y'],
            target: Target::Layer(s.channel, s.layer),
            params: seq![
                if s.enabled {
                    s.opacity.text@
                } else {
                    seq!['0']
                },
            ],
        }),
        !is_identity(s.corners) ==> screen_mapping(s)[1] == (CommandView {
            name: seq![
                'M', 'I', 'X', 'E', 'R', ' ', 'P', 'E', 'R', 'S', 'P', 'E', 'C', 'T', 'I', 'V', 'E',
            ],
            target: Target::Layer(s.channel, s.layer),
            params: seq![
                s.corners@[0].0.text@, s.corners@[0].1.text@,
                s.corners@[1].0.text@, s.corners@[1].1.text@,
                s.corners@[2].0.text@, s.corners@[2].1.text@,
                s.corners@[3].0.text@, s.corners@[3].1.text@,
            ],
        }),
{
    reveal_strlit("MIXER FILL");
    reveal_strlit("MIXER OPACITY");
    reveal_strlit("MIXER PERSPECTIVE");
    reveal_strlit("0");
    assert("MIXER FILL"@ =~= seq!['M', 'I', 'X', 'E', 'R', ' ', 'F', 'I', 'L', 'L']);
    assert("MIXER OPACITY"@ =~= seq!['M', 'I', 'X', 'E', 'R', ' ', 'O', 'P', 'A', 'C', 'I', 'T', 'Y']);
    assert("MIXER PERSPECTIVE"@ =~= seq![
        'M', 'I', 'X', 'E', 'R', ' ', 'P', 'E', 'R', 'S', 'P', 'E', 'C', 'T', 'I', 'V', 'E',
    ]);
    assert("0"@ =~= seq!['0']);
}

} // verus!
