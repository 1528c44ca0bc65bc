//! What the console's requests turn into.
//!
//! The console is a mirror, not a second source of truth: everything it asks
//! for is a change to the show or a command to the server. This module decides
//! which command a request makes, or why it is refused, with the status code
//! the console is answered with and the server's own words where there are
//! any.

use vstd::prelude::*;

use crate::amcp::command::{Command, CommandView, Target};
use crate::amcp::commands::{
    cg_add, cg_invoke, cg_next, cg_stop, cg_update, cmd, mixer_anchor, mixer_blend,
    mixer_brightness, mixer_clear_layer, mixer_clip, mixer_contrast, mixer_crop, mixer_fill,
    mixer_invert, mixer_keyer, mixer_levels, mixer_opacity, mixer_perspective, mixer_rotation,
    mixer_saturation, mixer_volume, opt_text,
};
use crate::show::compile::{anim, ramp};
use crate::show::model::{first_screen, Action, Real, Screen, Show, TransitionSpec};
use crate::text::{decimal, lowercase, push_decimal, push_str, same_text, string_from, to_lower};

verus! {

broadcast use vstd::string::group_string_axioms;

/// A refused request: the HTTP status it is answered with, and why.
#[derive(Debug, Clone, PartialEq)]
pub struct ApiError {
    pub status: u16,
    pub message: String,
}

/// The refusal of a request for something the show does not have.
pub fn not_found(what: &str) -> (r: ApiError)
    ensures
        r.status == 404,
        r.message@ == "no such "@ + what@,
{
    let mut m = string_from("no such ");
    push_str(&mut m, what);
    ApiError { status: 404, message: m }
}

fn bad_request(message: String) -> (r: ApiError)
    ensures
        r.status == 400,
        r.message == message,
{
    ApiError { status: 400, message }
}

/// A refusal, or a command, as plain values.
pub open spec fn decided(r: Result<Command, ApiError>) -> Result<CommandView, (u16, Seq<char>)> {
    match r {
        Ok(c) => Ok(c@),
        Err(e) => Err((e.status, e.message@)),
    }
}

// ------------------------------------------------------------------ transport

/// A dissolve over `frames`, or none when there are none.
pub fn mix_of(frames: u32) -> (r: Option<TransitionSpec>)
    ensures
        frames == 0 ==> r is None,
        frames > 0 ==> (r matches Some(t) && t.kind@ == "mix"@ && t.frames == frames && t.tween
            is None && t.direction is None && t.sting is None),
{
    if frames > 0 {
        Some(
            TransitionSpec {
                kind: string_from("mix"),
                frames,
                tween: None,
                direction: None,
                sting: None,
            },
        )
    } else {
        None
    }
}

/// What to do to a screen's transport.
#[derive(Debug, Clone, PartialEq)]
pub enum TransportRequest {
    Play { clip: String, looping: bool, frames: u32 },
    Load { clip: String, looping: bool, frames: u32 },
    Take,
    Pause,
    Resume,
    Stop,
    Clear,
}

/// The action a transport request on screen `id` stands for. Playing or
/// loading with frames dissolves over them.
pub fn transport_action(id: &str, req: TransportRequest) -> (r: Action)
    ensures
        match (req, r) {
            (
                TransportRequest::Play { clip, looping, frames },
                Action::Play { screen, clip: c, looping: l, transition },
            ) => screen@ == id@ && c == clip && l == looping && match transition {
                Some(t) => frames > 0 && t.kind@ == "mix"@ && t.frames == frames && t.tween is None
                    && t.direction is None && t.sting is None,
                None => frames == 0,
            },
            (
                TransportRequest::Load { clip, looping, frames },
                Action::Load { screen, clip: c, looping: l, transition },
            ) => screen@ == id@ && c == clip && l == looping && match transition {
                Some(t) => frames > 0 && t.kind@ == "mix"@ && t.frames == frames && t.tween is None
                    && t.direction is None && t.sting is None,
                None => frames == 0,
            },
            (TransportRequest::Take, Action::Take { screen }) => screen@ == id@,
            (TransportRequest::Pause, Action::Pause { screen }) => screen@ == id@,
            (TransportRequest::Resume, Action::Resume { screen }) => screen@ == id@,
            (TransportRequest::Stop, Action::Stop { screen }) => screen@ == id@,
            (TransportRequest::Clear, Action::Clear { screen }) => screen@ == id@,
            _ => false,
        },
{
    let screen = string_from(id);
    match req {
        TransportRequest::Play { clip, looping, frames } => Action::Play {
            screen,
            clip,
            looping,
            transition: mix_of(frames),
        },
        TransportRequest::Load { clip, looping, frames } => Action::Load {
            screen,
            clip,
            looping,
            transition: mix_of(frames),
        },
        TransportRequest::Take => Action::Take { screen },
        TransportRequest::Pause => Action::Pause { screen },
        TransportRequest::Resume => Action::Resume { screen },
        TransportRequest::Stop => Action::Stop { screen },
        TransportRequest::Clear => Action::Clear { screen },
    }
}

// ---------------------------------------------------------------------- mixer

/// A mixer change on a screen's layer.
#[derive(Debug, Clone, PartialEq)]
pub struct MixerRequest {
    /// `opacity`, `volume`, `brightness`, `saturation`, `contrast`,
    /// `rotation`, `fill`, `clip`, `crop`, `anchor`, `levels`,
    /// `perspective`, `keyer`, `invert`, `blend` or `clear`, in any case.
    pub property: String,
    pub values: Vec<Real>,
    pub text: Option<String>,
    pub frames: u32,
    pub tween: Option<String>,
}

/// Why a mixer change has too few values.
pub open spec fn too_few(property: Seq<char>, need: nat, got: nat) -> Seq<char> {
    property + " needs "@ + decimal(need) + " values, got "@ + decimal(got)
}

/// The texts of the first `n` values.
pub open spec fn value_texts(values: Seq<Real>, n: int) -> Seq<Seq<char>> {
    values.take(n).map_values(|v: Real| v.text@)
}

/// A mixer command over the first `need` values of `req`, with its ramp; or
/// the refusal when there are fewer.
pub open spec fn with_values(
    name: Seq<char>,
    target: Target,
    req: MixerRequest,
    need: nat,
) -> Result<CommandView, (u16, Seq<char>)> {
    if req.values@.len() < need {
        Err((400u16, too_few(req.property@, need, req.values@.len())))
    } else {
        Ok(cmd(name, target, value_texts(req.values@, need as int) + ramp(req.frames, req.tween)))
    }
}

/// A switch is on when the first value is there and not zero.
pub open spec fn switch_on(values: Seq<Real>) -> bool {
    values.len() > 0 && !values[0].is_zero_spec()
}

/// What a mixer request on screen `id` does: the command for its property on
/// the screen's layer, or its refusal.
pub open spec fn mixer_outcome(screens: Seq<Screen>, id: Seq<char>, req: MixerRequest) -> Result<
    CommandView,
    (u16, Seq<char>),
> {
    match first_screen(screens, id) {
        None => Err((404u16, "no such screen"@)),
        Some(s) => {
            let t = Target::Layer(s.channel, s.layer);
            let p = lowercase(req.property@);
            if p == "opacity"@ {
                with_values("MIXER OPACITY"@, t, req, 1)
            } else if p == "volume"@ {
                with_values("MIXER VOLUME"@, t, req, 1)
            } else if p == "brightness"@ {
                with_values("MIXER BRIGHTNESS"@, t, req, 1)
            } else if p == "saturation"@ {
                with_values("MIXER SATURATION"@, t, req, 1)
            } else if p == "contrast"@ {
                with_values("MIXER CONTRAST"@, t, req, 1)
            } else if p == "rotation"@ {
                with_values("MIXER ROTATION"@, t, req, 1)
            } else if p == "fill"@ {
                with_values("MIXER FILL"@, t, req, 4)
            } else if p == "clip"@ {
                with_values("MIXER CLIP"@, t, req, 4)
            } else if p == "crop"@ {
                with_values("MIXER CROP"@, t, req, 4)
            } else if p == "anchor"@ {
                with_values("MIXER ANCHOR"@, t, req, 2)
            } else if p == "levels"@ {
                with_values("MIXER LEVELS"@, t, req, 5)
            } else if p == "perspective"@ {
                with_values("MIXER PERSPECTIVE"@, t, req, 8)
            } else if p == "keyer"@ {
                Ok(
                    cmd(
                        "MIXER KEYER"@,
                        t,
                        seq![decimal(if switch_on(req.values@) { 1nat } else { 0nat })],
                    ),
                )
            } else if p == "invert"@ {
                Ok(
                    cmd(
                        "MIXER INVERT"@,
                        t,
                        seq![decimal(if switch_on(req.values@) { 1nat } else { 0nat })],
                    ),
                )
            } else if p == "blend"@ {
                match req.text {
                    Some(mode) => Ok(cmd("MIXER BLEND"@, t, seq![mode@])),
                    None => Err((400u16, "blend needs a mode in `text`"@)),
                }
            } else if p == "clear"@ {
                Ok(cmd("MIXER CLEAR"@, t, Seq::empty()))
            } else {
                Err((400u16, "unknown mixer property '"@ + p + "'"@))
            }
        },
    }
}

fn too_few_values(property: &str, need: u64, got: usize) -> (r: ApiError)
    ensures
        r.status == 400,
        r.message@ == too_few(property@, need as nat, got as nat),
{
    let mut m = string_from(property);
    push_str(&mut m, " needs ");
    push_decimal(&mut m, need);
    push_str(&mut m, " values, got ");
    push_decimal(&mut m, got as u64);
    bad_request(m)
}

impl Show {
    /// The command a mixer request on screen `id` sends, or why it is
    /// refused.
    pub fn mixer_command(&self, id: &str, req: &MixerRequest) -> (r: Result<Command, ApiError>)
        ensures
            decided(r) == mixer_outcome(self.screens@, id@, *req),
    {
        let (ch, ly) = match self.screen(id) {
            Some(s) => (s.channel, s.layer),
            None => {
                proof {
                    reveal_strlit("no such ");
                    reveal_strlit("screen");
                    reveal_strlit("no such screen");
                }
                let e = not_found("screen");
                assert(e.message@ == "no such screen"@);
                return Err(e);
            },
        };
        let a = anim(req.frames, &req.tween);
        let vals = &req.values;
        let n = vals.len();
        let lower = to_lower(req.property.as_str());
        let p = lower.as_str();
        let ghost t = Target::Layer(ch, ly);
        let ghost tail = ramp(req.frames, req.tween);
        let need: u64 = if same_text(p, "opacity") || same_text(p, "volume") || same_text(
            p,
            "brightness",
        ) || same_text(p, "saturation") || same_text(p, "contrast") || same_text(p, "rotation") {
            1
        } else if same_text(p, "fill") || same_text(p, "clip") || same_text(p, "crop") {
            4
        } else if same_text(p, "anchor") {
            2
        } else if same_text(p, "levels") {
            5
        } else if same_text(p, "perspective") {
            8
        } else {
            0
        };
        if (n as u64) < need {
            return Err(too_few_values(req.property.as_str(), need, n));
        }
        let c = if same_text(p, "opacity") {
            let c = mixer_opacity(ch, ly, vals[0].text.as_str(), &a);
            assert(c@.params =~= value_texts(vals@, 1) + tail);
            c
        } else if same_text(p, "volume") {
            let c = mixer_volume(ch, ly, vals[0].text.as_str(), &a);
            assert(c@.params =~= value_texts(vals@, 1) + tail);
            c
        } else if same_text(p, "brightness") {
            let c = mixer_brightness(ch, ly, vals[0].text.as_str(), &a);
            assert(c@.params =~= value_texts(vals@, 1) + tail);
            c
        } else if same_text(p, "saturation") {
            let c = mixer_saturation(ch, ly, vals[0].text.as_str(), &a);
            assert(c@.params =~= value_texts(vals@, 1) + tail);
            c
        } else if same_text(p, "contrast") {
            let c = mixer_contrast(ch, ly, vals[0].text.as_str(), &a);
            assert(c@.params =~= value_texts(vals@, 1) + tail);
            c
        } else if same_text(p, "rotation") {
            let c = mixer_rotation(ch, ly, vals[0].text.as_str(), &a);
            assert(c@.params =~= value_texts(vals@, 1) + tail);
            c
        } else if same_text(p, "fill") {
            let c = mixer_fill(
                ch,
                ly,
                vals[0].text.as_str(),
                vals[1].text.as_str(),
                vals[2].text.as_str(),
                vals[3].text.as_str(),
                &a,
            );
            assert(c@.params =~= value_texts(vals@, 4) + tail);
            c
        } else if same_text(p, "clip") {
            let c = mixer_clip(
                ch,
                ly,
                vals[0].text.as_str(),
                vals[1].text.as_str(),
                vals[2].text.as_str(),
                vals[3].text.as_str(),
                &a,
            );
            assert(c@.params =~= value_texts(vals@, 4) + tail);
            c
        } else if same_text(p, "crop") {
            let c = mixer_crop(
                ch,
                ly,
                vals[0].text.as_str(),
                vals[1].text.as_str(),
                vals[2].text.as_str(),
                vals[3].text.as_str(),
                &a,
            );
            assert(c@.params =~= value_texts(vals@, 4) + tail);
            c
        } else if same_text(p, "anchor") {
            let c = mixer_anchor(ch, ly, vals[0].text.as_str(), vals[1].text.as_str(), &a);
            assert(c@.params =~= value_texts(vals@, 2) + tail);
            c
        } else if same_text(p, "levels") {
            let c = mixer_levels(
                ch,
                ly,
                vals[0].text.as_str(),
                vals[1].text.as_str(),
                vals[2].text.as_str(),
                vals[3].text.as_str(),
                vals[4].text.as_str(),
                &a,
            );
            assert(c@.params =~= value_texts(vals@, 5) + tail);
            c
        } else if same_text(p, "perspective") {
            let corners: [(&str, &str); 4] = [
                (vals[0].text.as_str(), vals[1].text.as_str()),
                (vals[2].text.as_str(), vals[3].text.as_str()),
                (vals[4].text.as_str(), vals[5].text.as_str()),
                (vals[6].text.as_str(), vals[7].text.as_str()),
            ];
            let c = mixer_perspective(ch, ly, &corners, &a);
            assert(c@.params =~= value_texts(vals@, 8) + tail);
            c
        } else if same_text(p, "keyer") {
            mixer_keyer(ch, ly, n > 0 && !vals[0].is_zero())
        } else if same_text(p, "invert") {
            mixer_invert(ch, ly, n > 0 && !vals[0].is_zero())
        } else if same_text(p, "blend") {
            match &req.text {
                Some(mode) => mixer_blend(ch, ly, mode.as_str()),
                None => {
                    return Err(bad_request(string_from("blend needs a mode in `text`")));
                },
            }
        } else if same_text(p, "clear") {
            mixer_clear_layer(ch, ly)
        } else {
            let mut m = string_from("unknown mixer property '");
            push_str(&mut m, p);
            push_str(&mut m, "'");
            return Err(bad_request(m));
        };
        Ok(c)
    }
}

// ------------------------------------------------------------------- template

/// A template change on a screen's layer.
#[derive(Debug, Clone, PartialEq)]
pub struct TemplateRequest {
    pub template: String,
    pub cg_layer: u32,
    pub data: Option<String>,
    /// `add` (load and play), `update`, `stop`, `next` or `invoke`.
    pub action: String,
    /// The method an `invoke` calls.
    pub method: Option<String>,
}

/// What a template request on screen `id` does.
pub open spec fn template_outcome(screens: Seq<Screen>, id: Seq<char>, req: TemplateRequest) -> Result<
    CommandView,
    (u16, Seq<char>),
> {
    match first_screen(screens, id) {
        None => Err((404u16, "no such screen"@)),
        Some(s) => {
            let t = Target::Layer(s.channel, s.layer);
            let a = req.action@;
            let layer = decimal(req.cg_layer as nat);
            if a == "add"@ {
                Ok(cmd("CG ADD"@, t, seq![layer, req.template@, decimal(1)] + opt_text(req.data)))
            } else if a == "update"@ {
                Ok(
                    cmd(
                        "CG UPDATE"@,
                        t,
                        seq![
                            layer,
                            match req.data {
                                Some(d) => d@,
                                None => "{}"@,
                            },
                        ],
                    ),
                )
            } else if a == "stop"@ {
                Ok(cmd("CG STOP"@, t, seq![layer]))
            } else if a == "next"@ {
                Ok(cmd("CG NEXT"@, t, seq![layer]))
            } else if a == "invoke"@ {
                Ok(
                    cmd(
                        "CG INVOKE"@,
                        t,
                        seq![
                            layer,
                            match req.method {
                                Some(m) => m@,
                                None => Seq::empty(),
                            },
                        ],
                    ),
                )
            } else {
                Err((400u16, "unknown template action '"@ + a + "'"@))
            }
        },
    }
}

impl Show {
    /// The command a template request on screen `id` sends, or why it is
    /// refused.
    pub fn template_command(&self, id: &str, req: &TemplateRequest) -> (r: Result<Command, ApiError>)
        ensures
            decided(r) == template_outcome(self.screens@, id@, *req),
    {
        let (ch, ly) = match self.screen(id) {
            Some(s) => (s.channel, s.layer),
            None => {
                proof {
                    reveal_strlit("no such ");
                    reveal_strlit("screen");
                    reveal_strlit("no such screen");
                }
                let e = not_found("screen");
                assert(e.message@ == "no such screen"@);
                return Err(e);
            },
        };
        let a = req.action.as_str();
        let c = if same_text(a, "add") {
            let c = match &req.data {
                Some(d) => cg_add(ch, ly, req.cg_layer, req.template.as_str(), true, Some(d.as_str())),
                None => cg_add(ch, ly, req.cg_layer, req.template.as_str(), true, None),
            };
            assert(c@.params =~= seq![decimal(req.cg_layer as nat), req.template@, decimal(1)]
                + opt_text(req.data));
            c
        } else if same_text(a, "update") {
            let c = match &req.data {
                Some(d) => cg_update(ch, ly, req.cg_layer, d.as_str()),
                None => cg_update(ch, ly, req.cg_layer, "{}"),
            };
            assert(c@.params =~= seq![
                decimal(req.cg_layer as nat),
                match req.data {
                    Some(d) => d@,
                    None => "{}"@,
                },
            ]);
            c
        } else if same_text(a, "stop") {
            cg_stop(ch, ly, req.cg_layer)
        } else if same_text(a, "next") {
            cg_next(ch, ly, req.cg_layer)
        } else if same_text(a, "invoke") {
            let c = match &req.method {
                Some(m) => cg_invoke(ch, ly, req.cg_layer, m.as_str()),
                None => {
                    let e = String::new();
                    cg_invoke(ch, ly, req.cg_layer, e.as_str())
                },
            };
            assert(c@.params =~= seq![
                decimal(req.cg_layer as nat),
                match req.method {
                    Some(m) => m@,
                    None => Seq::<char>::empty(),
                },
            ]);
            c
        } else {
            let mut m = string_from("unknown template action '");
            push_str(&mut m, a);
            push_str(&mut m, "'");
            return Err(bad_request(m));
        };
        Ok(c)
    }
}


/// What a mixer request on a screen the show has sends, property by property
/// (in any case): `opacity`, `volume`, `brightness`, `saturation`,
/// `contrast` and `rotation` take one value, `anchor` two, `fill`, `clip`
/// and `crop` four, `levels` five and `perspective` eight. With that many
/// values or more, the request sends the matching `MIXER` command on the
/// screen's channel and layer with those first values, then the ramp; with
/// fewer, it is refused with a 400 that says how many it needs and got.
pub proof fn lemma_mixer_property_command(
    screens: Seq<Screen>,
    id: Seq<char>,
    req: MixerRequest,
    s: Screen,
    word: Seq<char>,
    name: Seq<char>,
    need: nat,
)
    requires
        first_screen(screens, id) == Some(s),
        lowercase(req.property@) == word,
        (word == "opacity"@ && name == "MIXER OPACITY"@ && need == 1)
            || (word == "volume"@ && name == "MIXER VOLUME"@ && need == 1)
            || (word == "brightness"@ && name == "MIXER BRIGHTNESS"@ && need == 1)
            || (word == "saturation"@ && name == "MIXER SATURATION"@ && need == 1)
            || (word == "contrast"@ && name == "MIXER CONTRAST"@ && need == 1)
            || (word == "rotation"@ && name == "MIXER ROTATION"@ && need == 1)
            || (word == "fill"@ && name == "MIXER FILL"@ && need == 4)
            || (word == "clip"@ && name == "MIXER CLIP"@ && need == 4)
            || (word == "crop"@ && name == "MIXER CROP"@ && need == 4)
            || (word == "anchor"@ && name == "MIXER ANCHOR"@ && need == 2)
            || (word == "levels"@ && name == "MIXER LEVELS"@ && need == 5)
            || (word == "perspective"@ && name == "MIXER PERSPECTIVE"@ && need == 8),
    ensures
        req.values@.len() >= need ==> mixer_outcome(screens, id, req) == Ok::<
            CommandView,
            (u16, Seq<char>),
        >(
            CommandView {
                name,
                target: Target::Layer(s.channel, s.layer),
                params: req.values@.take(need as int).map_values(|v: Real| v.text@) + ramp(
                    req.frames,
                    req.tween,
                ),
            },
        ),
        req.values@.len() < need ==> mixer_outcome(screens, id, req) == Err::<
            CommandView,
            (u16, Seq<char>),
        >((400u16, too_few(req.property@, need, req.values@.len()))),
{
    reveal_strlit("opacity");
    reveal_strlit("volume");
    reveal_strlit("brightness");
    reveal_strlit("saturation");
    reveal_strlit("contrast");
    reveal_strlit("rotation");
    reveal_strlit("fill");
    reveal_strlit("clip");
    reveal_strlit("crop");
    reveal_strlit("anchor");
    reveal_strlit("levels");
    reveal_strlit("perspective");
    reveal_strlit("keyer");
    reveal_strlit("invert");
    reveal_strlit("blend");
    reveal_strlit("clear");
    if word == "opacity"@ {
    }
    if word == "volume"@ {
        assert("volume"@.len() != "opacity"@.len());
    }
    if word == "brightness"@ {
        assert("brightness"@.len() != "opacity"@.len());
        assert("brightness"@.len() != "volume"@.len());
    }
    if word == "saturation"@ {
        assert("saturation"@.len() != "opacity"@.len());
        assert("saturation"@.len() != "volume"@.len());
        assert("saturation"@[0] != "brightness"@[0]);
    }
    if word == "contrast"@ {
        assert("contrast"@.len() != "opacity"@.len());
        assert("contrast"@.len() != "volume"@.len());
        assert("contrast"@.len() != "brightness"@.len());
        assert("contrast"@.len() != "saturation"@.len());
    }
    if word == "rotation"@ {
        assert("rotation"@.len() != "opacity"@.len());
        assert("rotation"@.len() != "volume"@.len());
        assert("rotation"@.len() != "brightness"@.len());
        assert("rotation"@.len() != "saturation"@.len());
        assert("rotation"@[0] != "contrast"@[0]);
    }
    if word == "fill"@ {
        assert("fill"@.len() != "opacity"@.len());
        assert("fill"@.len() != "volume"@.len());
        assert("fill"@.len() != "brightness"@.len());
        assert("fill"@.len() != "saturation"@.len());
        assert("fill"@.len() != "contrast"@.len());
        assert("fill"@.len() != "rotation"@.len());
    }
    if word == "clip"@ {
        assert("clip"@.len() != "opacity"@.len());
        assert("clip"@.len() != "volume"@.len());
        assert("clip"@.len() != "brightness"@.len());
        assert("clip"@.len() != "saturation"@.len());
        assert("clip"@.len() != "contrast"@.len());
        assert("clip"@.len() != "rotation"@.len());
        assert("clip"@[0] != "fill"@[0]);
    }
    if word == "crop"@ {
        assert("crop"@.len() != "opacity"@.len());
        assert("crop"@.len() != "volume"@.len());
        assert("crop"@.len() != "brightness"@.len());
        assert("crop"@.len() != "saturation"@.len());
        assert("crop"@.len() != "contrast"@.len());
        assert("crop"@.len() != "rotation"@.len());
        assert("crop"@[0] != "fill"@[0]);
        assert("crop"@[1] != "clip"@[1]);
    }
    if word == "anchor"@ {
        assert("anchor"@.len() != "opacity"@.len());
        assert("anchor"@[0] != "volume"@[0]);
        assert("anchor"@.len() != "brightness"@.len());
        assert("anchor"@.len() != "saturation"@.len());
        assert("anchor"@.len() != "contrast"@.len());
        assert("anchor"@.len() != "rotation"@.len());
        assert("anchor"@.len() != "fill"@.len());
        assert("anchor"@.len() != "clip"@.len());
        assert("anchor"@.len() != "crop"@.len());
    }
    if word == "levels"@ {
        assert("levels"@.len() != "opacity"@.len());
        assert("levels"@[0] != "volume"@[0]);
        assert("levels"@.len() != "brightness"@.len());
        assert("levels"@.len() != "saturation"@.len());
        assert("levels"@.len() != "contrast"@.len());
        assert("levels"@.len() != "rotation"@.len());
        assert("levels"@.len() != "fill"@.len());
        assert("levels"@.len() != "clip"@.len());
        assert("levels"@.len() != "crop"@.len());
        assert("levels"@[0] != "anchor"@[0]);
    }
    if word == "perspective"@ {
        assert("perspective"@.len() != "opacity"@.len());
        assert("perspective"@.len() != "volume"@.len());
        assert("perspective"@.len() != "brightness"@.len());
        assert("perspective"@.len() != "saturation"@.len());
        assert("perspective"@.len() != "contrast"@.len());
        assert("perspective"@.len() != "rotation"@.len());
        assert("perspective"@.len() != "fill"@.len());
        assert("perspective"@.len() != "clip"@.len());
        assert("perspective"@.len() != "crop"@.len());
        assert("perspective"@.len() != "anchor"@.len());
        assert("perspective"@.len() != "levels"@.len());
    }
}

} // verus!
