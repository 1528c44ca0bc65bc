//! The show model: screens placed on a canvas, and cues that change several
//! of them at once.
//!
//! Caspar itself knows about channels and layers. A show needs *screens* — a
//! channel/layer pair with a rectangle on the show canvas and four corners —
//! and *cues*, lists of actions fired as one batch so every screen changes on
//! the same frame. Nothing here holds live state: the show is the intent, and
//! the live state comes back from the server.

use vstd::prelude::*;

use crate::text::string_from;

verus! {

broadcast use vstd::string::group_string_axioms;

// ---------------------------------------------------------------------- reals

/// A real number as the show holds it: its IEEE 754 bits, and the decimal
/// text it is written as — which is what goes on the wire.
#[derive(Debug, Clone, PartialEq)]
pub struct Real {
    pub bits: u64,
    pub text: String,
}

/// The bits of `1.0`.
pub const ONE_BITS: u64 = 0x3FF0_0000_0000_0000;

impl Real {
    /// Compares equal to `0.0`: either zero, of either sign.
    pub open spec fn is_zero_spec(&self) -> bool {
        self.bits & 0x7FFF_FFFF_FFFF_FFFF == 0
    }

    /// Compares equal to `1.0`.
    pub open spec fn is_one_spec(&self) -> bool {
        self.bits == ONE_BITS
    }

    /// A real from its bits and its decimal text.
    pub fn new(bits: u64, text: &str) -> (r: Real)
        ensures
            r.bits == bits,
            r.text@ == text@,
    {
        Real { bits, text: string_from(text) }
    }

    /// `0`.
    pub fn zero() -> (r: Real)
        ensures
            r.bits == 0,
            r.text@ == "0"@,
            r.is_zero_spec(),
    {
        assert(0u64 & 0x7FFF_FFFF_FFFF_FFFF == 0) by (bit_vector);
        Real::new(0, "0")
    }

    /// `1`.
    pub fn one() -> (r: Real)
        ensures
            r.bits == ONE_BITS,
            r.text@ == "1"@,
            r.is_one_spec(),
    {
        Real::new(ONE_BITS, "1")
    }

    /// Whether this compares equal to `0.0`.
    #[verifier::when_used_as_spec(is_zero_spec)]
    pub fn is_zero(&self) -> (r: bool)
        ensures
            r == self.is_zero_spec(),
    {
        self.bits & 0x7FFF_FFFF_FFFF_FFFF == 0
    }

    /// Whether this compares equal to `1.0`.
    #[verifier::when_used_as_spec(is_one_spec)]
    pub fn is_one(&self) -> (r: bool)
        ensures
            r == self.is_one_spec(),
    {
        self.bits == ONE_BITS
    }
}

// ------------------------------------------------------------------- geometry

/// A rectangle in normalised canvas units, where 1 is the canvas width or
/// height.
#[derive(Debug, Clone, PartialEq)]
pub struct Rect {
    pub x: Real,
    pub y: Real,
    pub w: Real,
    pub h: Real,
}

impl Default for Rect {
    /// The whole canvas.
    fn default() -> (r: Rect)
        ensures
            r.x.bits == 0 && r.x.text@ == "0"@,
            r.y.bits == 0 && r.y.text@ == "0"@,
            r.w.bits == ONE_BITS && r.w.text@ == "1"@,
            r.h.bits == ONE_BITS && r.h.text@ == "1"@,
    {
        Rect { x: Real::zero(), y: Real::zero(), w: Real::one(), h: Real::one() }
    }
}

/// The show canvas. Pixel dimensions are carried so the console can show
/// "3840×1080" rather than unitless numbers; the mapping stays normalised.
#[derive(Debug, Clone, Copy, PartialEq, Eq, Structural)]
pub struct Canvas {
    pub width: u32,
    pub height: u32,
}

impl Default for Canvas {
    /// A 1920×1080 canvas.
    fn default() -> (r: Canvas)
        ensures
            r == (Canvas { width: 1920, height: 1080 }),
    {
        Canvas { width: 1920, height: 1080 }
    }
}

/// Whether a corner-pin is the identity quad: `(0,0) (1,0) (1,1) (0,1)`,
/// clockwise from top-left.
pub open spec fn is_identity(c: [(Real, Real); 4]) -> bool {
    &&& c@[0].0.is_zero_spec() && c@[0].1.is_zero_spec()
    &&& c@[1].0.is_one_spec() && c@[1].1.is_zero_spec()
    &&& c@[2].0.is_one_spec() && c@[2].1.is_one_spec()
    &&& c@[3].0.is_zero_spec() && c@[3].1.is_one_spec()
}

/// The identity corner-pin, which leaves a layer undistorted.
pub fn identity_corners() -> (r: [(Real, Real); 4])
    ensures
        is_identity(r),
        r@[0].0.text@ == "0"@ && r@[0].1.text@ == "0"@,
        r@[1].0.text@ == "1"@ && r@[1].1.text@ == "0"@,
        r@[2].0.text@ == "1"@ && r@[2].1.text@ == "1"@,
        r@[3].0.text@ == "0"@ && r@[3].1.text@ == "1"@,
{
    [
        (Real::zero(), Real::zero()),
        (Real::one(), Real::zero()),
        (Real::one(), Real::one()),
        (Real::zero(), Real::one()),
    ]
}

/// One output: a Caspar layer, where it sits on the canvas, and its keystone.
#[derive(Debug, PartialEq)]
pub struct Screen {
    pub id: String,
    pub name: String,
    pub channel: u32,
    pub layer: u32,
    /// Where this screen draws on the canvas.
    pub rect: Rect,
    /// Corner-pin, clockwise from top-left, in the layer's own space.
    pub corners: [(Real, Real); 4],
    pub enabled: bool,
    pub opacity: Real,
}

impl Clone for Screen {
    fn clone(&self) -> (r: Screen) {
        Screen {
            id: self.id.clone(),
            name: self.name.clone(),
            channel: self.channel,
            layer: self.layer,
            rect: self.rect.clone(),
            corners: [
                (self.corners[0].0.clone(), self.corners[0].1.clone()),
                (self.corners[1].0.clone(), self.corners[1].1.clone()),
                (self.corners[2].0.clone(), self.corners[2].1.clone()),
                (self.corners[3].0.clone(), self.corners[3].1.clone()),
            ],
            enabled: self.enabled,
            opacity: self.opacity.clone(),
        }
    }
}

// -------------------------------------------------------------------- actions

/// How a cue action's transition is described in the show file.
#[derive(Debug, Clone, PartialEq)]
pub struct TransitionSpec {
    /// `cut`, `mix`, `push`, `slide`, `wipe` or `sting`, in any case.
    pub kind: String,
    pub frames: u32,
    pub tween: Option<String>,
    /// `left` or `right`.
    pub direction: Option<String>,
    pub sting: Option<String>,
}

/// One thing a cue does.
#[derive(Debug, Clone, PartialEq)]
pub enum Action {
    /// Play a clip on a screen.
    Play { screen: String, clip: String, looping: bool, transition: Option<TransitionSpec> },
    /// Cue a clip into the background without showing it, ready for a later
    /// `Take`: a clean, pre-rolled change.
    Load { screen: String, clip: String, looping: bool, transition: Option<TransitionSpec> },
    /// Promote whatever `Load` cued into the foreground.
    Take { screen: String },
    Pause { screen: String },
    Resume { screen: String },
    Stop { screen: String },
    Clear { screen: String },
    /// Fade a screen's opacity over a number of frames.
    Opacity { screen: String, value: Real, frames: u32, tween: Option<String> },
    /// Fade a screen's audio.
    Volume { screen: String, value: Real, frames: u32, tween: Option<String> },
    /// Re-send a screen's mapping — to snap a screen back after a manual
    /// nudge, or to apply a saved look.
    Remap { screen: String },
    /// Show a template on a screen's layer.
    Template { screen: String, template: String, cg_layer: u32, data: Option<String> },
    /// Stop a template.
    TemplateStop { screen: String, cg_layer: u32 },
    /// Any AMCP command, verbatim: the escape hatch for what the model lacks.
    Raw { command: String },
}

/// The screen an action needs resolved, if any.
pub open spec fn action_screen(a: Action) -> Option<Seq<char>> {
    match a {
        Action::Play { screen, .. } => Some(screen@),
        Action::Load { screen, .. } => Some(screen@),
        Action::Take { screen } => Some(screen@),
        Action::Pause { screen } => Some(screen@),
        Action::Resume { screen } => Some(screen@),
        Action::Stop { screen } => Some(screen@),
        Action::Clear { screen } => Some(screen@),
        Action::Opacity { screen, .. } => Some(screen@),
        Action::Volume { screen, .. } => Some(screen@),
        Action::Remap { screen } => Some(screen@),
        Action::Template { screen, .. } => Some(screen@),
        Action::TemplateStop { screen, .. } => Some(screen@),
        Action::Raw { .. } => None,
    }
}

impl Action {
    /// Which screen this action needs resolved, if any.
    pub fn screen_id(&self) -> (r: Option<&str>)
        ensures
            match r {
                Some(s) => action_screen(*self) == Some(s@),
                None => action_screen(*self) is None,
            },
    {
        match self {
            Action::Play { screen, .. } => Some(screen.as_str()),
            Action::Load { screen, .. } => Some(screen.as_str()),
            Action::Take { screen } => Some(screen.as_str()),
            Action::Pause { screen } => Some(screen.as_str()),
            Action::Resume { screen } => Some(screen.as_str()),
            Action::Stop { screen } => Some(screen.as_str()),
            Action::Clear { screen } => Some(screen.as_str()),
            Action::Opacity { screen, .. } => Some(screen.as_str()),
            Action::Volume { screen, .. } => Some(screen.as_str()),
            Action::Remap { screen } => Some(screen.as_str()),
            Action::Template { screen, .. } => Some(screen.as_str()),
            Action::TemplateStop { screen, .. } => Some(screen.as_str()),
            Action::Raw { .. } => None,
        }
    }
}

/// A cue: a named set of actions fired together.
#[derive(Debug, Clone, PartialEq)]
pub struct Cue {
    pub id: String,
    pub name: String,
    pub actions: Vec<Action>,
    /// Seconds after this cue fires before the next one auto-follows.
    pub follow: Option<Real>,
    /// Colour tag for the cue list and the trigger grid.
    pub colour: Option<String>,
}

/// A pad on the trigger grid.
#[derive(Debug, Clone, PartialEq)]
pub struct Pad {
    /// Position in the grid, row-major from 0.
    pub index: u32,
    /// The cue this pad fires.
    pub cue: String,
}

/// The whole show.
#[derive(Debug, PartialEq)]
pub struct Show {
    pub name: String,
    pub canvas: Canvas,
    pub screens: Vec<Screen>,
    pub cues: Vec<Cue>,
    pub pads: Vec<Pad>,
    /// Grid dimensions for the trigger page: columns, rows.
    pub grid: (u32, u32),
}

impl Default for Show {
    /// An empty show called "Untitled show" on the default canvas, with an
    /// 8×4 trigger grid.
    fn default() -> (r: Show)
        ensures
            r.name@ == "Untitled show"@,
            r.canvas == (Canvas { width: 1920, height: 1080 }),
            r.screens@.len() == 0,
            r.cues@.len() == 0,
            r.pads@.len() == 0,
            r.grid == (8u32, 4u32),
    {
        Show {
            name: string_from("Untitled show"),
            canvas: Canvas::default(),
            screens: Vec::new(),
            cues: Vec::new(),
            pads: Vec::new(),
            grid: (8, 4),
        }
    }
}

impl Clone for Show {
    fn clone(&self) -> (r: Show) {
        Show {
            name: self.name.clone(),
            canvas: self.canvas,
            screens: self.screens.clone(),
            cues: self.cues.clone(),
            pads: self.pads.clone(),
            grid: (self.grid.0, self.grid.1),
        }
    }
}

/// A cue referred to a screen, or a cue, that the show does not have.
#[derive(Debug, Clone, PartialEq)]
pub struct UnknownScreen(pub String);

impl UnknownScreen {
    /// The message the operator sees.
    pub fn message(&self) -> (r: String)
        ensures
            r@ == "action refers to unknown screen '"@ + self.0@ + "'"@,
    {
        let mut out = string_from("action refers to unknown screen '");
        crate::text::push_str(&mut out, self.0.as_str());
        crate::text::push_str(&mut out, "'");
        out
    }
}

// -------------------------------------------------------------------- lookups

/// The first screen in `s` with the given id.
pub open spec fn first_screen(s: Seq<Screen>, id: Seq<char>) -> Option<Screen>
    decreases s.len(),
{
    if s.len() == 0 {
        None
    } else if s[0].id@ == id {
        Some(s[0])
    } else {
        first_screen(s.drop_first(), id)
    }
}

/// The first cue in `s` with the given id.
pub open spec fn first_cue(s: Seq<Cue>, id: Seq<char>) -> Option<Cue>
    decreases s.len(),
{
    if s.len() == 0 {
        None
    } else if s[0].id@ == id {
        Some(s[0])
    } else {
        first_cue(s.drop_first(), id)
    }
}

impl Show {
    /// Find a screen by id.
    pub fn screen(&self, id: &str) -> (r: Option<&Screen>)
        ensures
            match r {
                Some(s) => first_screen(self.screens@, id@) == Some(*s),
                None => first_screen(self.screens@, id@) is None,
            },
    {
        let mut i: usize = 0;
        assert(self.screens@.skip(0) == self.screens@);
        while i < self.screens.len()
            invariant
                i <= self.screens@.len(),
                first_screen(self.screens@, id@) == first_screen(self.screens@.skip(i as int), id@),
            decreases self.screens@.len() - i,
        {
            assert(self.screens@.skip(i as int)[0] == self.screens@[i as int]);
            if crate::text::same_text(self.screens[i].id.as_str(), id) {
                return Some(&self.screens[i]);
            }
            assert(self.screens@.skip(i as int).drop_first() == self.screens@.skip(i + 1));
            i = i + 1;
        }
        None
    }

    /// Find a cue by id.
    pub fn cue(&self, id: &str) -> (r: Option<&Cue>)
        ensures
            match r {
                Some(c) => first_cue(self.cues@, id@) == Some(*c),
                None => first_cue(self.cues@, id@) is None,
            },
    {
        let mut i: usize = 0;
        assert(self.cues@.skip(0) == self.cues@);
        while i < self.cues.len()
            invariant
                i <= self.cues@.len(),
                first_cue(self.cues@, id@) == first_cue(self.cues@.skip(i as int), id@),
            decreases self.cues@.len() - i,
        {
            assert(self.cues@.skip(i as int)[0] == self.cues@[i as int]);
            if crate::text::same_text(self.cues[i].id.as_str(), id) {
                return Some(&self.cues[i]);
            }
            assert(self.cues@.skip(i as int).drop_first() == self.cues@.skip(i + 1));
            i = i + 1;
        }
        None
    }
}

} // verus!
