//! Authored story format: labels of ordered statements.
//!
//! A [`Story`] maps label names to statement lists. Statements are *flow*
//! (say / show / branch / jump); all *logic* (conditions, effects) is Rhai
//! source that the host's script engine evaluates.
//!
//! Durations and volumes are authored as `f32`; the library carries each as
//! its IEEE-754 bit pattern (`f32::to_bits`) and never computes with it.

use vstd::prelude::*;
use crate::str_map::StrMap;

verus! {

/// A story: entry label + named labels of ordered statements.
pub struct Story {
    /// Story id (for save files / debugging).
    pub id: String,
    /// Label entered by the runner's `start`.
    pub entry: String,
    /// Label name → ordered statements, in label-name order. Falling off the
    /// end of a label is an implicit `Return`.
    pub labels: StrMap<Vec<Stmt>>,
}

/// One authored statement inside a label.
#[derive(Debug, PartialEq)]
pub enum Stmt {
    /// A dialogue line. Blocking: waits for player advance.
    Say(SaySpec),
    /// Narrator line. Blocking. Sugar for `Say` with no speaker.
    Narrate(String),
    /// Change the background (clears the sprite layer).
    Scene(SceneSpec),
    /// Show a sprite / portrait at an anchor.
    Show(ShowSpec),
    /// Hide a shown sprite.
    Hide(HideSpec),
    /// Start playing an asset on a channel.
    Play(PlaySpec),
    /// Stop a channel.
    Stop(StopSpec),
    /// Wait. Blocking.
    Pause(PauseSpec),
    /// Run Rhai side effects against vars / tags.
    Exec(String),
    /// Conditional block over a Rhai condition.
    If(IfSpec),
    /// Present choices. Blocking: waits for player selection.
    Menu(MenuSpec),
    /// Transfer to a label (does not return).
    Jump(String),
    /// Call a label (returns via `Return` / end-of-label).
    Call(String),
    /// Pop the call stack; at the bottom, the story ends.
    Return,
    /// End the story with a named ending (clears the call stack).
    Ending(EndingSpec),
    /// Prompt for a string and write it to a var. Blocking.
    Input(InputSpec),
}

/// Speaker + text for [`Stmt::Say`].
#[derive(Debug, PartialEq)]
pub struct SaySpec {
    /// Character id, or `None` for the narrator.
    pub who: Option<String>,
    /// The line.
    pub text: String,
}

/// Background change for [`Stmt::Scene`].
#[derive(Debug, PartialEq)]
pub struct SceneSpec {
    /// Background asset path.
    pub bg: String,
    /// Optional transition.
    pub with: Option<Transition>,
}

/// Sprite show for [`Stmt::Show`].
#[derive(Debug, PartialEq)]
pub struct ShowSpec {
    /// Sprite asset path.
    pub sprite: String,
    /// Named screen anchor.
    pub at: Option<Anchor>,
    /// Tag this sprite hides / replaces.
    pub as_: Option<String>,
    /// Optional transition.
    pub with: Option<Transition>,
}

/// Sprite hide for [`Stmt::Hide`].
#[derive(Debug, PartialEq)]
pub struct HideSpec {
    /// Which shown sprite to hide (`None` = all).
    pub as_: Option<String>,
    /// Optional transition.
    pub with: Option<Transition>,
}

/// Audio start for [`Stmt::Play`].
#[derive(Debug, PartialEq)]
pub struct PlaySpec {
    /// Which channel.
    pub channel: Channel,
    /// Audio asset path.
    pub asset: String,
    /// Linear volume 0..1 (`f32` bits).
    pub volume: Option<u32>,
    /// Fade-in seconds (`f32` bits).
    pub fade_in: Option<u32>,
    /// Loop the asset.
    pub loop_: bool,
}

/// Audio stop for [`Stmt::Stop`].
#[derive(Debug, PartialEq)]
pub struct StopSpec {
    /// Which channel to stop.
    pub channel: Channel,
    /// Fade-out seconds (`f32` bits).
    pub fade_out: Option<u32>,
}

/// Wait for [`Stmt::Pause`].
#[derive(Clone, Copy, Debug, PartialEq, Eq)]
pub struct PauseSpec {
    /// Seconds to wait (`f32` bits).
    pub seconds: u32,
}

/// Conditional block for [`Stmt::If`].
#[derive(Debug, PartialEq)]
pub struct IfSpec {
    /// Rhai expression (evaluates bool; fails closed to `else_`).
    pub condition: String,
    /// Statements when true.
    pub then_: Vec<Stmt>,
    /// Statements when false.
    pub else_: Option<Vec<Stmt>>,
}

/// Choice menu for [`Stmt::Menu`].
#[derive(Debug, PartialEq)]
pub struct MenuSpec {
    /// Optional prompt shown above the choices.
    pub prompt: Option<String>,
    /// Choices in authored order; `source_index` refers to this list.
    pub choices: Vec<StoryChoice>,
}

/// One choice inside a [`Stmt::Menu`].
#[derive(Debug, PartialEq)]
pub struct StoryChoice {
    /// Player-facing choice text.
    pub text: String,
    /// Rhai condition; false (or script error) locks the choice.
    pub condition: Option<String>,
    /// Rhai side effects fired on selection (before `goto`).
    pub effects: Option<String>,
    /// Label to jump to; `None` falls through past the menu.
    pub goto: Option<String>,
}

/// Text prompt for [`Stmt::Input`].
#[derive(Debug, PartialEq)]
pub struct InputSpec {
    /// Prompt shown above the field.
    pub prompt: String,
    /// Variable key to write.
    pub var: String,
    /// Used when the player submits an empty string.
    pub default: Option<String>,
}

/// Named ending for [`Stmt::Ending`].
#[derive(Debug, PartialEq)]
pub struct EndingSpec {
    /// Ending id.
    pub id: Option<String>,
}

/// Screen transition kinds.
#[derive(Clone, Copy, Debug, PartialEq, Eq)]
pub enum Transition {
    /// Hard cut (no fade).
    Cut,
    /// Crossfade over the given seconds (`f32` bits).
    Dissolve(u32),
    /// Fade through black over the given seconds (`f32` bits).
    Fade(u32),
}

/// Named sprite anchors.
#[derive(Clone, Copy, Debug, PartialEq, Eq)]
pub enum Anchor {
    /// Left third of the screen.
    Left,
    /// Horizontally centered.
    Center,
    /// Right third of the screen.
    Right,
}

/// Audio channels (mirror the audio crate's buses).
#[derive(Clone, Copy, Debug, PartialEq, Eq)]
pub enum Channel {
    /// Music bus.
    Music,
    /// Sound-effects bus.
    Sound,
    /// Voice bus.
    Voice,
    /// Ambience bus.
    Ambience,
}

/// Copy of an optional string.
pub fn clone_opt(s: &Option<String>) -> (r: Option<String>)
    ensures
        r == *s,
{
    match s {
        Some(v) => Some(v.clone()),
        None => None,
    }
}

impl Clone for SaySpec {
    fn clone(&self) -> (r: Self)
        ensures
            r == *self,
    {
        SaySpec { who: clone_opt(&self.who), text: self.text.clone() }
    }
}

impl Clone for SceneSpec {
    fn clone(&self) -> (r: Self)
        ensures
            r == *self,
    {
        SceneSpec { bg: self.bg.clone(), with: self.with }
    }
}

impl Clone for ShowSpec {
    fn clone(&self) -> (r: Self)
        ensures
            r == *self,
    {
        ShowSpec {
            sprite: self.sprite.clone(),
            at: self.at,
            as_: clone_opt(&self.as_),
            with: self.with,
        }
    }
}

impl Clone for HideSpec {
    fn clone(&self) -> (r: Self)
        ensures
            r == *self,
    {
        HideSpec { as_: clone_opt(&self.as_), with: self.with }
    }
}

impl Clone for PlaySpec {
    fn clone(&self) -> (r: Self)
        ensures
            r == *self,
    {
        PlaySpec {
            channel: self.channel,
            asset: self.asset.clone(),
            volume: self.volume,
            fade_in: self.fade_in,
            loop_: self.loop_,
        }
    }
}

impl Clone for StopSpec {
    fn clone(&self) -> (r: Self)
        ensures
            r == *self,
    {
        StopSpec { channel: self.channel, fade_out: self.fade_out }
    }
}

impl Clone for StoryChoice {
    fn clone(&self) -> (r: Self)
        ensures
            r == *self,
    {
        StoryChoice {
            text: self.text.clone(),
            condition: clone_opt(&self.condition),
            effects: clone_opt(&self.effects),
            goto: clone_opt(&self.goto),
        }
    }
}

/// Copy of a list of choices.
pub fn clone_choices(v: &Vec<StoryChoice>) -> (r: Vec<StoryChoice>)
    ensures
        r@ == v@,
{
    let mut out: Vec<StoryChoice> = Vec::new();
    let mut i: usize = 0;
    while i < v.len()
        invariant
            i <= v.len(),
            out@ == v@.take(i as int),
        decreases v.len() - i,
    {
        out.push(v[i].clone());
        i = i + 1;
        assert(out@ =~= v@.take(i as int));
    }
    assert(v@.take(v.len() as int) =~= v@);
    out
}

impl Clone for MenuSpec {
    fn clone(&self) -> (r: Self)
        ensures
            r.prompt == self.prompt,
            r.choices@ == self.choices@,
    {
        MenuSpec { prompt: clone_opt(&self.prompt), choices: clone_choices(&self.choices) }
    }
}

impl Clone for InputSpec {
    fn clone(&self) -> (r: Self)
        ensures
            r == *self,
    {
        InputSpec {
            prompt: self.prompt.clone(),
            var: self.var.clone(),
            default: clone_opt(&self.default),
        }
    }
}

impl Clone for EndingSpec {
    fn clone(&self) -> (r: Self)
        ensures
            r == *self,
    {
        EndingSpec { id: clone_opt(&self.id) }
    }
}

/// Errors from story compilation, validation and running.
#[derive(Debug, PartialEq, Eq)]
pub enum ScenarioError {
    /// RON parse failure.
    Ron(String),
    /// RON serialize failure.
    Serialize(String),
    /// Story failed validation (all issues collected).
    Validation(Vec<String>),
    /// Runtime transfer to an unknown label.
    DanglingLabel(String),
    /// Tried to advance / choose after the story finished.
    Finished,
    /// Tried to advance / choose before `start`.
    NotStarted,
    /// `advance` while blocked on a menu.
    BlockedAtMenu,
    /// `choose` while not blocked on a menu.
    NotBlockedAtMenu,
    /// `advance` / `choose` while blocked on text input.
    BlockedAtInput,
    /// `submit_text` while not blocked on input.
    NotBlockedAtInput,
    /// Choice index out of range.
    ChoiceOutOfRange {
        /// Index the caller passed.
        index: usize,
        /// Number of authored choices.
        len: usize,
    },
    /// Choice condition currently false (or failed closed).
    ChoiceUnavailable {
        /// Index the caller passed.
        index: usize,
    },
    /// A Rhai script (condition, effects, `Exec`) failed, with the host's
    /// description of the failure.
    Script(String),
}

} // verus!
