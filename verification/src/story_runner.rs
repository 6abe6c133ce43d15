//! [`StoryRunner`] — push-button state machine over a compiled story.
//!
//! The host drives `start` → [`Request`] → … until a [`StepResult`] comes
//! back, then `advance` / `select` / `submit_text` for the player. The
//! runner never evaluates Rhai itself: when an instruction needs a script
//! result it hands the host a [`Request`] and waits for the answer
//! (`condition_result`, `run_result`, `menu_result`). Each call runs at most
//! one instruction; [`Request::Continue`] asks the host to call `resume`.
//! Presentation statements queue [`Action`]s the host drains and applies.

use vstd::prelude::*;
use crate::story::{Anchor, Channel, HideSpec, InputSpec, MenuSpec, PlaySpec, ScenarioError, SceneSpec, ShowSpec, StopSpec, Story, StoryChoice, Transition, clone_choices, clone_opt};
use crate::story_compile::{Compiled, IrView, ir_target, compile, compiled_wf, compile_issues, compiled_program, ir_view, irs_view, label_map, program_wf, story_ir_len, Ir};
use crate::text::{strs_view, trim_spec};
use crate::movie::{is_movie_spec, path_is_movie};
use crate::str_map::StrMap;

verus! {

// ── Data handed to the host ──────────────────────────────────────────────

/// A presentation command emitted by the runner for the host to apply.
#[derive(Debug, PartialEq)]
pub enum Action {
    /// Change the background (host clears the sprite layer).
    Scene {
        /// Background asset path.
        bg: String,
        /// Optional transition.
        with: Option<Transition>,
    },
    /// Show a sprite.
    Show {
        /// Sprite asset path.
        sprite: String,
        /// Screen anchor.
        at: Option<Anchor>,
        /// Replacement tag (`None` = use the sprite path).
        as_: Option<String>,
        /// Optional transition.
        with: Option<Transition>,
    },
    /// Hide a shown sprite.
    Hide {
        /// Which sprite to hide (`None` = all).
        as_: Option<String>,
        /// Optional transition.
        with: Option<Transition>,
    },
    /// Start an audio asset on a channel.
    Play {
        /// Target channel.
        channel: Channel,
        /// Audio asset path.
        asset: String,
        /// Linear volume 0..1 (`f32` bits).
        volume: Option<u32>,
        /// Fade-in seconds (`f32` bits).
        fade_in: Option<u32>,
        /// Loop the asset.
        loop_: bool,
    },
    /// Stop a channel.
    Stop {
        /// Channel to stop.
        channel: Channel,
        /// Fade-out seconds (`f32` bits).
        fade_out: Option<u32>,
    },
    /// Looping movie — a Scene / Show path that is a movie.
    Movie {
        /// Authored path.
        path: String,
        /// Loop.
        loop_: bool,
    },
}

/// Where the runner is inside the story — pure data, ready for saves.
#[derive(Debug, PartialEq)]
pub struct StoryPosition {
    ip: u32,
    call_stack: Vec<u32>,
}

impl StoryPosition {
    /// Reconstruct a position from a save (ip is one past the blocking stmt).
    pub fn from_parts(ip: u32, call_stack: Vec<u32>) -> (r: StoryPosition)
        ensures
            r.ip_spec() == ip,
            r.stack_spec() == call_stack@,
    {
        StoryPosition { ip, call_stack }
    }

    /// Instruction pointer.
    pub closed spec fn ip_spec(&self) -> u32 {
        self.ip
    }

    /// Return-address stack, bottom first.
    pub closed spec fn stack_spec(&self) -> Seq<u32> {
        self.call_stack@
    }

    /// Current instruction pointer.
    pub fn ip(&self) -> (r: u32)
        ensures
            r == self.ip_spec(),
    {
        self.ip
    }

    /// Return-address stack (Call/Return), bottom first.
    pub fn call_stack(&self) -> (r: &[u32])
        ensures
            r@ == self.stack_spec(),
    {
        self.call_stack.as_slice()
    }

    /// Return-address stack depth.
    pub fn call_depth(&self) -> (r: usize)
        ensures
            r == self.stack_spec().len(),
    {
        self.call_stack.len()
    }
}

impl Clone for StoryPosition {
    fn clone(&self) -> (r: Self)
        ensures
            r.ip_spec() == self.ip_spec(),
            r.stack_spec() == self.stack_spec(),
    {
        StoryPosition { ip: self.ip, call_stack: self.call_stack.clone() }
    }
}

/// One menu choice (locked rows stay visible so the player sees what is locked).
#[derive(Debug, PartialEq)]
pub struct VisibleChoice {
    /// Index into the authored choice list — pass this back to `select`.
    pub source_index: usize,
    /// Player-facing choice text.
    pub text: String,
    /// True when the condition failed (fail-closed).
    pub locked: bool,
    /// Raw condition text when locked.
    pub lock_reason: Option<String>,
}

/// The blocking point the runner stopped at.
#[derive(Debug, PartialEq)]
pub enum StepResult {
    /// A dialogue line (speaker `None` = narrator). Advance to continue.
    Say {
        /// Speaker character id.
        who: Option<String>,
        /// Line text.
        text: String,
    },
    /// A choice menu. Pick via `select`.
    Menu {
        /// Optional prompt above the choices.
        prompt: Option<String>,
        /// All choices, locked ones marked.
        choices: Vec<VisibleChoice>,
    },
    /// A timed wait. Advance to continue.
    Pause {
        /// Seconds (`f32` bits).
        seconds: u32,
    },
    /// Name-entry prompt. Continue via `submit_text`.
    Input {
        /// Prompt shown above the field.
        prompt: String,
        /// Suggested / fallback value.
        default: String,
        /// Variable that will be written.
        var: String,
    },
    /// The story ended.
    Finished {
        /// Ending id if it ended via an `Ending` statement.
        ending: Option<String>,
    },
}

/// What the runner needs from the host next.
#[derive(Debug, PartialEq)]
pub enum Request {
    /// Stopped at a blocking point: show it to the player.
    Step(StepResult),
    /// Evaluate this Rhai condition; answer with `condition_result`.
    EvalCondition(String),
    /// Run these Rhai effects; answer with `run_result`.
    Run(String),
    /// Evaluate the condition of each menu choice (`None` = no condition;
    /// script errors count as false); answer with `menu_result`.
    EvalChoices(Vec<Option<String>>),
    /// Write `value` into the variable `var`, then call `resume`.
    SetVar {
        /// Variable key.
        var: String,
        /// String value.
        value: String,
    },
    /// Nothing to show yet: call `resume`.
    Continue,
}

// ── Views ────────────────────────────────────────────────────────────────

/// A menu as the specification sees it.
pub struct MenuView {
    /// Prompt.
    pub prompt: Option<String>,
    /// Choices.
    pub choices: Seq<StoryChoice>,
}

/// View of a menu.
pub open spec fn menu_view(m: MenuSpec) -> MenuView {
    MenuView { prompt: m.prompt, choices: m.choices@ }
}

/// What the runner is blocked on, as the specification sees it.
pub enum BlockedView {
    /// A `Say`.
    Say,
    /// A `Pause`.
    Pause,
    /// A menu.
    Menu(MenuView),
    /// A text input.
    Input { var: Seq<char>, default: Seq<char> },
}

/// What host answer the runner waits for.
pub enum AwaitView {
    /// A `JumpIfFalse` condition.
    Branch { target: u32 },
    /// An `Exec`.
    Exec,
    /// The choice conditions of a menu; `step_past` moves past the menu
    /// instruction once answered.
    MenuConditions { menu: MenuView, step_past: bool },
    /// The condition of the chosen choice.
    ChoiceCondition { menu: MenuView, index: usize },
    /// The effects of the chosen choice.
    ChoiceEffects { menu: MenuView, index: usize },
}

/// The runner's state.
pub struct RunnerModel {
    /// Instruction pointer and return-address stack; `None` before start
    /// and after the story finished.
    pub pos: Option<(u32, Seq<u32>)>,
    /// The story finished.
    pub finished: bool,
    /// What the runner is blocked on.
    pub blocked: Option<BlockedView>,
    /// Actions not yet drained.
    pub pending: Seq<Action>,
    /// Labels entered, in order.
    pub history: Seq<Seq<char>>,
    /// Host answer awaited.
    pub awaiting: Option<AwaitView>,
}

/// A step as the specification sees it.
pub enum StepView {
    /// See [`StepResult::Say`].
    Say { who: Option<Seq<char>>, text: Seq<char> },
    /// See [`StepResult::Menu`].
    Menu { prompt: Option<Seq<char>>, choices: Seq<VisibleChoice> },
    /// See [`StepResult::Pause`].
    Pause { seconds: u32 },
    /// See [`StepResult::Input`].
    Input { prompt: Seq<char>, default: Seq<char>, var: Seq<char> },
    /// See [`StepResult::Finished`].
    Finished { ending: Option<Seq<char>> },
}

/// A request as the specification sees it.
pub enum RequestView {
    /// See [`Request::Step`].
    Step(StepView),
    /// See [`Request::EvalCondition`].
    EvalCondition(Seq<char>),
    /// See [`Request::Run`].
    Run(Seq<char>),
    /// See [`Request::EvalChoices`].
    EvalChoices(Seq<Option<String>>),
    /// See [`Request::SetVar`].
    SetVar { var: Seq<char>, value: Seq<char> },
    /// See [`Request::Continue`].
    Continue,
}

/// View of an optional string.
pub open spec fn opt_str(o: Option<String>) -> Option<Seq<char>> {
    match o {
        Some(s) => Some(s@),
        None => None,
    }
}

/// View of a step.
pub open spec fn step_view(s: StepResult) -> StepView {
    match s {
        StepResult::Say { who, text } => StepView::Say { who: opt_str(who), text: text@ },
        StepResult::Menu { prompt, choices } => StepView::Menu { prompt: opt_str(prompt), choices: choices@ },
        StepResult::Pause { seconds } => StepView::Pause { seconds },
        StepResult::Input { prompt, default, var } => StepView::Input {
            prompt: prompt@,
            default: default@,
            var: var@,
        },
        StepResult::Finished { ending } => StepView::Finished { ending: opt_str(ending) },
    }
}

/// View of a request.
pub open spec fn request_view(r: Request) -> RequestView {
    match r {
        Request::Step(s) => RequestView::Step(step_view(s)),
        Request::EvalCondition(c) => RequestView::EvalCondition(c@),
        Request::Run(c) => RequestView::Run(c@),
        Request::EvalChoices(v) => RequestView::EvalChoices(v@),
        Request::SetVar { var, value } => RequestView::SetVar { var: var@, value: value@ },
        Request::Continue => RequestView::Continue,
    }
}

/// View of an operation's result.
pub open spec fn result_view(r: Result<Request, ScenarioError>) -> Result<RequestView, ScenarioError> {
    match r {
        Ok(q) => Ok(request_view(q)),
        Err(e) => Err(e),
    }
}

// ── Transition specification ─────────────────────────────────────────────

/// The label whose offset is `t`, if any.
pub open spec fn label_of(m: Map<Seq<char>, u32>, t: u32) -> Option<Seq<char>> {
    if exists|k: Seq<char>| #[trigger] m.contains_key(k) && m[k] == t {
        Some(choose|k: Seq<char>| #[trigger] m.contains_key(k) && m[k] == t)
    } else {
        None
    }
}

/// `h` with `o` appended when present.
pub open spec fn push_opt(h: Seq<Seq<char>>, o: Option<Seq<char>>) -> Seq<Seq<char>> {
    match o {
        Some(l) => h.push(l),
        None => h,
    }
}

/// Conditions of a menu's choices, in order.
pub open spec fn choice_conditions(cs: Seq<StoryChoice>) -> Seq<Option<String>> {
    Seq::new(cs.len(), |i: int| cs[i].condition)
}

/// Whether choice `c` is open given the host's answer `ans` for it.
pub open spec fn choice_open(c: StoryChoice, ans: bool) -> bool {
    match c.condition {
        Some(_) => ans,
        None => true,
    }
}

/// The menu rows shown to the player: every choice, locked when its
/// condition is false (the condition text kept as the lock reason).
pub open spec fn visible_spec(cs: Seq<StoryChoice>, opens: Seq<bool>) -> Seq<VisibleChoice> {
    Seq::new(
        cs.len(),
        |i: int|
            VisibleChoice {
                source_index: i as usize,
                text: cs[i].text,
                locked: !choice_open(cs[i], opens[i]),
                lock_reason: if choice_open(cs[i], opens[i]) {
                    None
                } else {
                    cs[i].condition
                },
            },
    )
}

/// Actions a `Scene` queues: the scene, then a looping movie when the
/// background is a movie.
pub open spec fn scene_actions(spec: SceneSpec) -> Seq<Action> {
    seq![Action::Scene { bg: spec.bg, with: spec.with }] + if is_movie_spec(spec.bg@) {
        seq![Action::Movie { path: spec.bg, loop_: true }]
    } else {
        Seq::empty()
    }
}

/// Actions a `Show` queues: the show, then a looping movie when the sprite
/// is a movie.
pub open spec fn show_actions(spec: ShowSpec) -> Seq<Action> {
    seq![Action::Show { sprite: spec.sprite, at: spec.at, as_: spec.as_, with: spec.with }] + if is_movie_spec(
        spec.sprite@,
    ) {
        seq![Action::Movie { path: spec.sprite, loop_: true }]
    } else {
        Seq::empty()
    }
}

/// The input default: the authored one or the empty string.
pub open spec fn input_default(spec: InputSpec) -> Seq<char> {
    match spec.default {
        Some(d) => d@,
        None => Seq::empty(),
    }
}

/// The finished state: no position, not blocked.
pub open spec fn finish(m: RunnerModel) -> RunnerModel {
    RunnerModel { pos: None, finished: true, blocked: None, ..m }
}

/// Running the instruction at the current position.
pub open spec fn resume_spec(m: RunnerModel, prog: Seq<IrView>, offsets: Map<Seq<char>, u32>) -> (
    RunnerModel,
    Result<RequestView, ScenarioError>,
) {
    match m.pos {
        None => (finish(m), Ok(RequestView::Step(StepView::Finished { ending: None }))),
        Some((ip, st)) => {
            let next = Some(((ip + 1) as u32, st));
            match prog[ip as int] {
                IrView::Say { who, text } => (
                    RunnerModel { pos: next, blocked: Some(BlockedView::Say), ..m },
                    Ok(RequestView::Step(StepView::Say { who: opt_str(who), text: text@ })),
                ),
                IrView::Pause { seconds } => (
                    RunnerModel { pos: next, blocked: Some(BlockedView::Pause), ..m },
                    Ok(RequestView::Step(StepView::Pause { seconds })),
                ),
                IrView::Menu { prompt, choices } => (
                    RunnerModel {
                        awaiting: Some(
                            AwaitView::MenuConditions {
                                menu: MenuView { prompt, choices },
                                step_past: true,
                            },
                        ),
                        ..m
                    },
                    Ok(RequestView::EvalChoices(choice_conditions(choices))),
                ),
                IrView::Scene(spec) => (
                    RunnerModel { pos: next, pending: m.pending + scene_actions(spec), ..m },
                    Ok(RequestView::Continue),
                ),
                IrView::Show(spec) => (
                    RunnerModel { pos: next, pending: m.pending + show_actions(spec), ..m },
                    Ok(RequestView::Continue),
                ),
                IrView::Hide(spec) => (
                    RunnerModel {
                        pos: next,
                        pending: m.pending.push(Action::Hide { as_: spec.as_, with: spec.with }),
                        ..m
                    },
                    Ok(RequestView::Continue),
                ),
                IrView::Play(spec) => (
                    RunnerModel {
                        pos: next,
                        pending: m.pending.push(
                            Action::Play {
                                channel: spec.channel,
                                asset: spec.asset,
                                volume: spec.volume,
                                fade_in: spec.fade_in,
                                loop_: spec.loop_,
                            },
                        ),
                        ..m
                    },
                    Ok(RequestView::Continue),
                ),
                IrView::Stop(spec) => (
                    RunnerModel {
                        pos: next,
                        pending: m.pending.push(
                            Action::Stop { channel: spec.channel, fade_out: spec.fade_out },
                        ),
                        ..m
                    },
                    Ok(RequestView::Continue),
                ),
                IrView::Exec(src) => (
                    RunnerModel { awaiting: Some(AwaitView::Exec), ..m },
                    Ok(RequestView::Run(src@)),
                ),
                IrView::JumpIfFalse { cond, target } => (
                    RunnerModel { awaiting: Some(AwaitView::Branch { target }), ..m },
                    Ok(RequestView::EvalCondition(cond@)),
                ),
                IrView::Jump(t) => (
                    RunnerModel {
                        pos: Some((t, st)),
                        history: push_opt(m.history, label_of(offsets, t)),
                        ..m
                    },
                    Ok(RequestView::Continue),
                ),
                IrView::Call(t) => (
                    RunnerModel {
                        pos: Some((t, st.push((ip + 1) as u32))),
                        history: push_opt(m.history, label_of(offsets, t)),
                        ..m
                    },
                    Ok(RequestView::Continue),
                ),
                IrView::Return => if st.len() > 0 {
                    (
                        RunnerModel { pos: Some((st.last(), st.drop_last())), ..m },
                        Ok(RequestView::Continue),
                    )
                } else {
                    (finish(m), Ok(RequestView::Step(StepView::Finished { ending: None })))
                },
                IrView::Ending { id } => (
                    finish(m),
                    Ok(RequestView::Step(StepView::Finished { ending: opt_str(id) })),
                ),
                IrView::Input(spec) => (
                    RunnerModel {
                        pos: next,
                        blocked: Some(
                            BlockedView::Input { var: spec.var@, default: input_default(spec) },
                        ),
                        ..m
                    },
                    Ok(
                        RequestView::Step(
                            StepView::Input {
                                prompt: spec.prompt@,
                                default: input_default(spec),
                                var: spec.var@,
                            },
                        ),
                    ),
                ),
            }
        },
    }
}

/// The return-address stack of the current position (empty if none).
pub open spec fn stack_of(m: RunnerModel) -> Seq<u32> {
    match m.pos {
        Some((_, st)) => st,
        None => Seq::empty(),
    }
}

/// Transfer to a choice's `goto` label (or fall through past the menu).
pub open spec fn goto_spec(m: RunnerModel, goto: Option<String>, offsets: Map<Seq<char>, u32>) -> (
    RunnerModel,
    Result<RequestView, ScenarioError>,
) {
    match goto {
        None => (m, Ok(RequestView::Continue)),
        Some(g) => if offsets.contains_key(g@) {
            (
                RunnerModel {
                    pos: Some((offsets[g@], stack_of(m))),
                    history: m.history.push(g@),
                    ..m
                },
                Ok(RequestView::Continue),
            )
        } else {
            (m, Err(ScenarioError::DanglingLabel(g)))
        },
    }
}

/// After the chosen choice's condition holds: run its effects, else go.
pub open spec fn after_condition_spec(
    m: RunnerModel,
    menu: MenuView,
    index: usize,
    offsets: Map<Seq<char>, u32>,
) -> (RunnerModel, Result<RequestView, ScenarioError>) {
    let c = menu.choices[index as int];
    match c.effects {
        Some(fx) => (
            RunnerModel { awaiting: Some(AwaitView::ChoiceEffects { menu, index }), ..m },
            Ok(RequestView::Run(fx@)),
        ),
        None => goto_spec(RunnerModel { awaiting: None, ..m }, c.goto, offsets),
    }
}

/// Answering a condition request.
pub open spec fn condition_spec(
    m: RunnerModel,
    ans: Result<bool, String>,
    offsets: Map<Seq<char>, u32>,
) -> (RunnerModel, Result<RequestView, ScenarioError>) {
    let cleared = RunnerModel { awaiting: None, ..m };
    match ans {
        Err(e) => (cleared, Err(ScenarioError::Script(e))),
        Ok(ok) => match m.awaiting {
            Some(AwaitView::Branch { target }) => {
                let (ip, st) = m.pos->0;
                (
                    RunnerModel {
                        pos: Some((if ok { (ip + 1) as u32 } else { target }, st)),
                        ..cleared
                    },
                    Ok(RequestView::Continue),
                )
            },
            Some(AwaitView::ChoiceCondition { menu, index }) => if ok {
                after_condition_spec(cleared, menu, index, offsets)
            } else {
                (
                    RunnerModel { blocked: Some(BlockedView::Menu(menu)), ..cleared },
                    Err(ScenarioError::ChoiceUnavailable { index }),
                )
            },
            _ => (m, Ok(RequestView::Continue)),
        },
    }
}

/// Answering a run request.
pub open spec fn run_spec(m: RunnerModel, ans: Result<(), String>, offsets: Map<Seq<char>, u32>) -> (
    RunnerModel,
    Result<RequestView, ScenarioError>,
) {
    let cleared = RunnerModel { awaiting: None, ..m };
    match ans {
        Err(e) => (cleared, Err(ScenarioError::Script(e))),
        Ok(_) => match m.awaiting {
            Some(AwaitView::Exec) => {
                let (ip, st) = m.pos->0;
                (RunnerModel { pos: Some(((ip + 1) as u32, st)), ..cleared }, Ok(RequestView::Continue))
            },
            Some(AwaitView::ChoiceEffects { menu, index }) => goto_spec(
                cleared,
                menu.choices[index as int].goto,
                offsets,
            ),
            _ => (m, Ok(RequestView::Continue)),
        },
    }
}

/// Answering a menu-conditions request.
pub open spec fn menu_spec(m: RunnerModel, opens: Seq<bool>) -> (RunnerModel, Result<RequestView, ScenarioError>) {
    match m.awaiting {
        Some(AwaitView::MenuConditions { menu, step_past }) => {
            let (ip, st) = m.pos->0;
            (
                RunnerModel {
                    pos: Some((if step_past { (ip + 1) as u32 } else { ip }, st)),
                    blocked: Some(BlockedView::Menu(menu)),
                    awaiting: None,
                    ..m
                },
                Ok(
                    RequestView::Step(
                        StepView::Menu {
                            prompt: opt_str(menu.prompt),
                            choices: visible_spec(menu.choices, opens),
                        },
                    ),
                ),
            )
        },
        _ => (m, Ok(RequestView::Continue)),
    }
}

/// `advance`: continue from a `Say` or `Pause`.
pub open spec fn advance_spec(m: RunnerModel) -> (RunnerModel, Result<RequestView, ScenarioError>) {
    if m.finished {
        (m, Err(ScenarioError::Finished))
    } else if m.pos is None {
        (m, Err(ScenarioError::NotStarted))
    } else {
        match m.blocked {
            Some(BlockedView::Menu(_)) => (m, Err(ScenarioError::BlockedAtMenu)),
            Some(BlockedView::Input { .. }) => (m, Err(ScenarioError::BlockedAtInput)),
            Some(_) => (RunnerModel { blocked: None, ..m }, Ok(RequestView::Continue)),
            None => (m, Err(ScenarioError::NotStarted)),
        }
    }
}

/// `select`: pick a menu choice by its authored index.
pub open spec fn choose_spec(m: RunnerModel, index: usize, offsets: Map<Seq<char>, u32>) -> (
    RunnerModel,
    Result<RequestView, ScenarioError>,
) {
    if m.finished {
        (m, Err(ScenarioError::Finished))
    } else if m.pos is None {
        (m, Err(ScenarioError::NotStarted))
    } else {
        match m.blocked {
            Some(BlockedView::Menu(menu)) => if index >= menu.choices.len() {
                (m, Err(ScenarioError::ChoiceOutOfRange { index, len: menu.choices.len() as usize }))
            } else {
                let cleared = RunnerModel { blocked: None, ..m };
                match menu.choices[index as int].condition {
                    Some(cond) => (
                        RunnerModel {
                            awaiting: Some(AwaitView::ChoiceCondition { menu, index }),
                            ..cleared
                        },
                        Ok(RequestView::EvalCondition(cond@)),
                    ),
                    None => after_condition_spec(cleared, menu, index, offsets),
                }
            },
            Some(BlockedView::Input { .. }) => (m, Err(ScenarioError::BlockedAtInput)),
            _ => (m, Err(ScenarioError::NotBlockedAtMenu)),
        }
    }
}

/// `submit_text`: answer a text prompt (trimmed; empty uses the default).
pub open spec fn submit_spec(m: RunnerModel, text: Seq<char>) -> (RunnerModel, Result<RequestView, ScenarioError>) {
    if m.finished {
        (m, Err(ScenarioError::Finished))
    } else if m.pos is None {
        (m, Err(ScenarioError::NotStarted))
    } else {
        match m.blocked {
            Some(BlockedView::Input { var, default }) => {
                let t = trim_spec(text);
                (
                    RunnerModel { blocked: None, ..m },
                    Ok(RequestView::SetVar { var, value: if t.len() == 0 { default } else { t } }),
                )
            },
            _ => (m, Err(ScenarioError::NotBlockedAtInput)),
        }
    }
}

/// `restore`: resume at a saved position and re-emit its blocking step.
pub open spec fn restore_spec(m: RunnerModel, ip: u32, st: Seq<u32>, prog: Seq<IrView>) -> (
    RunnerModel,
    Result<RequestView, ScenarioError>,
) {
    if ip > prog.len() {
        (m, Err(ScenarioError::NotStarted))
    } else {
        let m1 = RunnerModel {
            pos: Some((ip, st)),
            finished: false,
            blocked: None,
            pending: Seq::empty(),
            awaiting: None,
            ..m
        };
        if ip == 0 {
            (m1, Ok(RequestView::Continue))
        } else {
            match prog[ip - 1] {
                IrView::Say { who, text } => (
                    RunnerModel { blocked: Some(BlockedView::Say), ..m1 },
                    Ok(RequestView::Step(StepView::Say { who: opt_str(who), text: text@ })),
                ),
                IrView::Pause { seconds } => (
                    RunnerModel { blocked: Some(BlockedView::Pause), ..m1 },
                    Ok(RequestView::Step(StepView::Pause { seconds })),
                ),
                IrView::Menu { prompt, choices } => (
                    RunnerModel {
                        awaiting: Some(
                            AwaitView::MenuConditions {
                                menu: MenuView { prompt, choices },
                                step_past: false,
                            },
                        ),
                        ..m1
                    },
                    Ok(RequestView::EvalChoices(choice_conditions(choices))),
                ),
                IrView::Input(spec) => (
                    RunnerModel {
                        blocked: Some(
                            BlockedView::Input { var: spec.var@, default: input_default(spec) },
                        ),
                        ..m1
                    },
                    Ok(
                        RequestView::Step(
                            StepView::Input {
                                prompt: spec.prompt@,
                                default: input_default(spec),
                                var: spec.var@,
                            },
                        ),
                    ),
                ),
                _ => (m1, Ok(RequestView::Continue)),
            }
        }
    }
}

/// Entering label `label` afresh.
pub open spec fn start_model(m: RunnerModel, off: u32, label: Seq<char>) -> RunnerModel {
    RunnerModel {
        pos: Some((off, Seq::empty())),
        finished: false,
        blocked: None,
        pending: Seq::empty(),
        history: seq![label],
        awaiting: None,
    }
}

// ── The runner ───────────────────────────────────────────────────────────

/// What the runner is currently blocked on.
enum Blocked {
    Say,
    Pause,
    Menu(MenuSpec),
    Input { var: String, default: String },
}

/// Host answer the runner waits for.
enum Awaiting {
    Branch { target: u32 },
    Exec,
    MenuConditions { menu: MenuSpec, step_past: bool },
    ChoiceCondition { menu: MenuSpec, index: usize },
    ChoiceEffects { menu: MenuSpec, index: usize },
}

spec fn blocked_view(b: Blocked) -> BlockedView {
    match b {
        Blocked::Say => BlockedView::Say,
        Blocked::Pause => BlockedView::Pause,
        Blocked::Menu(m) => BlockedView::Menu(menu_view(m)),
        Blocked::Input { var, default } => BlockedView::Input { var: var@, default: default@ },
    }
}

spec fn await_view(a: Awaiting) -> AwaitView {
    match a {
        Awaiting::Branch { target } => AwaitView::Branch { target },
        Awaiting::Exec => AwaitView::Exec,
        Awaiting::MenuConditions { menu, step_past } => AwaitView::MenuConditions {
            menu: menu_view(menu),
            step_past,
        },
        Awaiting::ChoiceCondition { menu, index } => AwaitView::ChoiceCondition {
            menu: menu_view(menu),
            index,
        },
        Awaiting::ChoiceEffects { menu, index } => AwaitView::ChoiceEffects {
            menu: menu_view(menu),
            index,
        },
    }
}

/// State machine over a compiled story.
pub struct StoryRunner {
    story_id: String,
    entry: String,
    program: Compiled,
    position: Option<StoryPosition>,
    finished: bool,
    blocked: Option<Blocked>,
    awaiting: Option<Awaiting>,
    pending: Vec<Action>,
    history: Vec<String>,
}

/// Copy a menu.
fn clone_menu(m: &MenuSpec) -> (r: MenuSpec)
    ensures
        menu_view(r) == menu_view(*m),
{
    m.clone()
}

/// The label whose offset is `t`, if any (offsets are distinct).
fn label_at(labels: &StrMap<u32>, t: u32) -> (r: Option<String>)
    requires
        forall|k1: Seq<char>, k2: Seq<char>|
            #[trigger] labels@.contains_key(k1) && #[trigger] labels@.contains_key(k2) && k1 != k2
                ==> labels@[k1] != labels@[k2],
    ensures
        opt_str(r) == label_of(labels@, t),
{
    let n = labels.entry_count();
    let ghost ks = labels.key_seq();
    let ghost vs = labels.val_seq();
    let ghost m = labels@;
    assert(forall|j: int| 0 <= j < n ==> #[trigger] m.contains_key(ks[j]) && m[ks[j]] == vs[j]);
    let mut i: usize = 0;
    while i < n
        invariant
            i <= n,
            n == labels.key_seq().len(),
            n == labels.val_seq().len(),
            forall|j: int|
                0 <= j < n ==> #[trigger] labels@.contains_key(labels.key_seq()[j]) && labels@[labels.key_seq()[j]]
                    == labels.val_seq()[j],
            forall|k: Seq<char>| #[trigger] labels@.contains_key(k) ==> labels.key_seq().contains(k),
            forall|j: int| 0 <= j < i ==> labels.val_seq()[j] != t,
            forall|k1: Seq<char>, k2: Seq<char>|
                #[trigger] labels@.contains_key(k1) && #[trigger] labels@.contains_key(k2) && k1 != k2
                    ==> labels@[k1] != labels@[k2],
        decreases n - i,
    {
        if *labels.val_at(i) == t {
            let k = labels.key_at(i).clone();
            proof {
                let key = labels.key_seq()[i as int];
                assert(labels@.contains_key(key) && labels@[key] == t);
                let c = choose|c: Seq<char>| #[trigger] labels@.contains_key(c) && labels@[c] == t;
                assert(c == key);
            }
            return Some(k);
        }
        i = i + 1;
    }
    proof {
        assert forall|k: Seq<char>| #[trigger] labels@.contains_key(k) implies labels@[k] != t by {
            let j = choose|j: int| 0 <= j < labels.key_seq().len() && labels.key_seq()[j] == k;
            assert(labels@[labels.key_seq()[j]] == labels.val_seq()[j]);
        }
    }
    None
}

impl StoryRunner {
    /// The runner's state.
    pub closed spec fn model(&self) -> RunnerModel {
        RunnerModel {
            pos: match self.position {
                Some(p) => Some((p.ip, p.call_stack@)),
                None => None,
            },
            finished: self.finished,
            blocked: match self.blocked {
                Some(b) => Some(blocked_view(b)),
                None => None,
            },
            pending: self.pending@,
            history: strs_view(self.history@),
            awaiting: match self.awaiting {
                Some(a) => Some(await_view(a)),
                None => None,
            },
        }
    }

    /// The compiled program.
    pub closed spec fn prog(&self) -> Seq<IrView> {
        irs_view(self.program.instrs@)
    }

    /// Label offsets of the compiled program.
    pub closed spec fn offsets(&self) -> Map<Seq<char>, u32> {
        self.program.labels@
    }

    /// The story id.
    pub closed spec fn id_view(&self) -> Seq<char> {
        self.story_id@
    }

    /// The entry label.
    pub closed spec fn entry_view(&self) -> Seq<char> {
        self.entry@
    }

    /// Internal consistency: a well-formed program containing the entry
    /// label, a position inside it, and an awaited answer that matches the
    /// instruction at the position.
    pub closed spec fn wf(&self) -> bool {
        let len = self.program.instrs@.len();
        let prog = irs_view(self.program.instrs@);
        &&& compiled_wf(self.program)
        &&& len < u32::MAX
        &&& self.program.labels@.contains_key(self.entry@)
        &&& match self.position {
            Some(p) => p.ip < len && forall|k: int| 0 <= k < p.call_stack@.len() ==> #[trigger] p.call_stack@[k] < len,
            None => true,
        }
        &&& match self.awaiting {
            Some(Awaiting::Branch { target }) => self.position is Some && (prog[self.position->0.ip as int]
                matches IrView::JumpIfFalse { cond: _, target: t } && t == target),
            Some(Awaiting::Exec) => self.position is Some && prog[self.position->0.ip as int] is Exec,
            Some(Awaiting::MenuConditions { menu: _, step_past }) => self.position is Some && (step_past
                ==> prog[self.position->0.ip as int] is Menu),
            Some(Awaiting::ChoiceCondition { menu, index }) => self.position is Some && index
                < menu.choices@.len(),
            Some(Awaiting::ChoiceEffects { menu, index }) => self.position is Some && index
                < menu.choices@.len(),
            None => true,
        }
    }

    proof fn lemma_next_in_range(&self, ip: int)
        requires
            self.wf(),
            0 <= ip < self.prog().len(),
            !(self.prog()[ip] is Return),
        ensures
            ip + 1 < self.prog().len(),
            ip + 1 < self.program.instrs@.len(),
            ip + 1 < u32::MAX,
    {
        assert(self.prog().len() == self.program.instrs@.len());
        assert(program_wf(self.prog()));
    }

    /// Move the position one instruction on.
    fn step_ip(&mut self)
        requires
            old(self).position is Some,
            old(self).position->0.ip < u32::MAX,
        ensures
            final(self).position is Some,
            final(self).position->0.ip == old(self).position->0.ip + 1,
            final(self).position->0.call_stack@ == old(self).position->0.call_stack@,
            final(self).story_id == old(self).story_id,
            final(self).entry == old(self).entry,
            final(self).program == old(self).program,
            final(self).finished == old(self).finished,
            final(self).blocked == old(self).blocked,
            final(self).awaiting == old(self).awaiting,
            final(self).pending == old(self).pending,
            final(self).history == old(self).history,
    {
        let p = self.position.take().unwrap();
        self.position = Some(StoryPosition { ip: p.ip + 1, call_stack: p.call_stack });
    }

    /// Move the position to `ip`, keeping the stack.
    fn jump_ip(&mut self, ip: u32)
        requires
            old(self).position is Some,
        ensures
            final(self).position is Some,
            final(self).position->0.ip == ip,
            final(self).position->0.call_stack@ == old(self).position->0.call_stack@,
            final(self).story_id == old(self).story_id,
            final(self).entry == old(self).entry,
            final(self).program == old(self).program,
            final(self).finished == old(self).finished,
            final(self).blocked == old(self).blocked,
            final(self).awaiting == old(self).awaiting,
            final(self).pending == old(self).pending,
            final(self).history == old(self).history,
    {
        let p = self.position.take().unwrap();
        self.position = Some(StoryPosition { ip, call_stack: p.call_stack });
    }
}

impl StoryRunner {
    /// Run the instruction at the current position (see [`resume_spec`]).
    #[verifier::rlimit(60)]
    pub fn resume(&mut self) -> (r: Result<Request, ScenarioError>)
        requires
            old(self).wf(),
            old(self).model().awaiting is None,
            old(self).model().blocked is None,
        ensures
            final(self).wf(),
            final(self).prog() == old(self).prog(),
            final(self).offsets() == old(self).offsets(),
            final(self).id_view() == old(self).id_view(),
            final(self).entry_view() == old(self).entry_view(),
            (final(self).model(), result_view(r)) == resume_spec(
                old(self).model(),
                old(self).prog(),
                old(self).offsets(),
            ),
    {
        let ghost m0 = self.model();
        let ip: usize = match &self.position {
            Some(p) => p.ip as usize,
            None => {
                self.finished = true;
                self.blocked = None;
                return Ok(Request::Step(StepResult::Finished { ending: None }));
            },
        };
        let ghost prog = self.prog();
        assert(prog[ip as int] == ir_view(self.program.instrs@[ip as int]));
        match &self.program.instrs[ip] {
            Ir::Say { who, text } => {
                let step = StepResult::Say { who: clone_opt(who), text: text.clone() };
                proof {
                    self.lemma_next_in_range(ip as int);
                }
                self.step_ip();
                self.blocked = Some(Blocked::Say);
                Ok(Request::Step(step))
            },
            Ir::Pause { seconds } => {
                let step = StepResult::Pause { seconds: *seconds };
                proof {
                    self.lemma_next_in_range(ip as int);
                }
                self.step_ip();
                self.blocked = Some(Blocked::Pause);
                Ok(Request::Step(step))
            },
            Ir::Menu(spec) => {
                let menu = clone_menu(spec);
                let conds = menu_conditions(&menu.choices);
                self.awaiting = Some(Awaiting::MenuConditions { menu, step_past: true });
                Ok(Request::EvalChoices(conds))
            },
            Ir::Scene(spec) => {
                let bg = spec.bg.clone();
                let with = spec.with;
                proof {
                    self.lemma_next_in_range(ip as int);
                }
                let movie = path_is_movie(bg.as_str());
                let ghost p0 = self.pending@;
                self.pending.push(Action::Scene { bg: bg.clone(), with });
                if movie {
                    self.pending.push(Action::Movie { path: bg, loop_: true });
                }
                assert(self.pending@ =~= p0 + scene_actions(*spec));
                self.step_ip();
                Ok(Request::Continue)
            },
            Ir::Show(spec) => {
                let sprite = spec.sprite.clone();
                let at = spec.at;
                let as_ = clone_opt(&spec.as_);
                let with = spec.with;
                proof {
                    self.lemma_next_in_range(ip as int);
                }
                let movie = path_is_movie(sprite.as_str());
                let ghost p0 = self.pending@;
                self.pending.push(Action::Show { sprite: sprite.clone(), at, as_, with });
                if movie {
                    self.pending.push(Action::Movie { path: sprite, loop_: true });
                }
                assert(self.pending@ =~= p0 + show_actions(*spec));
                self.step_ip();
                Ok(Request::Continue)
            },
            Ir::Hide(spec) => {
                let a = Action::Hide { as_: clone_opt(&spec.as_), with: spec.with };
                proof {
                    self.lemma_next_in_range(ip as int);
                }
                self.pending.push(a);
                self.step_ip();
                Ok(Request::Continue)
            },
            Ir::Play(spec) => {
                let a = Action::Play {
                    channel: spec.channel,
                    asset: spec.asset.clone(),
                    volume: spec.volume,
                    fade_in: spec.fade_in,
                    loop_: spec.loop_,
                };
                proof {
                    self.lemma_next_in_range(ip as int);
                }
                self.pending.push(a);
                self.step_ip();
                Ok(Request::Continue)
            },
            Ir::Stop(spec) => {
                let a = Action::Stop { channel: spec.channel, fade_out: spec.fade_out };
                proof {
                    self.lemma_next_in_range(ip as int);
                }
                self.pending.push(a);
                self.step_ip();
                Ok(Request::Continue)
            },
            Ir::Exec(src) => {
                let src = src.clone();
                self.awaiting = Some(Awaiting::Exec);
                Ok(Request::Run(src))
            },
            Ir::JumpIfFalse { cond, target } => {
                let cond = cond.clone();
                let target = *target;
                self.awaiting = Some(Awaiting::Branch { target });
                Ok(Request::EvalCondition(cond))
            },
            Ir::Jump(target) => {
                let target = *target;
                assert(ir_target(prog[ip as int]) is Some);
                let name = label_at(&self.program.labels, target);
                let ghost h0 = self.history@;
                match name {
                    Some(n) => {
                        self.history.push(n);
                    },
                    None => {},
                }
                assert(strs_view(self.history@) =~= push_opt(strs_view(h0), label_of(self.offsets(), target)));
                self.jump_ip(target);
                Ok(Request::Continue)
            },
            Ir::Call(target) => {
                let target = *target;
                assert(ir_target(prog[ip as int]) is Some);
                proof {
                    self.lemma_next_in_range(ip as int);
                }
                let name = label_at(&self.program.labels, target);
                let ghost h0 = self.history@;
                match name {
                    Some(n) => {
                        self.history.push(n);
                    },
                    None => {},
                }
                assert(strs_view(self.history@) =~= push_opt(strs_view(h0), label_of(self.offsets(), target)));
                let p = self.position.take().unwrap();
                let mut st = p.call_stack;
                st.push((ip + 1) as u32);
                self.position = Some(StoryPosition { ip: target, call_stack: st });
                Ok(Request::Continue)
            },
            Ir::Return => {
                let p = self.position.take().unwrap();
                let mut st = p.call_stack;
                let ghost st0 = st@;
                match st.pop() {
                    Some(ret) => {
                        self.position = Some(StoryPosition { ip: ret, call_stack: st });
                        Ok(Request::Continue)
                    },
                    None => {
                        self.position = None;
                        self.finished = true;
                        self.blocked = None;
                        Ok(Request::Step(StepResult::Finished { ending: None }))
                    },
                }
            },
            Ir::Ending { id } => {
                let ending = clone_opt(id);
                self.position = None;
                self.finished = true;
                self.blocked = None;
                Ok(Request::Step(StepResult::Finished { ending }))
            },
            Ir::Input(spec) => {
                let default = match &spec.default {
                    Some(d) => d.clone(),
                    None => String::new(),
                };
                let step = StepResult::Input {
                    prompt: spec.prompt.clone(),
                    default: default.clone(),
                    var: spec.var.clone(),
                };
                let var = spec.var.clone();
                proof {
                    self.lemma_next_in_range(ip as int);
                }
                self.step_ip();
                self.blocked = Some(Blocked::Input { var, default });
                Ok(Request::Step(step))
            },
        }
    }
}

/// The conditions of a menu's choices, in order.
fn menu_conditions(cs: &Vec<StoryChoice>) -> (r: Vec<Option<String>>)
    ensures
        r@ == choice_conditions(cs@),
{
    let mut out: Vec<Option<String>> = Vec::new();
    let mut i: usize = 0;
    while i < cs.len()
        invariant
            i <= cs@.len(),
            out@ == choice_conditions(cs@).take(i as int),
        decreases cs.len() - i,
    {
        out.push(clone_opt(&cs[i].condition));
        i = i + 1;
        assert(out@ =~= choice_conditions(cs@).take(i as int));
    }
    assert(choice_conditions(cs@).take(cs@.len() as int) =~= choice_conditions(cs@));
    out
}

/// The menu rows for `cs` given the host's answers (see [`visible_spec`]).
pub fn collect_menu_choices(cs: &Vec<StoryChoice>, opens: &Vec<bool>) -> (r: Vec<VisibleChoice>)
    requires
        opens@.len() == cs@.len(),
    ensures
        r@ == visible_spec(cs@, opens@),
{
    let mut out: Vec<VisibleChoice> = Vec::new();
    let mut i: usize = 0;
    while i < cs.len()
        invariant
            i <= cs@.len(),
            opens@.len() == cs@.len(),
            out@ == visible_spec(cs@, opens@).take(i as int),
        decreases cs.len() - i,
    {
        let c = &cs[i];
        let open = match &c.condition {
            Some(_) => opens[i],
            None => true,
        };
        out.push(
            VisibleChoice {
                source_index: i,
                text: c.text.clone(),
                locked: !open,
                lock_reason: if open {
                    None
                } else {
                    clone_opt(&c.condition)
                },
            },
        );
        i = i + 1;
        assert(out@ =~= visible_spec(cs@, opens@).take(i as int));
    }
    assert(visible_spec(cs@, opens@).take(cs@.len() as int) =~= visible_spec(cs@, opens@));
    out
}

/// Whether two runners agree on everything but their state.
pub open spec fn same_program(a: StoryRunner, b: StoryRunner) -> bool {
    &&& a.prog() == b.prog()
    &&& a.offsets() == b.offsets()
    &&& a.id_view() == b.id_view()
    &&& a.entry_view() == b.entry_view()
}

impl StoryRunner {
    /// Transfer to a choice's `goto` label, or fall through.
    fn go_to(&mut self, goto: &Option<String>) -> (r: Result<Request, ScenarioError>)
        requires
            old(self).wf(),
            old(self).position is Some,
            old(self).awaiting is None,
        ensures
            final(self).wf(),
            same_program(*final(self), *old(self)),
            (final(self).model(), result_view(r)) == goto_spec(old(self).model(), *goto, old(self).offsets()),
    {
        match goto {
            None => Ok(Request::Continue),
            Some(g) => {
                let off = match self.program.labels.get(g.as_str()) {
                    Some(o) => *o,
                    None => {
                        return Err(ScenarioError::DanglingLabel(g.clone()));
                    },
                };
                self.history.push(g.clone());
                proof {
                    crate::story_compile::lemma_strs_push_pub(old(self).history@, *g);
                }
                self.jump_ip(off);
                Ok(Request::Continue)
            },
        }
    }

    /// After the chosen choice's condition holds: run effects, else go.
    fn after_condition(&mut self, menu: MenuSpec, index: usize) -> (r: Result<Request, ScenarioError>)
        requires
            old(self).wf(),
            old(self).position is Some,
            old(self).awaiting is None,
            index < menu.choices@.len(),
        ensures
            final(self).wf(),
            same_program(*final(self), *old(self)),
            (final(self).model(), result_view(r)) == after_condition_spec(
                old(self).model(),
                menu_view(menu),
                index,
                old(self).offsets(),
            ),
    {
        match &menu.choices[index].effects {
            Some(fx) => {
                let fx = fx.clone();
                self.awaiting = Some(Awaiting::ChoiceEffects { menu, index });
                Ok(Request::Run(fx))
            },
            None => {
                let goto = clone_opt(&menu.choices[index].goto);
                self.go_to(&goto)
            },
        }
    }

    /// Answer a condition request (`Ok(open)` or the script's error).
    pub fn condition_result(&mut self, ans: Result<bool, String>) -> (r: Result<Request, ScenarioError>)
        requires
            old(self).wf(),
            old(self).model().awaiting matches Some(AwaitView::Branch { .. })
                || old(self).model().awaiting matches Some(AwaitView::ChoiceCondition { .. }),
        ensures
            final(self).wf(),
            same_program(*final(self), *old(self)),
            (final(self).model(), result_view(r)) == condition_spec(old(self).model(), ans, old(self).offsets()),
    {
        let aw = self.awaiting.take();
        match ans {
            Err(e) => Err(ScenarioError::Script(e)),
            Ok(ok) => match aw {
                Some(Awaiting::Branch { target }) => {
                    let ip = self.position.as_ref().unwrap().ip;
                    if ok {
                        proof {
                            self.lemma_next_in_range(ip as int);
                        }
                        self.step_ip();
                    } else {
                        assert(ir_target(self.prog()[ip as int]) is Some);
                        self.jump_ip(target);
                    }
                    Ok(Request::Continue)
                },
                Some(Awaiting::ChoiceCondition { menu, index }) => {
                    if ok {
                        self.after_condition(menu, index)
                    } else {
                        self.blocked = Some(Blocked::Menu(menu));
                        Err(ScenarioError::ChoiceUnavailable { index })
                    }
                },
                _ => {
                    self.awaiting = aw;
                    Ok(Request::Continue)
                },
            },
        }
    }

    /// Answer a run request (`Ok(())` or the script's error).
    pub fn run_result(&mut self, ans: Result<(), String>) -> (r: Result<Request, ScenarioError>)
        requires
            old(self).wf(),
            old(self).model().awaiting matches Some(AwaitView::Exec)
                || old(self).model().awaiting matches Some(AwaitView::ChoiceEffects { .. }),
        ensures
            final(self).wf(),
            same_program(*final(self), *old(self)),
            (final(self).model(), result_view(r)) == run_spec(old(self).model(), ans, old(self).offsets()),
    {
        let aw = self.awaiting.take();
        match ans {
            Err(e) => Err(ScenarioError::Script(e)),
            Ok(_) => match aw {
                Some(Awaiting::Exec) => {
                    let ip = self.position.as_ref().unwrap().ip;
                    proof {
                        self.lemma_next_in_range(ip as int);
                    }
                    self.step_ip();
                    Ok(Request::Continue)
                },
                Some(Awaiting::ChoiceEffects { menu, index }) => {
                    let goto = clone_opt(&menu.choices[index].goto);
                    self.go_to(&goto)
                },
                _ => {
                    self.awaiting = aw;
                    Ok(Request::Continue)
                },
            },
        }
    }

    /// Answer a menu-conditions request: `opens[i]` is the value of choice
    /// `i`'s condition (ignored for choices without one).
    pub fn menu_result(&mut self, opens: Vec<bool>) -> (r: Result<Request, ScenarioError>)
        requires
            old(self).wf(),
            old(self).model().awaiting matches Some(AwaitView::MenuConditions { menu, step_past })
                && opens@.len() == menu.choices.len(),
        ensures
            final(self).wf(),
            same_program(*final(self), *old(self)),
            (final(self).model(), result_view(r)) == menu_spec(old(self).model(), opens@),
    {
        let aw = self.awaiting.take();
        match aw {
            Some(Awaiting::MenuConditions { menu, step_past }) => {
                let choices = collect_menu_choices(&menu.choices, &opens);
                let prompt = clone_opt(&menu.prompt);
                if step_past {
                    let ip = self.position.as_ref().unwrap().ip;
                    proof {
                        self.lemma_next_in_range(ip as int);
                    }
                    self.step_ip();
                }
                self.blocked = Some(Blocked::Menu(menu));
                Ok(Request::Step(StepResult::Menu { prompt, choices }))
            },
            _ => {
                self.awaiting = aw;
                Ok(Request::Continue)
            },
        }
    }
}

impl StoryRunner {
    /// Compile + validate a story and build a runner for it (not started).
    pub fn new(story: &Story) -> (r: Result<StoryRunner, ScenarioError>)
        requires
            story_ir_len(*story) < u32::MAX,
        ensures
            compile_issues(*story).len() == 0 ==> (r matches Ok(run) && run.wf() && run.prog()
                == compiled_program(*story) && run.offsets() == label_map(
                story.labels.key_seq(),
                story.labels.val_seq(),
            ) && run.id_view() == story.id@ && run.entry_view() == story.entry@ && run.model()
                == (RunnerModel {
                pos: None,
                finished: false,
                blocked: None,
                pending: Seq::empty(),
                history: Seq::empty(),
                awaiting: None,
            })),
            compile_issues(*story).len() > 0 ==> (r matches Err(ScenarioError::Validation(v))
                && strs_view(v@) == compile_issues(*story)),
    {
        let program = match compile(story) {
            Ok(p) => p,
            Err(e) => return Err(e),
        };
        proof {
            assert(compile_issues(*story).len() == 0);
            assert(story.labels.key_seq().to_set().contains(story.entry@));
            assert(program.labels@.contains_key(story.entry@));
        }
        let r = StoryRunner {
            story_id: story.id.clone(),
            entry: story.entry.clone(),
            program,
            position: None,
            finished: false,
            blocked: None,
            awaiting: None,
            pending: Vec::new(),
            history: Vec::new(),
        };
        assert(r.model().pending =~= Seq::<Action>::empty());
        assert(r.model().history =~= Seq::<Seq<char>>::empty());
        proof {
            assert(irs_view(r.program.instrs@).len() == r.program.instrs@.len());
        }
        Ok(r)
    }

    /// The story id this runner was built from.
    pub fn story_id(&self) -> (r: &str)
        ensures
            r@ == self.id_view(),
    {
        self.story_id.as_str()
    }

    /// True once the story has finished.
    pub fn is_finished(&self) -> (r: bool)
        ensures
            r == self.model().finished,
    {
        self.finished
    }

    /// Current position (`None` before `start` / after finishing).
    pub fn position(&self) -> (r: Option<&StoryPosition>)
        ensures
            match r {
                Some(p) => self.model().pos == Some((p.ip_spec(), p.stack_spec())),
                None => self.model().pos is None,
            },
    {
        self.position.as_ref()
    }

    /// Labels entered so far (entry + jump/call/goto targets), in order.
    pub fn history(&self) -> (r: &Vec<String>)
        ensures
            strs_view(r@) == self.model().history,
    {
        &self.history
    }

    /// Whether the runner waits for a host answer.
    pub fn awaiting_answer(&self) -> (r: bool)
        ensures
            r == self.model().awaiting is Some,
    {
        self.awaiting.is_some()
    }

    /// Number of instructions in the compiled program.
    pub fn program_len(&self) -> (r: usize)
        ensures
            r == self.prog().len(),
    {
        self.program.instrs.len()
    }

    /// Whether `resume` may be called: no answer awaited, not blocked.
    pub fn can_resume(&self) -> (r: bool)
        ensures
            r == (self.model().awaiting is None && self.model().blocked is None),
    {
        self.awaiting.is_none() && self.blocked.is_none()
    }

    /// Take the presentation actions emitted since the last drain.
    pub fn drain_actions(&mut self) -> (r: Vec<Action>)
        requires
            old(self).wf(),
        ensures
            final(self).wf(),
            same_program(*final(self), *old(self)),
            r@ == old(self).model().pending,
            final(self).model() == (RunnerModel { pending: Seq::empty(), ..old(self).model() }),
    {
        let mut out: Vec<Action> = Vec::new();
        std::mem::swap(&mut out, &mut self.pending);
        assert(self.model().pending =~= Seq::<Action>::empty());
        out
    }

    /// Start at label `label` (replay-gallery entry point).
    pub fn start_at(&mut self, label: &str) -> (r: Result<Request, ScenarioError>)
        requires
            old(self).wf(),
            old(self).model().awaiting is None,
        ensures
            final(self).wf(),
            same_program(*final(self), *old(self)),
            old(self).offsets().contains_key(label@) ==> (r == Ok::<Request, ScenarioError>(
                Request::Continue,
            ) && final(self).model() == start_model(
                old(self).model(),
                old(self).offsets()[label@],
                label@,
            )),
            !old(self).offsets().contains_key(label@) ==> (r matches Err(
                ScenarioError::DanglingLabel(l),
            ) && l@ == label@ && final(self).model() == old(self).model()),
    {
        let off = match self.program.labels.get(label) {
            Some(o) => *o,
            None => return Err(ScenarioError::DanglingLabel(label.to_string())),
        };
        self.position = Some(StoryPosition { ip: off, call_stack: Vec::new() });
        self.finished = false;
        self.blocked = None;
        self.pending = Vec::new();
        self.history = Vec::new();
        self.history.push(label.to_string());
        assert(self.model().pending =~= Seq::<Action>::empty());
        assert(self.model().history =~= seq![label@]);
        assert(self.position->0.call_stack@ =~= Seq::<u32>::empty());
        Ok(Request::Continue)
    }

    /// Start the story at its entry label.
    pub fn start(&mut self) -> (r: Result<Request, ScenarioError>)
        requires
            old(self).wf(),
            old(self).model().awaiting is None,
        ensures
            final(self).wf(),
            same_program(*final(self), *old(self)),
            r == Ok::<Request, ScenarioError>(Request::Continue),
            final(self).model() == start_model(
                old(self).model(),
                old(self).offsets()[old(self).entry_view()],
                old(self).entry_view(),
            ),
    {
        let entry = self.entry.clone();
        self.start_at(entry.as_str())
    }

    /// Continue from a `Say` or `Pause`.
    pub fn advance(&mut self) -> (r: Result<Request, ScenarioError>)
        requires
            old(self).wf(),
            old(self).model().awaiting is None,
        ensures
            final(self).wf(),
            same_program(*final(self), *old(self)),
            (final(self).model(), result_view(r)) == advance_spec(old(self).model()),
    {
        if self.finished {
            return Err(ScenarioError::Finished);
        }
        if self.position.is_none() {
            return Err(ScenarioError::NotStarted);
        }
        match &self.blocked {
            Some(Blocked::Menu(_)) => Err(ScenarioError::BlockedAtMenu),
            Some(Blocked::Input { .. }) => Err(ScenarioError::BlockedAtInput),
            Some(_) => {
                self.blocked = None;
                Ok(Request::Continue)
            },
            None => Err(ScenarioError::NotStarted),
        }
    }

    /// Pick a menu choice by its authored index: check its condition (via
    /// the host), fire its effects (via the host), then transfer to `goto`
    /// or fall through past the menu.
    pub fn select(&mut self, source_index: usize) -> (r: Result<Request, ScenarioError>)
        requires
            old(self).wf(),
            old(self).model().awaiting is None,
        ensures
            final(self).wf(),
            same_program(*final(self), *old(self)),
            (final(self).model(), result_view(r)) == choose_spec(
                old(self).model(),
                source_index,
                old(self).offsets(),
            ),
    {
        if self.finished {
            return Err(ScenarioError::Finished);
        }
        if self.position.is_none() {
            return Err(ScenarioError::NotStarted);
        }
        let menu = match &self.blocked {
            Some(Blocked::Menu(m)) => clone_menu(m),
            Some(Blocked::Input { .. }) => return Err(ScenarioError::BlockedAtInput),
            _ => return Err(ScenarioError::NotBlockedAtMenu),
        };
        if source_index >= menu.choices.len() {
            return Err(
                ScenarioError::ChoiceOutOfRange { index: source_index, len: menu.choices.len() },
            );
        }
        self.blocked = None;
        match &menu.choices[source_index].condition {
            Some(cond) => {
                let cond = cond.clone();
                self.awaiting = Some(Awaiting::ChoiceCondition { menu, index: source_index });
                Ok(Request::EvalCondition(cond))
            },
            None => self.after_condition(menu, source_index),
        }
    }

    /// Submit text for a blocking text prompt: surrounding whitespace is
    /// stripped and an empty answer uses the authored default. The host
    /// writes the value (see [`Request::SetVar`]) and calls `resume`.
    pub fn submit_text(&mut self, text: &str) -> (r: Result<Request, ScenarioError>)
        requires
            old(self).wf(),
            old(self).model().awaiting is None,
        ensures
            final(self).wf(),
            same_program(*final(self), *old(self)),
            (final(self).model(), result_view(r)) == submit_spec(old(self).model(), text@),
    {
        if self.finished {
            return Err(ScenarioError::Finished);
        }
        if self.position.is_none() {
            return Err(ScenarioError::NotStarted);
        }
        let (var, default) = match &self.blocked {
            Some(Blocked::Input { var, default }) => (var.clone(), default.clone()),
            _ => return Err(ScenarioError::NotBlockedAtInput),
        };
        self.blocked = None;
        let cs = crate::text::chars_of(text);
        let t = crate::text::trim_chars(cs.as_slice());
        let value = if t.len() == 0 {
            default
        } else {
            crate::text::string_from(t.as_slice())
        };
        Ok(Request::SetVar { var, value })
    }

    /// Resume at a saved position and re-emit its blocking step. Queued
    /// actions are dropped; presentation is not replayed.
    pub fn restore(&mut self, pos: StoryPosition) -> (r: Result<Request, ScenarioError>)
        requires
            old(self).wf(),
            old(self).model().awaiting is None,
            pos.ip_spec() != old(self).prog().len(),
            forall|k: int|
                0 <= k < pos.stack_spec().len() ==> #[trigger] pos.stack_spec()[k] < old(self).prog().len(),
        ensures
            final(self).wf(),
            same_program(*final(self), *old(self)),
            (final(self).model(), result_view(r)) == restore_spec(
                old(self).model(),
                pos.ip_spec(),
                pos.stack_spec(),
                old(self).prog(),
            ),
    {
        let n = self.program.instrs.len();
        assert(self.prog().len() == n);
        if pos.ip as usize > n {
            return Err(ScenarioError::NotStarted);
        }
        let ip = pos.ip as usize;
        self.position = Some(pos);
        self.finished = false;
        self.blocked = None;
        self.pending = Vec::new();
        assert(self.model().pending =~= Seq::<Action>::empty());
        if ip == 0 {
            return Ok(Request::Continue);
        }
        let ghost prog = self.prog();
        assert(prog[ip - 1] == ir_view(self.program.instrs@[ip - 1]));
        match &self.program.instrs[ip - 1] {
            Ir::Say { who, text } => {
                let step = StepResult::Say { who: clone_opt(who), text: text.clone() };
                self.blocked = Some(Blocked::Say);
                Ok(Request::Step(step))
            },
            Ir::Pause { seconds } => {
                let step = StepResult::Pause { seconds: *seconds };
                self.blocked = Some(Blocked::Pause);
                Ok(Request::Step(step))
            },
            Ir::Menu(spec) => {
                let menu = clone_menu(spec);
                let conds = menu_conditions(&menu.choices);
                self.awaiting = Some(Awaiting::MenuConditions { menu, step_past: false });
                Ok(Request::EvalChoices(conds))
            },
            Ir::Input(spec) => {
                let default = match &spec.default {
                    Some(d) => d.clone(),
                    None => String::new(),
                };
                let step = StepResult::Input {
                    prompt: spec.prompt.clone(),
                    default: default.clone(),
                    var: spec.var.clone(),
                };
                let var = spec.var.clone();
                self.blocked = Some(Blocked::Input { var, default });
                Ok(Request::Step(step))
            },
            _ => Ok(Request::Continue),
        }
    }
}

// ── Laws ─────────────────────────────────────────────────────────────────

/// Saving the position after a blocking step and restoring it re-emits
/// that step: the same line, pause or prompt, blocked the same way, at the
/// same position; a menu asks for the same choice conditions and, given the
/// same answers, shows the same rows.
pub proof fn lemma_restore_reemits(
    m: RunnerModel,
    other: RunnerModel,
    prog: Seq<IrView>,
    offsets: Map<Seq<char>, u32>,
    ip: u32,
    st: Seq<u32>,
    opens: Seq<bool>,
)
    requires
        m.pos == Some((ip, st)),
        ip + 1 < prog.len(),
        prog.len() < u32::MAX,
        prog[ip as int] is Say || prog[ip as int] is Pause || prog[ip as int] is Input || prog[ip as int] is Menu,
    ensures
        ({
            let (m1, r1) = resume_spec(m, prog, offsets);
            let (m2, r2) = restore_spec(other, (ip + 1) as u32, st, prog);
            &&& r1 == r2
            &&& (prog[ip as int] is Menu) ==> menu_spec(m1, opens).1 == menu_spec(m2, opens).1
                && menu_spec(m1, opens).0.pos == menu_spec(m2, opens).0.pos
                && menu_spec(m1, opens).0.blocked == menu_spec(m2, opens).0.blocked
            &&& !(prog[ip as int] is Menu) ==> m1.pos == m2.pos && m1.blocked == m2.blocked
        }),
{
    let ip1 = (ip + 1) as u32;
    assert(ip1 - 1 == ip);
    assert(prog[ip1 - 1] == prog[ip as int]);
}

/// A menu choice whose condition the host answers false is refused: the
/// runner asks for the condition, answers `ChoiceUnavailable`, and stays
/// on the same menu (the player may pick again).
pub proof fn lemma_choice_fail_closed(
    m: RunnerModel,
    menu: MenuView,
    index: usize,
    offsets: Map<Seq<char>, u32>,
)
    requires
        !m.finished,
        m.pos is Some,
        m.blocked == Some(BlockedView::Menu(menu)),
        index < menu.choices.len(),
        menu.choices[index as int].condition is Some,
    ensures
        ({
            let (m1, r1) = choose_spec(m, index, offsets);
            let (m2, r2) = condition_spec(m1, Err::<bool, String>(arbitrary()), offsets);
            let (m3, r3) = condition_spec(m1, Ok::<bool, String>(false), offsets);
            &&& r1 == Ok::<RequestView, ScenarioError>(
                RequestView::EvalCondition(menu.choices[index as int].condition->0@),
            )
            &&& r3 == Err::<RequestView, ScenarioError>(ScenarioError::ChoiceUnavailable { index })
            &&& m3.blocked == Some(BlockedView::Menu(menu))
            &&& m3.pos == m.pos
            &&& r2 is Err
        }),
{
}

/// Running a `Hide` instruction queues exactly one presentation action: a
/// `Hide` of the same sprite (`None`, all sprites, only when the statement
/// names none) with the same transition. Earlier actions stay queued, the
/// runner moves past the instruction and asks to continue.
pub proof fn lemma_hide_queues_its_sprite(
    m: RunnerModel,
    prog: Seq<IrView>,
    offsets: Map<Seq<char>, u32>,
    ip: u32,
    st: Seq<u32>,
    spec: HideSpec,
)
    requires
        m.pos == Some((ip, st)),
        prog[ip as int] == IrView::Hide(spec),
    ensures
        ({
            let (m2, r) = resume_spec(m, prog, offsets);
            &&& m2.pending.len() == m.pending.len() + 1
            &&& m2.pending.subrange(0, m.pending.len() as int) == m.pending
            &&& m2.pending.last() matches Action::Hide { as_, with } && opt_str(as_) == opt_str(spec.as_)
                && with == spec.with
            &&& m2.pos == Some(((ip + 1) as u32, st))
            &&& r == Ok::<RequestView, ScenarioError>(RequestView::Continue)
        }),
{
    let m2 = resume_spec(m, prog, offsets).0;
    assert(m2.pending.subrange(0, m.pending.len() as int) =~= m.pending);
}

} // verus!
