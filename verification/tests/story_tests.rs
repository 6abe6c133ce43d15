use adventure::str_map::StrMap;
use adventure::story::{
    Channel, EndingSpec, IfSpec, InputSpec, MenuSpec, PauseSpec, PlaySpec, SaySpec, ScenarioError,
    SceneSpec, ShowSpec, Stmt, Story, StoryChoice, Transition,
};
use adventure::story_compile::{compile, Ir};
use adventure::story_runner::{Action, Request, StepResult, StoryPosition, StoryRunner};
use std::collections::{BTreeMap, BTreeSet};

/// A tiny script host that understands exactly the snippets the fixtures use.
#[derive(Default)]
struct Host {
    ints: BTreeMap<String, i64>,
    strs: BTreeMap<String, String>,
    tags: BTreeSet<String>,
}

fn quoted(s: &str) -> String {
    let a = s.find('"').unwrap();
    let b = s[a + 1..].find('"').unwrap();
    s[a + 1..a + 1 + b].to_string()
}

impl Host {
    fn eval(&self, cond: &str) -> Result<bool, String> {
        let c = cond.trim();
        if c.starts_with("has_tag(") {
            Ok(self.tags.contains(&quoted(c)))
        } else if c == "day >= 99" {
            Ok(*self.ints.get("day").unwrap_or(&0) >= 99)
        } else if c == "true" {
            Ok(true)
        } else {
            Err(format!("cannot evaluate {c}"))
        }
    }

    fn run(&mut self, src: &str) -> Result<(), String> {
        for part in src.split(';') {
            let p = part.trim();
            if p.is_empty() {
                continue;
            }
            if p == "set_int(\"desire\", desire + 1)" {
                *self.ints.entry("desire".into()).or_insert(0) += 1;
            } else if p.starts_with("set_int(") {
                let name = quoted(p);
                let n: i64 = p.rsplit(',').next().unwrap().trim().trim_end_matches(')').parse().unwrap();
                self.ints.insert(name, n);
            } else if p.starts_with("add_tag(") {
                self.tags.insert(quoted(p));
            } else {
                return Err(format!("cannot run {p}"));
            }
        }
        Ok(())
    }
}

/// Answer the runner's requests until it stops at a step for the player.
fn drive(runner: &mut StoryRunner, host: &mut Host, first: Result<Request, ScenarioError>) -> Result<StepResult, ScenarioError> {
    let mut req = first?;
    loop {
        req = match req {
            Request::Step(s) => return Ok(s),
            Request::Continue => runner.resume()?,
            Request::EvalCondition(c) => runner.condition_result(host.eval(&c))?,
            Request::Run(s) => {
                let r = host.run(&s);
                runner.run_result(r)?
            }
            Request::EvalChoices(cs) => {
                let opens = cs
                    .iter()
                    .map(|c| match c {
                        Some(e) => host.eval(e).unwrap_or(false),
                        None => true,
                    })
                    .collect();
                runner.menu_result(opens)?
            }
            Request::SetVar { var, value } => {
                host.strs.insert(var, value);
                runner.resume()?
            }
        };
    }
}

fn narrate(t: &str) -> Stmt {
    Stmt::Narrate(t.to_string())
}

fn say(who: &str, t: &str) -> Stmt {
    Stmt::Say(SaySpec { who: Some(who.to_string()), text: t.to_string() })
}

fn choice(text: &str, condition: Option<&str>, effects: Option<&str>, goto: Option<&str>) -> StoryChoice {
    StoryChoice {
        text: text.to_string(),
        condition: condition.map(String::from),
        effects: effects.map(String::from),
        goto: goto.map(String::from),
    }
}

fn story_of(id: &str, entry: &str, labels: Vec<(&str, Vec<Stmt>)>) -> Story {
    // Labels in name order, as the authored map keeps them.
    let mut sorted: BTreeMap<String, Vec<Stmt>> = BTreeMap::new();
    for (name, stmts) in labels {
        sorted.insert(name.to_string(), stmts);
    }
    let mut map = StrMap::new();
    for (name, stmts) in sorted {
        map.insert(name, stmts);
    }
    Story { id: id.to_string(), entry: entry.to_string(), labels: map }
}

fn story() -> Story {
    story_of(
        "fixture",
        "start",
        vec![
            (
                "start",
                vec![
                    Stmt::Scene(SceneSpec { bg: "bg/kitchen_day".into(), with: Some(Transition::Dissolve(1.0f32.to_bits())) }),
                    Stmt::Play(PlaySpec {
                        channel: Channel::Music,
                        asset: "music/spark".into(),
                        volume: Some(0.4f32.to_bits()),
                        fade_in: None,
                        loop_: false,
                    }),
                    narrate("Another day begins."),
                    say("kevin", "Just the usual work stuff."),
                    Stmt::Exec("set_int(\"day\", 1); add_tag(\"State.Ch1.Started\")".into()),
                    Stmt::If(IfSpec {
                        condition: "has_tag(\"State.Path.Frank\")".into(),
                        then_: vec![say("rachel", "Why him?")],
                        else_: Some(vec![narrate("A quiet day.")]),
                    }),
                    Stmt::Menu(MenuSpec {
                        prompt: Some("What now?".into()),
                        choices: vec![
                            choice("Go left", None, Some("set_int(\"desire\", desire + 1)"), Some("left")),
                            choice("Go right", None, None, Some("right")),
                            choice("Secret", Some("has_tag(\"State.Ch1.Started\")"), None, Some("secret")),
                            choice("Locked", Some("day >= 99"), None, None),
                        ],
                    }),
                ],
            ),
            (
                "left",
                vec![
                    Stmt::Scene(SceneSpec { bg: "cg/rthm20".into(), with: Some(Transition::Fade(0.5f32.to_bits())) }),
                    Stmt::Pause(PauseSpec { seconds: 0.8f32.to_bits() }),
                    Stmt::Ending(EndingSpec { id: Some("gave_in".into()) }),
                ],
            ),
            ("right", vec![narrate("She focused."), Stmt::Return]),
            ("secret", vec![say("kevin", "A secret."), Stmt::Call("helper".into()), narrate("Back from helper.")]),
            ("helper", vec![narrate("Helper ran."), Stmt::Return]),
        ],
    )
}

fn start(runner: &mut StoryRunner, host: &mut Host) -> StepResult {
    let r = runner.start();
    drive(runner, host, r).unwrap()
}

fn advance(runner: &mut StoryRunner, host: &mut Host) -> Result<StepResult, ScenarioError> {
    let r = runner.advance();
    drive(runner, host, r)
}

fn pick(runner: &mut StoryRunner, host: &mut Host, i: usize) -> Result<StepResult, ScenarioError> {
    let r = runner.select(i);
    drive(runner, host, r)
}

fn to_menu(runner: &mut StoryRunner, host: &mut Host) -> StepResult {
    let mut step = start(runner, host);
    while let StepResult::Say { .. } = step {
        step = advance(runner, host).unwrap();
    }
    step
}

fn issues(e: ScenarioError) -> String {
    match e {
        ScenarioError::Validation(v) => v.join("\n"),
        other => panic!("expected validation error, got {other:?}"),
    }
}

#[test]
fn missing_entry_fails_validation() {
    let story = story_of("t", "nope", vec![("a", vec![Stmt::Return])]);
    let msg = issues(compile(&story).unwrap_err());
    assert!(msg.contains("entry label"), "{msg}");
    assert_eq!(msg, "entry label `nope` does not exist");
}

#[test]
fn dangling_jump_fails_validation() {
    let story = story_of("t", "a", vec![("a", vec![Stmt::Jump("ghost".into())])]);
    let msg = issues(compile(&story).unwrap_err());
    assert!(msg.contains("unknown label `ghost`"));
}

#[test]
fn dangling_menu_goto_fails_validation() {
    let story = story_of(
        "t",
        "a",
        vec![("a", vec![Stmt::Menu(MenuSpec { prompt: None, choices: vec![choice("x", None, None, Some("ghost"))] })])],
    );
    let msg = issues(compile(&story).unwrap_err());
    assert!(msg.contains("goto `ghost`"));
    assert_eq!(msg, "label `a`: menu choice 0 goto `ghost` does not exist");
}

#[test]
fn bad_rhai_fails_validation() {
    let story = story_of("t", "a", vec![("a", vec![Stmt::Exec("this is ( not rhai".into())])]);
    let msg = issues(compile(&story).unwrap_err());
    assert!(msg.starts_with("label `a`: Exec does not compile: "));
}

#[test]
fn if_lowering_produces_patched_jumps() {
    let story = story_of(
        "t",
        "a",
        vec![(
            "a",
            vec![
                Stmt::If(IfSpec {
                    condition: "true".into(),
                    then_: vec![narrate("t")],
                    else_: Some(vec![narrate("e")]),
                }),
                Stmt::Ending(EndingSpec { id: None }),
            ],
        )],
    );
    let compiled = compile(&story).unwrap();
    let kinds: String = compiled
        .instrs
        .iter()
        .map(|i| match i {
            Ir::JumpIfFalse { .. } => 'F',
            Ir::Say { .. } => 'S',
            Ir::Jump(_) => 'J',
            Ir::Return => 'R',
            Ir::Ending { .. } => 'E',
            _ => '?',
        })
        .collect();
    assert_eq!(kinds, "FSJSER");
    match &compiled.instrs[0] {
        Ir::JumpIfFalse { target, .. } => assert_eq!(*target, 3),
        other => panic!("expected JumpIfFalse, got {other:?}"),
    }
    match &compiled.instrs[2] {
        Ir::Jump(target) => assert_eq!(*target, 4),
        other => panic!("expected Jump, got {other:?}"),
    }
}

#[test]
fn compile_label_offsets_follow_label_order() {
    let compiled = compile(&story()).unwrap();
    // helper(2+1) left(3+1) right(2+1) secret(3+1) start(...)
    assert_eq!(compiled.labels.get("helper"), Some(&0));
    assert_eq!(compiled.labels.get("left"), Some(&3));
    assert_eq!(compiled.labels.get("right"), Some(&7));
    assert_eq!(compiled.labels.get("secret"), Some(&10));
    assert_eq!(compiled.labels.get("start"), Some(&14));
    match &compiled.instrs[11] {
        Ir::Call(t) => assert_eq!(*t, 0),
        other => panic!("expected Call, got {other:?}"),
    }
}

#[test]
fn start_runs_to_first_say_emitting_actions() {
    let mut host = Host::default();
    let mut runner = StoryRunner::new(&story()).unwrap();
    let step = start(&mut runner, &mut host);
    assert!(matches!(step, StepResult::Say { who: None, ref text } if text == "Another day begins."));
    let actions = runner.drain_actions();
    assert_eq!(actions.len(), 2);
    assert!(matches!(&actions[0], Action::Scene { bg, .. } if bg == "bg/kitchen_day"));
    assert!(matches!(&actions[1], Action::Play { channel: Channel::Music, .. }));
    assert!(runner.drain_actions().is_empty(), "drain is destructive");
}

#[test]
fn full_run_choice_left_reaches_ending() {
    let mut host = Host::default();
    let mut runner = StoryRunner::new(&story()).unwrap();
    let mut step = start(&mut runner, &mut host);
    let mut says = 0;
    loop {
        match step {
            StepResult::Say { .. } => {
                says += 1;
                step = advance(&mut runner, &mut host).unwrap();
            }
            StepResult::Menu { choices, .. } => {
                assert_eq!(choices.len(), 4, "locked rows stay listed");
                assert!(!choices[2].locked && choices[2].text == "Secret");
                assert!(choices[3].locked && choices[3].text == "Locked");
                assert_eq!(choices[3].lock_reason.as_deref(), Some("day >= 99"));
                step = pick(&mut runner, &mut host, 0).unwrap();
            }
            StepResult::Pause { seconds } => {
                assert!((f32::from_bits(seconds) - 0.8).abs() < 1e-6);
                step = advance(&mut runner, &mut host).unwrap();
            }
            StepResult::Finished { ending } => {
                assert_eq!(ending.as_deref(), Some("gave_in"));
                break;
            }
            StepResult::Input { .. } => panic!("fixture has no Input"),
        }
    }
    assert!(says >= 3);
    assert!(runner.is_finished());
    assert!(runner.position().is_none());
    assert_eq!(host.ints.get("desire"), Some(&1));
    assert_eq!(host.ints.get("day"), Some(&1));
    assert!(host.tags.contains("State.Ch1.Started"));
    let actions = runner.drain_actions();
    assert_eq!(actions.len(), 3);
    assert!(matches!(&actions[2], Action::Scene { bg, .. } if bg == "cg/rthm20"));
}

#[test]
fn choice_right_returns_and_finishes() {
    let mut host = Host::default();
    let mut runner = StoryRunner::new(&story()).unwrap();
    let step = to_menu(&mut runner, &mut host);
    assert!(matches!(step, StepResult::Menu { .. }));
    let step = pick(&mut runner, &mut host, 1).unwrap();
    assert!(matches!(step, StepResult::Say { .. }));
    let step = advance(&mut runner, &mut host).unwrap();
    assert!(matches!(step, StepResult::Finished { ending: None }));
}

#[test]
fn call_returns_to_call_site() {
    let mut host = Host::default();
    let mut runner = StoryRunner::new(&story()).unwrap();
    to_menu(&mut runner, &mut host);
    let step = pick(&mut runner, &mut host, 2).unwrap();
    assert!(matches!(step, StepResult::Say { who: Some(ref w), .. } if w == "kevin"));
    let step = advance(&mut runner, &mut host).unwrap();
    assert!(matches!(step, StepResult::Say { who: None, ref text } if text == "Helper ran."));
    let step = advance(&mut runner, &mut host).unwrap();
    assert!(matches!(step, StepResult::Say { who: None, ref text } if text == "Back from helper."));
    let step = advance(&mut runner, &mut host).unwrap();
    assert!(matches!(step, StepResult::Finished { ending: None }));
}

#[test]
fn locked_choice_is_fail_closed() {
    let mut host = Host::default();
    let mut runner = StoryRunner::new(&story()).unwrap();
    to_menu(&mut runner, &mut host);
    let err = pick(&mut runner, &mut host, 3).unwrap_err();
    assert!(matches!(err, ScenarioError::ChoiceUnavailable { index: 3 }));
    let err = pick(&mut runner, &mut host, 9).unwrap_err();
    assert!(matches!(err, ScenarioError::ChoiceOutOfRange { index: 9, len: 4 }));
    // Still on the menu: another choice works.
    assert!(pick(&mut runner, &mut host, 1).is_ok());
}

#[test]
fn advance_on_menu_and_choose_on_say_are_contract_errors() {
    let mut host = Host::default();
    let mut runner = StoryRunner::new(&story()).unwrap();
    to_menu(&mut runner, &mut host);
    let err = advance(&mut runner, &mut host).unwrap_err();
    assert!(matches!(err, ScenarioError::BlockedAtMenu));

    let mut host2 = Host::default();
    let mut runner2 = StoryRunner::new(&story()).unwrap();
    let _ = start(&mut runner2, &mut host2);
    let err = pick(&mut runner2, &mut host2, 0).unwrap_err();
    assert!(matches!(err, ScenarioError::NotBlockedAtMenu));
}

#[test]
fn after_finished_further_calls_error() {
    let mut host = Host::default();
    let mut runner = StoryRunner::new(&story()).unwrap();
    to_menu(&mut runner, &mut host);
    let _ = pick(&mut runner, &mut host, 1).unwrap();
    let step = advance(&mut runner, &mut host).unwrap();
    assert!(matches!(step, StepResult::Finished { .. }));
    assert!(matches!(runner.advance(), Err(ScenarioError::Finished)));
}

#[test]
fn history_records_label_transfers() {
    let mut host = Host::default();
    let mut runner = StoryRunner::new(&story()).unwrap();
    to_menu(&mut runner, &mut host);
    let step = pick(&mut runner, &mut host, 2).unwrap();
    assert!(matches!(step, StepResult::Say { .. }));
    let _ = advance(&mut runner, &mut host).unwrap();
    let names: Vec<&str> = runner.history().iter().map(String::as_str).collect();
    assert_eq!(names, vec!["start", "secret", "helper"]);
}

#[test]
fn position_serializes_for_saves() {
    let mut host = Host::default();
    let mut runner = StoryRunner::new(&story()).unwrap();
    let _ = start(&mut runner, &mut host);
    let pos = runner.position().unwrap().clone();
    let back = StoryPosition::from_parts(pos.ip(), pos.call_stack().to_vec());
    assert_eq!(pos, back);
    assert_eq!(back.call_depth(), 0);
}

#[test]
fn start_at_runs_replay_label() {
    let mut host = Host::default();
    let mut runner = StoryRunner::new(&story()).unwrap();
    let r = runner.start_at("left");
    let step = drive(&mut runner, &mut host, r).unwrap();
    assert!(matches!(step, StepResult::Pause { .. }));
    assert!(matches!(runner.start_at("nowhere"), Err(ScenarioError::DanglingLabel(ref l)) if l == "nowhere"));
}

fn names_story(second_default: bool) -> Story {
    let mut body = vec![Stmt::Input(InputSpec {
        prompt: "Your name?".into(),
        var: "kevinname".into(),
        default: Some("Kevin".into()),
    })];
    if second_default {
        body.push(Stmt::Input(InputSpec { prompt: "Partner?".into(), var: "rachelname".into(), default: None }));
        body.push(narrate("done"));
    } else {
        body.push(narrate("hello"));
    }
    story_of("names", "start", vec![("start", body)])
}

#[test]
fn input_writes_var_and_empty_uses_default() {
    let story = names_story(true);
    let mut host = Host::default();
    let mut runner = StoryRunner::new(&story).unwrap();
    let step = start(&mut runner, &mut host);
    match step {
        StepResult::Input { prompt, default, var } => {
            assert_eq!(prompt, "Your name?");
            assert_eq!(default, "Kevin");
            assert_eq!(var, "kevinname");
        }
        other => panic!("expected Input, got {other:?}"),
    }
    assert!(matches!(runner.advance(), Err(ScenarioError::BlockedAtInput)));
    let r = runner.submit_text("  ");
    let step = drive(&mut runner, &mut host, r).unwrap();
    assert_eq!(host.strs.get("kevinname").map(String::as_str), Some("Kevin"));
    match step {
        StepResult::Input { var, default, .. } => {
            assert_eq!(var, "rachelname");
            assert_eq!(default, "");
        }
        other => panic!("expected second Input, got {other:?}"),
    }
    let r = runner.submit_text("  Rachel  ");
    let step = drive(&mut runner, &mut host, r).unwrap();
    assert_eq!(host.strs.get("rachelname").map(String::as_str), Some("Rachel"));
    assert!(matches!(step, StepResult::Say { .. }));
}

#[test]
fn restore_reemits_blocking_input() {
    let story = names_story(false);
    let mut host = Host::default();
    let mut runner = StoryRunner::new(&story).unwrap();
    start(&mut runner, &mut host);
    let pos = runner.position().unwrap().clone();
    let mut runner2 = StoryRunner::new(&story).unwrap();
    let r = runner2.restore(pos);
    let step = drive(&mut runner2, &mut host, r).unwrap();
    match step {
        StepResult::Input { var, default, .. } => {
            assert_eq!(var, "kevinname");
            assert_eq!(default, "Kevin");
        }
        other => panic!("expected Input, got {other:?}"),
    }
    let r = runner2.submit_text("Ada");
    drive(&mut runner2, &mut host, r).unwrap();
    assert_eq!(host.strs.get("kevinname").map(String::as_str), Some("Ada"));
}

#[test]
fn restore_past_program_is_not_started() {
    let story = names_story(false);
    let mut runner = StoryRunner::new(&story).unwrap();
    assert!(matches!(runner.restore(StoryPosition::from_parts(99, vec![])), Err(ScenarioError::NotStarted)));
}

#[test]
fn scene_webm_emits_movie_action() {
    let story = story_of(
        "m",
        "start",
        vec![(
            "start",
            vec![
                Stmt::Scene(SceneSpec { bg: "images/animations/anima1.webm".into(), with: None }),
                Stmt::Show(ShowSpec { sprite: "clip.webm".into(), at: None, as_: None, with: None }),
                narrate("ok"),
            ],
        )],
    );
    let mut host = Host::default();
    let mut runner = StoryRunner::new(&story).unwrap();
    let _ = start(&mut runner, &mut host);
    let actions = runner.drain_actions();
    assert!(matches!(&actions[0], Action::Scene { bg, .. } if bg.ends_with(".webm")));
    assert!(matches!(&actions[1], Action::Movie { path, loop_ } if path.ends_with("anima1.webm") && *loop_));
    assert!(matches!(&actions[2], Action::Show { .. }));
    assert!(matches!(&actions[3], Action::Movie { path, loop_ } if path.ends_with("clip.webm") && *loop_));
}

#[test]
fn script_error_surfaces() {
    let story = story_of("e", "a", vec![("a", vec![Stmt::Exec("launch_rockets()".into()), narrate("x")])]);
    let mut host = Host::default();
    let mut runner = StoryRunner::new(&story).unwrap();
    let r = runner.start();
    let err = drive(&mut runner, &mut host, r).unwrap_err();
    assert!(matches!(err, ScenarioError::Script(ref m) if m.contains("launch_rockets")));
}
