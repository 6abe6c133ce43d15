use adventure::dialogue::{
    Choice, DialogNode, DialogRequest, DialogRunner, DialogTree, DialogueError, VisibleChoice,
    MAX_CONDITION_SKIPS,
};
use adventure::str_map::StrMap;
use std::collections::{BTreeMap, BTreeSet};

/// A small script host that understands the snippets these trees use.
#[derive(Default, Clone)]
struct Host {
    ints: BTreeMap<String, i64>,
    tags: BTreeSet<String>,
}

fn quoted(s: &str) -> String {
    let a = s.find('"').unwrap();
    let b = s[a + 1..].find('"').unwrap();
    s[a + 1..a + 1 + b].to_string()
}

impl Host {
    fn eval(&self, cond: &str) -> Result<bool, String> {
        let c = cond.trim();
        if c.starts_with("has_tag(") {
            Ok(self.tags.contains(&quoted(c)))
        } else if c == "true" {
            Ok(true)
        } else if c == "false" {
            Ok(false)
        } else {
            Err(format!("cannot evaluate {c}"))
        }
    }

    fn run(&mut self, src: &str) -> Result<(), String> {
        let p = src.trim();
        if p.starts_with("set_int(") {
            let name = quoted(p);
            let n: i64 = p.rsplit(',').next().unwrap().trim().trim_end_matches(')').parse().unwrap();
            self.ints.insert(name, n);
            Ok(())
        } else if p.starts_with("add_tag(") {
            self.tags.insert(quoted(p));
            Ok(())
        } else {
            Err(format!("cannot run {p}"))
        }
    }
}

/// Answer the runner's requests until it needs nothing more.
fn drive(
    r: &mut DialogRunner,
    t: &DialogTree,
    host: &mut Host,
    first: Result<DialogRequest, DialogueError>,
) -> Result<(), DialogueError> {
    let mut req = first?;
    loop {
        req = match req {
            DialogRequest::Done => return Ok(()),
            DialogRequest::EvalCondition(c) => {
                let ans = host.eval(&c);
                r.condition_result(t, ans)?
            }
            DialogRequest::Run(fx) => {
                let ans = host.run(&fx);
                r.run_result(t, ans)?
            }
        };
    }
}

fn start(r: &mut DialogRunner, t: &DialogTree, host: &mut Host) -> Result<(), DialogueError> {
    let first = r.start(t);
    drive(r, t, host, first)
}

fn start_at(r: &mut DialogRunner, t: &DialogTree, id: &str, host: &mut Host) -> Result<(), DialogueError> {
    let first = r.start_at(t, id);
    drive(r, t, host, first)
}

fn advance(r: &mut DialogRunner, t: &DialogTree, host: &mut Host) -> Result<(), DialogueError> {
    let first = r.advance(t);
    drive(r, t, host, first)
}

fn select(r: &mut DialogRunner, t: &DialogTree, host: &mut Host, i: usize) -> Result<(), DialogueError> {
    let first = r.select(t, i);
    drive(r, t, host, first)
}

fn visible(r: &DialogRunner, t: &DialogTree, host: &Host) -> Vec<VisibleChoice> {
    let opens: Vec<bool> = r
        .choice_conditions(t)
        .iter()
        .map(|c| match c {
            Some(src) => host.eval(src).unwrap_or(false),
            None => true,
        })
        .collect();
    r.visible_choices(t, &opens)
}

fn tree(id: &str, entry: &str, nodes: Vec<DialogNode>) -> DialogTree {
    let mut map = StrMap::new();
    for n in nodes {
        map.insert(n.id.clone(), n);
    }
    DialogTree { id: id.to_string(), entry: entry.to_string(), nodes: map }
}

fn bob_tree() -> DialogTree {
    tree(
        "bob",
        "intro",
        vec![
            DialogNode::linear("intro", "Bob", "Hello.", Some("ask"))
                .with_on_enter("add_tag(\"State.NPC.Bob.Met\")"),
            DialogNode::branching(
                "ask",
                "Bob",
                "What do you want?",
                vec![
                    Choice::new("Money", Some("give")).with_side_effects("set_int(\"greed\", 1)"),
                    Choice::new("Secret", Some("secret")).with_condition("has_tag(\"State.NPC.Bob.Met\")"),
                    Choice::new("Bye", None::<&str>),
                ],
            ),
            DialogNode::linear("give", "Bob", "Here you go.", None::<&str>),
            DialogNode::linear("secret", "Bob", "The secret is: 42.", None::<&str>),
        ],
    )
}

fn bob_validate_tree() -> DialogTree {
    tree(
        "bob",
        "intro",
        vec![
            DialogNode::linear("intro", "Bob", "Hello.", Some("ask")),
            DialogNode::branching(
                "ask",
                "Bob",
                "What do you want?",
                vec![Choice::new("Money", Some("give")), Choice::new("Nothing", None::<&str>)],
            ),
            DialogNode::linear("give", "Bob", "Here you go.", None::<&str>)
                .with_on_enter("add_tag(\"State.NPC.Bob.Gave\")"),
        ],
    )
}

#[test]
fn branching_node_with_choice() {
    let n = DialogNode::branching(
        "ask",
        "Bob",
        "What do you want?",
        vec![
            Choice::new("Money", Some("give_money")),
            Choice::new("Nothing", None::<&str>).with_condition("has_tag(\"State.NPC.Bob.Met\")"),
        ],
    );
    assert!(n.is_branching());
    assert!(!n.is_terminal());
    assert_eq!(n.choices.len(), 2);
}

#[test]
fn terminal_node() {
    let n = DialogNode::linear("bye", "Bob", "Goodbye.", None::<&str>);
    assert!(n.is_terminal());
    assert!(!n.is_branching());
}

#[test]
fn start_fires_on_enter_and_lands_on_entry() {
    let t = bob_tree();
    let mut host = Host::default();
    let mut r = DialogRunner::new(&t);
    start(&mut r, &t, &mut host).unwrap();
    assert_eq!(r.current_id(), Some("intro"));
    assert!(host.tags.contains("State.NPC.Bob.Met"));
}

#[test]
fn advance_linear_node_moves_to_next() {
    let t = bob_tree();
    let mut host = Host::default();
    let mut r = DialogRunner::new(&t);
    start(&mut r, &t, &mut host).unwrap();
    advance(&mut r, &t, &mut host).unwrap();
    assert_eq!(r.current_id(), Some("ask"));
}

#[test]
fn visible_choices_filters_by_condition() {
    let t = bob_tree();
    let mut host_clean = Host::default();
    let mut r = DialogRunner::new(&t);
    start_at(&mut r, &t, "ask", &mut host_clean).unwrap();
    let vis = visible(&r, &t, &host_clean);
    assert_eq!(vis.len(), 2);
    assert!(vis.iter().all(|c| c.text != "Secret"));

    let mut host_met = host_clean.clone();
    host_met.tags.insert("State.NPC.Bob.Met".to_string());
    let vis = visible(&r, &t, &host_met);
    assert_eq!(vis.len(), 3);
    assert!(vis.iter().any(|c| c.text == "Secret"));
    assert_eq!(vis[1].source_index, 1);
}

#[test]
fn choose_runs_side_effects_and_advances() {
    let t = bob_tree();
    let mut host = Host::default();
    let mut r = DialogRunner::new(&t);
    start(&mut r, &t, &mut host).unwrap();
    advance(&mut r, &t, &mut host).unwrap();
    select(&mut r, &t, &mut host, 0).unwrap();
    assert_eq!(r.current_id(), Some("give"));
    assert_eq!(host.ints.get("greed"), Some(&1));
}

#[test]
fn choose_with_no_next_finishes_conversation() {
    let t = bob_tree();
    let mut host = Host::default();
    let mut r = DialogRunner::new(&t);
    start(&mut r, &t, &mut host).unwrap();
    advance(&mut r, &t, &mut host).unwrap();
    select(&mut r, &t, &mut host, 2).unwrap();
    assert!(r.is_finished());
    assert_eq!(r.current_id(), None);
}

#[test]
fn choose_out_of_range_errors() {
    let t = bob_tree();
    let mut host = Host::default();
    let mut r = DialogRunner::new(&t);
    start(&mut r, &t, &mut host).unwrap();
    advance(&mut r, &t, &mut host).unwrap();
    let err = select(&mut r, &t, &mut host, 99).unwrap_err();
    assert!(matches!(err, DialogueError::ChoiceOutOfRange { index: 99, .. }));
}

#[test]
fn advance_on_branching_errors() {
    let t = bob_tree();
    let mut host = Host::default();
    let mut r = DialogRunner::new(&t);
    start(&mut r, &t, &mut host).unwrap();
    advance(&mut r, &t, &mut host).unwrap();
    let err = advance(&mut r, &t, &mut host).unwrap_err();
    assert!(matches!(err, DialogueError::Branching));
}

#[test]
fn history_records_visited_nodes() {
    let t = bob_tree();
    let mut host = Host::default();
    let mut r = DialogRunner::new(&t);
    start(&mut r, &t, &mut host).unwrap();
    advance(&mut r, &t, &mut host).unwrap();
    select(&mut r, &t, &mut host, 0).unwrap();
    assert_eq!(
        r.history().iter().map(|s| s.as_str()).collect::<Vec<_>>(),
        vec!["intro", "ask", "give"]
    );
}

#[test]
fn choose_rejects_gated_choice() {
    let t = bob_tree();
    let mut host = Host::default();
    let mut r = DialogRunner::new(&t);
    start_at(&mut r, &t, "ask", &mut host).unwrap();
    let err = select(&mut r, &t, &mut host, 1).unwrap_err();
    assert!(matches!(err, DialogueError::ChoiceUnavailable { index: 1 }));
    assert_eq!(r.current_id(), Some("ask"));
}

#[test]
fn node_condition_skips_to_next() {
    let t = tree(
        "skip",
        "intro",
        vec![
            DialogNode::linear("intro", "N", "hi", Some("gated")),
            DialogNode::linear("gated", "N", "skip me", Some("land")).with_condition("false"),
            DialogNode::linear("land", "N", "made it", None::<&str>),
        ],
    );
    let mut host = Host::default();
    let mut r = DialogRunner::new(&t);
    start(&mut r, &t, &mut host).unwrap();
    assert_eq!(r.current_id(), Some("intro"));
    advance(&mut r, &t, &mut host).unwrap();
    assert_eq!(r.current_id(), Some("land"));
    assert!(r.history().iter().any(|id| id.as_str() == "land"));
    assert!(!r.history().iter().any(|id| id.as_str() == "gated"));
}

#[test]
fn validate_clean_tree() {
    assert!(bob_validate_tree().validate().is_ok());
}

#[test]
fn validate_missing_entry() {
    let mut t = bob_validate_tree();
    t.entry = "nope".into();
    assert!(matches!(t.validate(), Err(DialogueError::MissingEntry(_))));
}

#[test]
fn validate_dangling_next() {
    let mut t = bob_validate_tree();
    let mut intro = t.nodes.get("intro").unwrap().clone();
    intro.next = Some("ghost".into());
    t.nodes.insert("intro".into(), intro);
    match t.validate() {
        Err(DialogueError::DanglingRef { from, to }) => {
            assert_eq!(from, "intro");
            assert_eq!(to, "ghost");
        }
        other => panic!("expected DanglingRef, got {other:?}"),
    }
}

#[test]
fn validate_dangling_choice_target() {
    let mut t = bob_validate_tree();
    let ask = DialogNode::branching("ask", "Bob", "?", vec![Choice::new("Go", Some("nowhere"))]);
    t.nodes.insert("ask".into(), ask);
    match t.validate() {
        Err(DialogueError::DanglingRef { from, to }) => {
            assert_eq!(from, "ask");
            assert_eq!(to, "nowhere");
        }
        other => panic!("expected DanglingRef, got {other:?}"),
    }
}

#[test]
fn advance_before_start_errors() {
    let t = bob_tree();
    let mut host = Host::default();
    let mut r = DialogRunner::new(&t);
    assert!(matches!(advance(&mut r, &t, &mut host), Err(DialogueError::NotStarted)));
}

#[test]
fn advance_after_finish_errors() {
    let t = bob_tree();
    let mut host = Host::default();
    let mut r = DialogRunner::new(&t);
    start(&mut r, &t, &mut host).unwrap();
    advance(&mut r, &t, &mut host).unwrap();
    select(&mut r, &t, &mut host, 2).unwrap();
    assert!(matches!(advance(&mut r, &t, &mut host), Err(DialogueError::Finished)));
}

#[test]
fn select_on_linear_node_errors() {
    let t = bob_tree();
    let mut host = Host::default();
    let mut r = DialogRunner::new(&t);
    start(&mut r, &t, &mut host).unwrap();
    assert!(matches!(select(&mut r, &t, &mut host, 0), Err(DialogueError::Linear)));
}

#[test]
fn terminal_advance_finishes() {
    let t = bob_tree();
    let mut host = Host::default();
    let mut r = DialogRunner::new(&t);
    start_at(&mut r, &t, "give", &mut host).unwrap();
    advance(&mut r, &t, &mut host).unwrap();
    assert!(r.is_finished());
    assert_eq!(r.current_id(), None);
}

#[test]
fn start_at_missing_node_is_dangling() {
    let t = bob_tree();
    let mut host = Host::default();
    let mut r = DialogRunner::new(&t);
    match start_at(&mut r, &t, "ghost", &mut host) {
        Err(DialogueError::DanglingRef { from, to }) => {
            assert_eq!(from, "<start>");
            assert_eq!(to, "ghost");
        }
        other => panic!("expected DanglingRef, got {other:?}"),
    }
}

#[test]
fn script_error_fails_closed() {
    let t = tree(
        "err",
        "a",
        vec![DialogNode::linear("a", "N", "x", None::<&str>).with_condition("bogus()")],
    );
    let mut host = Host::default();
    let mut r = DialogRunner::new(&t);
    assert!(matches!(start(&mut r, &t, &mut host), Err(DialogueError::Script(_))));
    assert_eq!(r.current_id(), None);
}

#[test]
fn skip_chain_past_limit_errors() {
    let n = MAX_CONDITION_SKIPS + 2;
    let mut nodes = Vec::new();
    for i in 0..n {
        let id = format!("n{i}");
        let next = format!("n{}", i + 1);
        nodes.push(DialogNode::linear(&id, "N", "x", Some(&next)).with_condition("false"));
    }
    nodes.push(DialogNode::linear(&format!("n{n}"), "N", "end", None::<&str>));
    let t = tree("chain", "n0", nodes);
    let mut host = Host::default();
    let mut r = DialogRunner::new(&t);
    assert!(matches!(start(&mut r, &t, &mut host), Err(DialogueError::ConditionSkipLimit)));
}

#[test]
fn skip_chain_within_limit_lands() {
    let n = MAX_CONDITION_SKIPS;
    let mut nodes = Vec::new();
    for i in 0..n {
        let id = format!("n{i}");
        let next = format!("n{}", i + 1);
        nodes.push(DialogNode::linear(&id, "N", "x", Some(&next)).with_condition("false"));
    }
    nodes.push(DialogNode::linear(&format!("n{n}"), "N", "end", None::<&str>));
    let t = tree("chain", "n0", nodes);
    let mut host = Host::default();
    let mut r = DialogRunner::new(&t);
    start(&mut r, &t, &mut host).unwrap();
    assert_eq!(r.current_id(), Some(format!("n{n}").as_str()));
    assert_eq!(r.history().len(), 1);
}
