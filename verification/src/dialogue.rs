//! Dialog trees and the push-button runner that walks them.
//!
//! A [`DialogTree`] maps node ids to [`DialogNode`]s. A node is *linear*
//! (one `next`), *branching* (player picks a [`Choice`]) or *terminal*.
//! Conditions and side effects are Rhai source evaluated by the host's
//! script engine: the [`DialogRunner`] hands the host a [`DialogRequest`]
//! whenever it needs a script result and waits for the answer.

use vstd::prelude::*;
use crate::str_map::StrMap;
use crate::text::strs_view;

verus! {

/// One player-facing choice on a branching node.
#[derive(Debug, PartialEq)]
pub struct Choice {
    /// Choice text.
    pub text: String,
    /// Node to jump to (`None` = end conversation).
    pub next: Option<String>,
    /// Optional Rhai condition; the choice is hidden when false.
    pub condition: Option<String>,
    /// Optional Rhai side effects run when the choice is picked.
    pub side_effects: Option<String>,
}

impl Choice {
    /// A choice with no condition and no side effects.
    pub fn new(text: &str, next: Option<&str>) -> (r: Choice)
        ensures
            r.text@ == text@,
            r.next matches Some(n) ==> next matches Some(m) && n@ == m@,
            r.next is None <==> next is None,
            r.condition is None,
            r.side_effects is None,
    {
        Choice {
            text: text.to_string(),
            next: match next {
                Some(n) => Some(n.to_string()),
                None => None,
            },
            condition: None,
            side_effects: None,
        }
    }

    /// Attach a Rhai condition.
    pub fn with_condition(self, cond: &str) -> (r: Choice)
        ensures
            r.condition matches Some(c) && c@ == cond@,
            r.text == self.text,
            r.next == self.next,
            r.side_effects == self.side_effects,
    {
        Choice { condition: Some(cond.to_string()), ..self }
    }

    /// Attach Rhai side effects.
    pub fn with_side_effects(self, fx: &str) -> (r: Choice)
        ensures
            r.side_effects matches Some(f) && f@ == fx@,
            r.text == self.text,
            r.next == self.next,
            r.condition == self.condition,
    {
        Choice { side_effects: Some(fx.to_string()), ..self }
    }
}

impl Clone for Choice {
    fn clone(&self) -> (r: Self)
        ensures
            r == *self,
    {
        Choice {
            text: self.text.clone(),
            next: crate::story::clone_opt(&self.next),
            condition: crate::story::clone_opt(&self.condition),
            side_effects: crate::story::clone_opt(&self.side_effects),
        }
    }
}

/// Copy of a list of dialog choices.
fn clone_dialog_choices(v: &Vec<Choice>) -> (r: Vec<Choice>)
    ensures
        r@ == v@,
{
    let mut out: Vec<Choice> = Vec::new();
    let mut i: usize = 0;
    while i < v.len()
        invariant
            i <= v.len(),
            out@ == v@.take(i as int),
        decreases v.len() - i,
    {
        out.push(v[i].clone());
        i = i + 1;
        assert(out@ =~= v@.take(i as int));
    }
    assert(v@.take(v.len() as int) =~= v@);
    out
}

impl Clone for DialogNode {
    fn clone(&self) -> (r: Self)
        ensures
            r.id == self.id,
            r.speaker == self.speaker,
            r.text == self.text,
            r.next == self.next,
            r.choices@ == self.choices@,
            r.on_enter == self.on_enter,
            r.condition == self.condition,
    {
        DialogNode {
            id: self.id.clone(),
            speaker: self.speaker.clone(),
            text: self.text.clone(),
            next: crate::story::clone_opt(&self.next),
            choices: clone_dialog_choices(&self.choices),
            on_enter: crate::story::clone_opt(&self.on_enter),
            condition: crate::story::clone_opt(&self.condition),
        }
    }
}

/// One node in a dialog tree.
#[derive(Debug, PartialEq)]
pub struct DialogNode {
    /// Unique id within the tree.
    pub id: String,
    /// Speaker tag string.
    pub speaker: String,
    /// Line text.
    pub text: String,
    /// Linear next node (for non-branching lines).
    pub next: Option<String>,
    /// Branching choices; when non-empty the node is branching.
    pub choices: Vec<Choice>,
    /// Rhai side effects run when the node is entered.
    pub on_enter: Option<String>,
    /// Rhai condition evaluated on entry; when false the runner skips to
    /// this node's `next` (or finishes).
    pub condition: Option<String>,
}

impl DialogNode {
    /// A linear node (`next` may be `None` for a terminal line).
    pub fn linear(id: &str, speaker: &str, text: &str, next: Option<&str>) -> (r: DialogNode)
        ensures
            r.id@ == id@,
            r.speaker@ == speaker@,
            r.text@ == text@,
            r.next matches Some(n) ==> next matches Some(m) && n@ == m@,
            r.next is None <==> next is None,
            r.choices@.len() == 0,
            r.on_enter is None,
            r.condition is None,
    {
        DialogNode {
            id: id.to_string(),
            speaker: speaker.to_string(),
            text: text.to_string(),
            next: match next {
                Some(n) => Some(n.to_string()),
                None => None,
            },
            choices: Vec::new(),
            on_enter: None,
            condition: None,
        }
    }

    /// A branching node with the given choices.
    pub fn branching(id: &str, speaker: &str, text: &str, choices: Vec<Choice>) -> (r: DialogNode)
        ensures
            r.id@ == id@,
            r.speaker@ == speaker@,
            r.text@ == text@,
            r.next is None,
            r.choices@ == choices@,
            r.on_enter is None,
            r.condition is None,
    {
        DialogNode {
            id: id.to_string(),
            speaker: speaker.to_string(),
            text: text.to_string(),
            next: None,
            choices,
            on_enter: None,
            condition: None,
        }
    }

    /// Attach `on_enter` side effects.
    pub fn with_on_enter(self, fx: &str) -> (r: DialogNode)
        ensures
            r.on_enter matches Some(f) && f@ == fx@,
            r.id == self.id,
            r.speaker == self.speaker,
            r.text == self.text,
            r.next == self.next,
            r.choices == self.choices,
            r.condition == self.condition,
    {
        DialogNode { on_enter: Some(fx.to_string()), ..self }
    }

    /// Attach an entry condition.
    pub fn with_condition(self, cond: &str) -> (r: DialogNode)
        ensures
            r.condition matches Some(c) && c@ == cond@,
            r.id == self.id,
            r.speaker == self.speaker,
            r.text == self.text,
            r.next == self.next,
            r.choices == self.choices,
            r.on_enter == self.on_enter,
    {
        DialogNode { condition: Some(cond.to_string()), ..self }
    }

    /// Is this node terminal (no outgoing edges)?
    pub fn is_terminal(&self) -> (r: bool)
        ensures
            r == (self.next is None && self.choices@.len() == 0),
    {
        self.next.is_none() && self.choices.len() == 0
    }

    /// Is this node branching (player must pick a choice)?
    pub fn is_branching(&self) -> (r: bool)
        ensures
            r == (self.choices@.len() > 0),
    {
        self.choices.len() > 0
    }
}

/// Errors from dialog parsing, validation and running.
#[derive(Debug, PartialEq, Eq)]
pub enum DialogueError {
    /// RON parse failure.
    Ron(String),
    /// RON serialize failure.
    Serialize(String),
    /// The entry node does not exist in the tree.
    MissingEntry(String),
    /// A node or choice points at a node that does not exist.
    DanglingRef {
        /// Node holding the reference (`<start>` before the first node).
        from: String,
        /// Missing node id.
        to: String,
    },
    /// The dialog has finished.
    Finished,
    /// The dialog has not started.
    NotStarted,
    /// `advance` on a branching node.
    Branching,
    /// `select` on a linear node.
    Linear,
    /// Node has no next.
    NoNext,
    /// Choice index out of range.
    ChoiceOutOfRange {
        /// Index passed.
        index: usize,
        /// Number of choices on the node.
        len: usize,
    },
    /// Choice condition currently false.
    ChoiceUnavailable {
        /// Index passed.
        index: usize,
    },
    /// Too many consecutive nodes skipped by false conditions.
    ConditionSkipLimit,
    /// A Rhai condition or side effect failed, with the host's description.
    Script(String),
}

/// A dialog tree: nodes by id plus the entry node id.
pub struct DialogTree {
    /// Tree id.
    pub id: String,
    /// Entry node id.
    pub entry: String,
    /// Nodes by id, in id order.
    pub nodes: StrMap<DialogNode>,
}

/// The first reference of `node` (its `next`, then its choices' `next`s,
/// in order) that is not a node of `names`.
pub open spec fn node_dangling(node: DialogNode, names: Set<Seq<char>>) -> Option<Seq<char>> {
    match node.next {
        Some(n) if !names.contains(n@) => Some(n@),
        _ => choice_dangling(node.choices@, names, 0),
    }
}

/// The first choice `next` from index `i` on that is not in `names`.
pub open spec fn choice_dangling(cs: Seq<Choice>, names: Set<Seq<char>>, i: int) -> Option<Seq<char>>
    decreases cs.len() - i,
{
    if i < 0 || i >= cs.len() {
        None
    } else {
        match cs[i].next {
            Some(n) if !names.contains(n@) => Some(n@),
            _ => choice_dangling(cs, names, i + 1),
        }
    }
}

/// The first node (from position `i`, in id order) with a dangling
/// reference: its id and the missing target.
pub open spec fn first_dangling(nodes: Seq<DialogNode>, names: Set<Seq<char>>, i: int) -> Option<
    (Seq<char>, Seq<char>),
>
    decreases nodes.len() - i,
{
    if i < 0 || i >= nodes.len() {
        None
    } else {
        match node_dangling(nodes[i], names) {
            Some(to) => Some((nodes[i].id@, to)),
            None => first_dangling(nodes, names, i + 1),
        }
    }
}

impl DialogTree {
    /// Look up a node by id.
    pub fn get(&self, id: &str) -> (r: Option<&DialogNode>)
        ensures
            r is Some == self.nodes@.contains_key(id@),
            r matches Some(n) ==> *n == self.nodes@[id@],
    {
        self.nodes.get(id)
    }

    /// The entry node, if it exists.
    pub fn entry_node(&self) -> (r: Option<&DialogNode>)
        ensures
            r is Some == self.nodes@.contains_key(self.entry@),
            r matches Some(n) ==> *n == self.nodes@[self.entry@],
    {
        self.get(self.entry.as_str())
    }

    /// Structural check: the entry exists, and every `next` (node and
    /// choice) points at a node. Reports the first problem, nodes in id
    /// order.
    pub fn validate(&self) -> (r: Result<(), DialogueError>)
        ensures
            !self.nodes@.contains_key(self.entry@) ==> (r matches Err(DialogueError::MissingEntry(e))
                && e@ == self.entry@),
            self.nodes@.contains_key(self.entry@) ==> match first_dangling(
                self.nodes.val_seq(),
                self.nodes@.dom(),
                0,
            ) {
                Some((from, to)) => r matches Err(DialogueError::DanglingRef { from: f, to: t })
                    && f@ == from && t@ == to,
                None => r is Ok,
            },
    {
        if !self.nodes.contains_key(self.entry.as_str()) {
            return Err(DialogueError::MissingEntry(self.entry.clone()));
        }
        let n = self.nodes.entry_count();
        let ghost vs = self.nodes.val_seq();
        let ghost names = self.nodes@.dom();
        let mut i: usize = 0;
        while i < n
            invariant
                i <= n,
                n == vs.len(),
                n == self.nodes.key_seq().len(),
                self.nodes@.contains_key(self.entry@),
                vs == self.nodes.val_seq(),
                names == self.nodes@.dom(),
                first_dangling(vs, names, 0) == first_dangling(vs, names, i as int),
            decreases n - i,
        {
            let node = self.nodes.val_at(i);
            match &node.next {
                Some(next) => {
                    if !self.nodes.contains_key(next.as_str()) {
                        return Err(
                            DialogueError::DanglingRef { from: node.id.clone(), to: next.clone() },
                        );
                    }
                },
                None => {},
            }
            let mut j: usize = 0;
            while j < node.choices.len()
                invariant
                    j <= node.choices@.len(),
                    i < n,
                    n == vs.len(),
                    *node == vs[i as int],
                    node.next matches Some(nx) ==> names.contains(nx@),
                    self.nodes@.contains_key(self.entry@),
                    vs == self.nodes.val_seq(),
                    first_dangling(vs, names, 0) == first_dangling(vs, names, i as int),
                    names == self.nodes@.dom(),
                    choice_dangling(node.choices@, names, 0) == choice_dangling(
                        node.choices@,
                        names,
                        j as int,
                    ),
                decreases node.choices.len() - j,
            {
                match &node.choices[j].next {
                    Some(next) => {
                        if !self.nodes.contains_key(next.as_str()) {
                            assert(choice_dangling(node.choices@, names, j as int) == Some(next@));
                            assert(node_dangling(*node, names) == Some(next@));
                            assert(vs[i as int] == *node);
                            assert(0 <= i < vs.len());
                            assert(node_dangling(vs[i as int], names) == Some(next@));
                            assert(first_dangling(vs, names, i as int) == Some((node.id@, next@)));
                            return Err(
                                DialogueError::DanglingRef {
                                    from: node.id.clone(),
                                    to: next.clone(),
                                },
                            );
                        }
                    },
                    None => {},
                }
                j = j + 1;
            }
            i = i + 1;
        }
        Ok(())
    }
}

// ── Runner ───────────────────────────────────────────────────────────────

/// Max consecutive nodes skipped by false entry conditions.
pub const MAX_CONDITION_SKIPS: usize = 32;

/// One visible choice on the current node (already filtered by condition).
#[derive(Debug, PartialEq)]
pub struct VisibleChoice {
    /// Index of this choice in the node's choice list — pass it to `select`.
    pub source_index: usize,
    /// The choice text.
    pub text: String,
}

/// What the runner needs from the host next.
#[derive(Debug, PartialEq)]
pub enum DialogRequest {
    /// The operation is complete.
    Done,
    /// Evaluate this Rhai condition; answer with `condition_result`.
    EvalCondition(String),
    /// Run these Rhai side effects; answer with `run_result`.
    Run(String),
}

/// Host answer the runner waits for.
enum Awaiting {
    Enter { id: String, skips: usize },
    Land { id: String },
    ChoiceCondition { index: usize, effects: Option<String>, next: Option<String> },
    ChoiceEffects { next: Option<String> },
}

/// Host answer awaited, as the specification sees it.
pub enum AwaitView {
    /// Entry condition of node `id`, after `skips` skipped nodes.
    Enter { id: Seq<char>, skips: nat },
    /// `on_enter` effects of node `id`.
    Land { id: Seq<char> },
    /// Condition of the picked choice.
    ChoiceCondition { index: usize, effects: Option<Seq<char>>, next: Option<Seq<char>> },
    /// Side effects of the picked choice.
    ChoiceEffects { next: Option<Seq<char>> },
}

/// The runner's state.
pub struct DialogModel {
    /// Current node id.
    pub current: Option<Seq<char>>,
    /// The conversation ended.
    pub finished: bool,
    /// Nodes landed on, in order.
    pub history: Seq<Seq<char>>,
    /// Host answer awaited.
    pub awaiting: Option<AwaitView>,
}

/// A request as the specification sees it.
pub enum RequestView {
    /// See [`DialogRequest::Done`].
    Done,
    /// See [`DialogRequest::EvalCondition`].
    EvalCondition(Seq<char>),
    /// See [`DialogRequest::Run`].
    Run(Seq<char>),
}

/// An error as the specification sees it.
pub enum ErrorView {
    /// See [`DialogueError::Ron`].
    Ron(Seq<char>),
    /// See [`DialogueError::Serialize`].
    Serialize(Seq<char>),
    /// See [`DialogueError::MissingEntry`].
    MissingEntry(Seq<char>),
    /// See [`DialogueError::DanglingRef`].
    DanglingRef { from: Seq<char>, to: Seq<char> },
    /// See [`DialogueError::Finished`].
    Finished,
    /// See [`DialogueError::NotStarted`].
    NotStarted,
    /// See [`DialogueError::Branching`].
    Branching,
    /// See [`DialogueError::Linear`].
    Linear,
    /// See [`DialogueError::NoNext`].
    NoNext,
    /// See [`DialogueError::ChoiceOutOfRange`].
    ChoiceOutOfRange { index: usize, len: usize },
    /// See [`DialogueError::ChoiceUnavailable`].
    ChoiceUnavailable { index: usize },
    /// See [`DialogueError::ConditionSkipLimit`].
    ConditionSkipLimit,
    /// See [`DialogueError::Script`].
    Script(Seq<char>),
}

/// View of an error.
pub open spec fn error_view(e: DialogueError) -> ErrorView {
    match e {
        DialogueError::Ron(s) => ErrorView::Ron(s@),
        DialogueError::Serialize(s) => ErrorView::Serialize(s@),
        DialogueError::MissingEntry(s) => ErrorView::MissingEntry(s@),
        DialogueError::DanglingRef { from, to } => ErrorView::DanglingRef { from: from@, to: to@ },
        DialogueError::Finished => ErrorView::Finished,
        DialogueError::NotStarted => ErrorView::NotStarted,
        DialogueError::Branching => ErrorView::Branching,
        DialogueError::Linear => ErrorView::Linear,
        DialogueError::NoNext => ErrorView::NoNext,
        DialogueError::ChoiceOutOfRange { index, len } => ErrorView::ChoiceOutOfRange { index, len },
        DialogueError::ChoiceUnavailable { index } => ErrorView::ChoiceUnavailable { index },
        DialogueError::ConditionSkipLimit => ErrorView::ConditionSkipLimit,
        DialogueError::Script(s) => ErrorView::Script(s@),
    }
}

/// View of an operation's result.
pub open spec fn result_view(r: Result<DialogRequest, DialogueError>) -> Result<RequestView, ErrorView> {
    match r {
        Ok(DialogRequest::Done) => Ok(RequestView::Done),
        Ok(DialogRequest::EvalCondition(c)) => Ok(RequestView::EvalCondition(c@)),
        Ok(DialogRequest::Run(c)) => Ok(RequestView::Run(c@)),
        Err(e) => Err(error_view(e)),
    }
}

/// View of an optional string.
pub open spec fn opt_view(o: Option<String>) -> Option<Seq<char>> {
    match o {
        Some(s) => Some(s@),
        None => None,
    }
}

/// Model and result of an operation.
pub type Outcome = (DialogModel, Result<RequestView, ErrorView>);

/// The conversation ends: no current node.
pub open spec fn end_spec(m: DialogModel) -> DialogModel {
    DialogModel { finished: true, current: None, awaiting: None, ..m }
}

/// Landing on `node` (id `id`): record it, then fire its `on_enter`.
pub open spec fn land_spec(m: DialogModel, node: DialogNode, id: Seq<char>) -> Outcome {
    let m1 = DialogModel { history: m.history.push(id), awaiting: None, ..m };
    match node.on_enter {
        Some(fx) => (DialogModel { awaiting: Some(AwaitView::Land { id }), ..m1 }, Ok(RequestView::Run(fx@))),
        None => (DialogModel { current: Some(id), finished: false, ..m1 }, Ok(RequestView::Done)),
    }
}

/// Entering node `id` after `skips` skipped nodes: a missing node is a
/// dangling reference (from the current node, or `<start>`); a node with
/// an entry condition asks the host; otherwise land.
pub open spec fn enter_spec(m: DialogModel, nodes: Map<Seq<char>, DialogNode>, id: Seq<char>, skips: nat) -> Outcome {
    let cleared = DialogModel { awaiting: None, ..m };
    if !nodes.contains_key(id) {
        (
            cleared,
            Err(
                ErrorView::DanglingRef {
                    from: match m.current {
                        Some(c) => c,
                        None => "<start>"@,
                    },
                    to: id,
                },
            ),
        )
    } else {
        match nodes[id].condition {
            Some(c) => (
                DialogModel { awaiting: Some(AwaitView::Enter { id, skips }), ..m },
                Ok(RequestView::EvalCondition(c@)),
            ),
            None => land_spec(cleared, nodes[id], id),
        }
    }
}

/// Following an optional `next`: enter it, or end the conversation.
pub open spec fn follow_spec(m: DialogModel, nodes: Map<Seq<char>, DialogNode>, next: Option<Seq<char>>) -> Outcome {
    match next {
        Some(n) => enter_spec(m, nodes, n, 0),
        None => (end_spec(m), Ok(RequestView::Done)),
    }
}

/// After the picked choice's condition holds: its side effects, then follow.
pub open spec fn after_condition_spec(
    m: DialogModel,
    nodes: Map<Seq<char>, DialogNode>,
    effects: Option<Seq<char>>,
    next: Option<Seq<char>>,
) -> Outcome {
    match effects {
        Some(fx) => (
            DialogModel { awaiting: Some(AwaitView::ChoiceEffects { next }), ..m },
            Ok(RequestView::Run(fx)),
        ),
        None => follow_spec(m, nodes, next),
    }
}

/// Answering a condition request.
pub open spec fn condition_spec(m: DialogModel, nodes: Map<Seq<char>, DialogNode>, ans: Result<bool, String>) -> Outcome {
    let cleared = DialogModel { awaiting: None, ..m };
    match ans {
        Err(e) => (cleared, Err(ErrorView::Script(e@))),
        Ok(ok) => match m.awaiting {
            Some(AwaitView::Enter { id, skips }) => if ok {
                land_spec(cleared, nodes[id], id)
            } else if skips + 1 > MAX_CONDITION_SKIPS {
                (cleared, Err(ErrorView::ConditionSkipLimit))
            } else {
                match nodes[id].next {
                    Some(n) => enter_spec(cleared, nodes, n@, skips + 1),
                    None => (end_spec(cleared), Ok(RequestView::Done)),
                }
            },
            Some(AwaitView::ChoiceCondition { index, effects, next }) => if ok {
                after_condition_spec(cleared, nodes, effects, next)
            } else {
                (cleared, Err(ErrorView::ChoiceUnavailable { index }))
            },
            _ => (m, Ok(RequestView::Done)),
        },
    }
}

/// Answering a run request.
pub open spec fn run_spec(m: DialogModel, nodes: Map<Seq<char>, DialogNode>, ans: Result<(), String>) -> Outcome {
    let cleared = DialogModel { awaiting: None, ..m };
    match ans {
        Err(e) => (cleared, Err(ErrorView::Script(e@))),
        Ok(_) => match m.awaiting {
            Some(AwaitView::Land { id }) => (
                DialogModel { current: Some(id), finished: false, ..cleared },
                Ok(RequestView::Done),
            ),
            Some(AwaitView::ChoiceEffects { next }) => follow_spec(cleared, nodes, next),
            _ => (m, Ok(RequestView::Done)),
        },
    }
}

/// The current node, when there is one and the tree has it.
pub open spec fn current_node(m: DialogModel, nodes: Map<Seq<char>, DialogNode>) -> Option<DialogNode> {
    match m.current {
        Some(c) => if nodes.contains_key(c) {
            Some(nodes[c])
        } else {
            None
        },
        None => None,
    }
}

/// `advance`: from a linear node to its `next` (or the end).
pub open spec fn advance_spec(m: DialogModel, nodes: Map<Seq<char>, DialogNode>) -> Outcome {
    if m.finished {
        (m, Err(ErrorView::Finished))
    } else {
        match current_node(m, nodes) {
            None => (m, Err(ErrorView::NotStarted)),
            Some(node) => if node.choices@.len() > 0 {
                (m, Err(ErrorView::Branching))
            } else {
                follow_spec(m, nodes, opt_view(node.next))
            },
        }
    }
}

/// `select`: pick choice `index` of the current branching node.
pub open spec fn select_spec(m: DialogModel, nodes: Map<Seq<char>, DialogNode>, index: usize) -> Outcome {
    if m.finished {
        (m, Err(ErrorView::Finished))
    } else {
        match current_node(m, nodes) {
            None => (m, Err(ErrorView::NotStarted)),
            Some(node) => if node.choices@.len() == 0 {
                (m, Err(ErrorView::Linear))
            } else if index >= node.choices@.len() {
                (m, Err(ErrorView::ChoiceOutOfRange { index, len: node.choices@.len() as usize }))
            } else {
                let c = node.choices@[index as int];
                match c.condition {
                    Some(cond) => (
                        DialogModel {
                            awaiting: Some(
                                AwaitView::ChoiceCondition {
                                    index,
                                    effects: opt_view(c.side_effects),
                                    next: opt_view(c.next),
                                },
                            ),
                            ..m
                        },
                        Ok(RequestView::EvalCondition(cond@)),
                    ),
                    None => after_condition_spec(m, nodes, opt_view(c.side_effects), opt_view(c.next)),
                }
            },
        }
    }
}

/// The choices shown for `cs` given the host's answers: those without a
/// condition, and those whose condition holds, in order.
pub open spec fn visible_spec(cs: Seq<Choice>, opens: Seq<bool>, i: int) -> Seq<VisibleChoice>
    decreases i,
{
    if i <= 0 {
        Seq::empty()
    } else {
        let rest = visible_spec(cs, opens, i - 1);
        let c = cs[i - 1];
        let open = match c.condition {
            Some(_) => opens[i - 1],
            None => true,
        };
        if open {
            rest.push(VisibleChoice { source_index: (i - 1) as usize, text: c.text })
        } else {
            rest
        }
    }
}

spec fn await_view(a: Awaiting) -> AwaitView {
    match a {
        Awaiting::Enter { id, skips } => AwaitView::Enter { id: id@, skips: skips as nat },
        Awaiting::Land { id } => AwaitView::Land { id: id@ },
        Awaiting::ChoiceCondition { index, effects, next } => AwaitView::ChoiceCondition {
            index,
            effects: opt_view(effects),
            next: opt_view(next),
        },
        Awaiting::ChoiceEffects { next } => AwaitView::ChoiceEffects { next: opt_view(next) },
    }
}

/// State machine over a [`DialogTree`]: which node the player is viewing,
/// whether the conversation has finished, and the nodes visited.
pub struct DialogRunner {
    tree_id: String,
    current: Option<String>,
    finished: bool,
    history: Vec<String>,
    awaiting: Option<Awaiting>,
}

impl DialogRunner {
    /// The runner's state.
    pub closed spec fn model(&self) -> DialogModel {
        DialogModel {
            current: opt_view(self.current),
            finished: self.finished,
            history: strs_view(self.history@),
            awaiting: match self.awaiting {
                Some(a) => Some(await_view(a)),
                None => None,
            },
        }
    }

    /// The tree id.
    pub closed spec fn tree_id_view(&self) -> Seq<char> {
        self.tree_id@
    }

    /// Skip counts stay within the limit.
    pub closed spec fn wf(&self) -> bool {
        match self.awaiting {
            Some(Awaiting::Enter { id: _, skips }) => skips <= MAX_CONDITION_SKIPS,
            _ => true,
        }
    }

    /// A fresh runner for the tree (not started).
    pub fn new(tree: &DialogTree) -> (r: DialogRunner)
        ensures
            r.wf(),
            r.tree_id_view() == tree.id@,
            r.model() == (DialogModel {
                current: None,
                finished: false,
                history: Seq::empty(),
                awaiting: None,
            }),
    {
        let r = DialogRunner {
            tree_id: tree.id.clone(),
            current: None,
            finished: false,
            history: Vec::new(),
            awaiting: None,
        };
        assert(r.model().history =~= Seq::<Seq<char>>::empty());
        r
    }

    /// The tree id this runner was built for.
    pub fn tree_id(&self) -> (r: &str)
        ensures
            r@ == self.tree_id_view(),
    {
        self.tree_id.as_str()
    }

    /// Has the conversation ended?
    pub fn is_finished(&self) -> (r: bool)
        ensures
            r == self.model().finished,
    {
        self.finished
    }

    /// Id of the current node (`None` when finished or not started).
    pub fn current_id(&self) -> (r: Option<&str>)
        ensures
            match r {
                Some(s) => self.model().current == Some(s@),
                None => self.model().current is None,
            },
    {
        match &self.current {
            Some(c) => Some(c.as_str()),
            None => None,
        }
    }

    /// Visited node ids in order.
    pub fn history(&self) -> (r: &Vec<String>)
        ensures
            strs_view(r@) == self.model().history,
    {
        &self.history
    }

    /// The current node in `tree`.
    pub fn current<'a>(&self, tree: &'a DialogTree) -> (r: Option<&'a DialogNode>)
        ensures
            match current_node(self.model(), tree.nodes@) {
                Some(n) => r == Some(&n),
                None => r is None,
            },
    {
        match &self.current {
            Some(id) => tree.get(id.as_str()),
            None => None,
        }
    }

    /// The conditions the host evaluates for [`DialogRunner::visible_choices`]:
    /// one per choice of the current node (empty when there is none).
    pub fn choice_conditions(&self, tree: &DialogTree) -> (r: Vec<Option<String>>)
        ensures
            match current_node(self.model(), tree.nodes@) {
                Some(n) => r@.len() == n.choices@.len() && forall|i: int|
                    0 <= i < r@.len() ==> #[trigger] r@[i] == n.choices@[i].condition,
                None => r@.len() == 0,
            },
    {
        let mut out: Vec<Option<String>> = Vec::new();
        match self.current(tree) {
            None => out,
            Some(node) => {
                let mut i: usize = 0;
                while i < node.choices.len()
                    invariant
                        i <= node.choices@.len(),
                        out@.len() == i,
                        forall|k: int| 0 <= k < i ==> #[trigger] out@[k] == node.choices@[k].condition,
                    decreases node.choices.len() - i,
                {
                    out.push(crate::story::clone_opt(&node.choices[i].condition));
                    i = i + 1;
                }
                out
            },
        }
    }

    /// The currently visible choices: those of the current node whose
    /// condition holds (`opens[i]` is the host's value for choice `i`;
    /// script errors count as false). Empty for a linear or terminal node.
    pub fn visible_choices(&self, tree: &DialogTree, opens: &Vec<bool>) -> (r: Vec<VisibleChoice>)
        requires
            match current_node(self.model(), tree.nodes@) {
                Some(n) => opens@.len() == n.choices@.len(),
                None => true,
            },
        ensures
            match current_node(self.model(), tree.nodes@) {
                Some(n) => r@ == visible_spec(n.choices@, opens@, n.choices@.len() as int),
                None => r@.len() == 0,
            },
    {
        let mut out: Vec<VisibleChoice> = Vec::new();
        match self.current(tree) {
            None => out,
            Some(node) => {
                let mut i: usize = 0;
                while i < node.choices.len()
                    invariant
                        i <= node.choices@.len(),
                        opens@.len() == node.choices@.len(),
                        out@ == visible_spec(node.choices@, opens@, i as int),
                    decreases node.choices.len() - i,
                {
                    let c = &node.choices[i];
                    let open = match &c.condition {
                        Some(_) => opens[i],
                        None => true,
                    };
                    if open {
                        out.push(VisibleChoice { source_index: i, text: c.text.clone() });
                    }
                    i = i + 1;
                }
                out
            },
        }
    }

    /// Land on `node` (id `id`).
    fn land(&mut self, node: &DialogNode, id: String) -> (r: Result<DialogRequest, DialogueError>)
        requires
            old(self).awaiting is None,
        ensures
            final(self).wf(),
            final(self).tree_id == old(self).tree_id,
            (final(self).model(), result_view(r)) == land_spec(old(self).model(), *node, id@),
    {
        let ghost h0 = self.history@;
        self.history.push(id.clone());
        proof {
            crate::story_compile::lemma_strs_push_pub(h0, id);
        }
        match &node.on_enter {
            Some(fx) => {
                let fx = fx.clone();
                self.awaiting = Some(Awaiting::Land { id });
                Ok(DialogRequest::Run(fx))
            },
            None => {
                self.current = Some(id);
                self.finished = false;
                Ok(DialogRequest::Done)
            },
        }
    }

    /// Enter node `id` after `skips` skipped nodes.
    fn enter(&mut self, tree: &DialogTree, id: String, skips: usize) -> (r: Result<DialogRequest, DialogueError>)
        requires
            old(self).awaiting is None,
            skips <= MAX_CONDITION_SKIPS,
        ensures
            final(self).wf(),
            final(self).tree_id == old(self).tree_id,
            (final(self).model(), result_view(r)) == enter_spec(old(self).model(), tree.nodes@, id@, skips as nat),
    {
        let node = match tree.get(id.as_str()) {
            Some(n) => n,
            None => {
                let from = match &self.current {
                    Some(c) => c.clone(),
                    None => "<start>".to_string(),
                };
                proof {
                    reveal_strlit("<start>");
                }
                return Err(DialogueError::DanglingRef { from, to: id });
            },
        };
        match &node.condition {
            Some(c) => {
                let c = c.clone();
                self.awaiting = Some(Awaiting::Enter { id, skips });
                Ok(DialogRequest::EvalCondition(c))
            },
            None => self.land(node, id),
        }
    }

    /// Follow an optional `next`: enter it, or end the conversation.
    fn follow(&mut self, tree: &DialogTree, next: Option<String>) -> (r: Result<DialogRequest, DialogueError>)
        requires
            old(self).awaiting is None,
        ensures
            final(self).wf(),
            final(self).tree_id == old(self).tree_id,
            (final(self).model(), result_view(r)) == follow_spec(old(self).model(), tree.nodes@, opt_view(next)),
    {
        match next {
            Some(n) => self.enter(tree, n, 0),
            None => {
                self.finished = true;
                self.current = None;
                Ok(DialogRequest::Done)
            },
        }
    }

    /// After the picked choice's condition holds.
    fn after_condition(
        &mut self,
        tree: &DialogTree,
        effects: Option<String>,
        next: Option<String>,
    ) -> (r: Result<DialogRequest, DialogueError>)
        requires
            old(self).awaiting is None,
        ensures
            final(self).wf(),
            final(self).tree_id == old(self).tree_id,
            (final(self).model(), result_view(r)) == after_condition_spec(
                old(self).model(),
                tree.nodes@,
                opt_view(effects),
                opt_view(next),
            ),
    {
        match effects {
            Some(fx) => {
                self.awaiting = Some(Awaiting::ChoiceEffects { next });
                Ok(DialogRequest::Run(fx))
            },
            None => self.follow(tree, next),
        }
    }

    /// Enter the tree's entry node.
    pub fn start(&mut self, tree: &DialogTree) -> (r: Result<DialogRequest, DialogueError>)
        requires
            old(self).model().awaiting is None,
        ensures
            final(self).wf(),
            final(self).tree_id_view() == old(self).tree_id_view(),
            (final(self).model(), result_view(r)) == enter_spec(old(self).model(), tree.nodes@, tree.entry@, 0),
    {
        self.enter(tree, tree.entry.clone(), 0)
    }

    /// Enter a specific node directly (skips the tree's entry).
    pub fn start_at(&mut self, tree: &DialogTree, id: &str) -> (r: Result<DialogRequest, DialogueError>)
        requires
            old(self).model().awaiting is None,
        ensures
            final(self).wf(),
            final(self).tree_id_view() == old(self).tree_id_view(),
            (final(self).model(), result_view(r)) == enter_spec(old(self).model(), tree.nodes@, id@, 0),
    {
        self.enter(tree, id.to_string(), 0)
    }

    /// Advance from a linear node to its `next` (or end at a terminal node).
    pub fn advance(&mut self, tree: &DialogTree) -> (r: Result<DialogRequest, DialogueError>)
        requires
            old(self).model().awaiting is None,
        ensures
            final(self).wf(),
            final(self).tree_id_view() == old(self).tree_id_view(),
            (final(self).model(), result_view(r)) == advance_spec(old(self).model(), tree.nodes@),
    {
        if self.finished {
            return Err(DialogueError::Finished);
        }
        let node = match self.current(tree) {
            Some(n) => n,
            None => return Err(DialogueError::NotStarted),
        };
        if node.is_branching() {
            return Err(DialogueError::Branching);
        }
        let next = crate::story::clone_opt(&node.next);
        self.follow(tree, next)
    }

    /// Pick choice `source_index` of the current branching node: check its
    /// condition (via the host), run its side effects (via the host), then
    /// enter its `next` or end the conversation.
    pub fn select(&mut self, tree: &DialogTree, source_index: usize) -> (r: Result<DialogRequest, DialogueError>)
        requires
            old(self).model().awaiting is None,
        ensures
            final(self).wf(),
            final(self).tree_id_view() == old(self).tree_id_view(),
            (final(self).model(), result_view(r)) == select_spec(old(self).model(), tree.nodes@, source_index),
    {
        if self.finished {
            return Err(DialogueError::Finished);
        }
        let node = match self.current(tree) {
            Some(n) => n,
            None => return Err(DialogueError::NotStarted),
        };
        if !node.is_branching() {
            return Err(DialogueError::Linear);
        }
        if source_index >= node.choices.len() {
            return Err(DialogueError::ChoiceOutOfRange { index: source_index, len: node.choices.len() });
        }
        let c = &node.choices[source_index];
        let effects = crate::story::clone_opt(&c.side_effects);
        let next = crate::story::clone_opt(&c.next);
        match &c.condition {
            Some(cond) => {
                let cond = cond.clone();
                self.awaiting = Some(Awaiting::ChoiceCondition { index: source_index, effects, next });
                Ok(DialogRequest::EvalCondition(cond))
            },
            None => self.after_condition(tree, effects, next),
        }
    }

    /// Answer a condition request (`Ok(holds)` or the script's error).
    pub fn condition_result(&mut self, tree: &DialogTree, ans: Result<bool, String>) -> (r: Result<
        DialogRequest,
        DialogueError,
    >)
        requires
            old(self).wf(),
            old(self).model().awaiting matches Some(AwaitView::Enter { id, skips }) ==> tree.nodes@.contains_key(id),
        ensures
            final(self).wf(),
            final(self).tree_id_view() == old(self).tree_id_view(),
            (final(self).model(), result_view(r)) == condition_spec(old(self).model(), tree.nodes@, ans),
    {
        let aw = self.awaiting.take();
        match ans {
            Err(e) => Err(DialogueError::Script(e)),
            Ok(ok) => match aw {
                Some(Awaiting::Enter { id, skips }) => {
                    let node = tree.get(id.as_str()).unwrap();
                    if ok {
                        self.land(node, id)
                    } else if skips + 1 > MAX_CONDITION_SKIPS {
                        Err(DialogueError::ConditionSkipLimit)
                    } else {
                        match &node.next {
                            Some(n) => {
                                let n = n.clone();
                                self.enter(tree, n, skips + 1)
                            },
                            None => {
                                self.finished = true;
                                self.current = None;
                                Ok(DialogRequest::Done)
                            },
                        }
                    }
                },
                Some(Awaiting::ChoiceCondition { index, effects, next }) => {
                    if ok {
                        self.after_condition(tree, effects, next)
                    } else {
                        Err(DialogueError::ChoiceUnavailable { index })
                    }
                },
                _ => {
                    self.awaiting = aw;
                    Ok(DialogRequest::Done)
                },
            },
        }
    }

    /// Answer a run request (`Ok(())` or the script's error).
    pub fn run_result(&mut self, tree: &DialogTree, ans: Result<(), String>) -> (r: Result<
        DialogRequest,
        DialogueError,
    >)
        requires
            old(self).wf(),
        ensures
            final(self).wf(),
            final(self).tree_id_view() == old(self).tree_id_view(),
            (final(self).model(), result_view(r)) == run_spec(old(self).model(), tree.nodes@, ans),
    {
        let aw = self.awaiting.take();
        match ans {
            Err(e) => Err(DialogueError::Script(e)),
            Ok(_) => match aw {
                Some(Awaiting::Land { id }) => {
                    self.current = Some(id);
                    self.finished = false;
                    Ok(DialogRequest::Done)
                },
                Some(Awaiting::ChoiceEffects { next }) => self.follow(tree, next),
                _ => {
                    self.awaiting = aw;
                    Ok(DialogRequest::Done)
                },
            },
        }
    }
}

/// A choice whose condition the host answers false is refused: `select`
/// asks for the condition, the answer `false` yields `ChoiceUnavailable`,
/// and the conversation stays on the same node with the same history.
pub proof fn lemma_select_fail_closed(m: DialogModel, nodes: Map<Seq<char>, DialogNode>, index: usize)
    requires
        !m.finished,
        current_node(m, nodes) matches Some(n) && index < n.choices@.len()
            && n.choices@[index as int].condition is Some,
    ensures
        ({
            let n = current_node(m, nodes)->0;
            let (m1, r1) = select_spec(m, nodes, index);
            let (m2, r2) = condition_spec(m1, nodes, Ok::<bool, String>(false));
            &&& r1 == Ok::<RequestView, ErrorView>(
                RequestView::EvalCondition(n.choices@[index as int].condition->0@),
            )
            &&& r2 == Err::<RequestView, ErrorView>(ErrorView::ChoiceUnavailable { index })
            &&& m2.current == m.current
            &&& m2.history == m.history
            &&& !m2.finished
        }),
{
}

/// Entering a node whose condition the host answers false, with
/// [`MAX_CONDITION_SKIPS`] nodes already skipped, fails with
/// `ConditionSkipLimit` and lands nowhere.
pub proof fn lemma_skip_limit(m: DialogModel, nodes: Map<Seq<char>, DialogNode>, id: Seq<char>)
    requires
        nodes.contains_key(id),
        nodes[id].condition is Some,
    ensures
        ({
            let (m1, r1) = enter_spec(m, nodes, id, MAX_CONDITION_SKIPS as nat);
            let (m2, r2) = condition_spec(m1, nodes, Ok::<bool, String>(false));
            &&& r2 == Err::<RequestView, ErrorView>(ErrorView::ConditionSkipLimit)
            &&& m2.current == m.current
            &&& m2.history == m.history
        }),
{
}

/// Whether choice `c` may be shown given its host answer `open`.
pub open spec fn shown(c: Choice, open: bool) -> bool {
    c.condition is None || open
}

/// The visible choices point back into the node's choice list: each
/// `source_index` is the index of a choice that may be shown and whose text
/// it carries; indices strictly increase (authored order, no repeats); and
/// every choice that may be shown is among them.
pub proof fn lemma_visible_choices_index_source(cs: Seq<Choice>, opens: Seq<bool>, n: int)
    requires
        0 <= n <= cs.len(),
        cs.len() <= usize::MAX,
        opens.len() == cs.len(),
    ensures
        forall|k: int|
            0 <= k < visible_spec(cs, opens, n).len() ==> {
                let v = #[trigger] visible_spec(cs, opens, n)[k];
                &&& 0 <= v.source_index < n
                &&& v.text == cs[v.source_index as int].text
                &&& shown(cs[v.source_index as int], opens[v.source_index as int])
            },
        forall|a: int, b: int|
            0 <= a < b < visible_spec(cs, opens, n).len() ==> (#[trigger] visible_spec(cs, opens, n)[a]).source_index
                < (#[trigger] visible_spec(cs, opens, n)[b]).source_index,
        forall|i: int|
            0 <= i < n && shown(cs[i], opens[i]) ==> exists|k: int|
                0 <= k < visible_spec(cs, opens, n).len() && (#[trigger] visible_spec(cs, opens, n)[k]).source_index
                    == i,
    decreases n,
{
    if n > 0 {
        lemma_visible_choices_index_source(cs, opens, n - 1);
        let rest = visible_spec(cs, opens, n - 1);
        let cur = visible_spec(cs, opens, n);
        if shown(cs[n - 1], opens[n - 1]) {
            assert(cur == rest.push(VisibleChoice { source_index: (n - 1) as usize, text: cs[n - 1].text }));
            assert forall|i: int| 0 <= i < n && shown(cs[i], opens[i]) implies exists|k: int|
                0 <= k < cur.len() && (#[trigger] cur[k]).source_index == i by {
                if i == n - 1 {
                    assert(cur[rest.len() as int].source_index == i);
                } else {
                    let k = choose|k: int| 0 <= k < rest.len() && (#[trigger] rest[k]).source_index == i;
                    assert(cur[k] == rest[k]);
                }
            }
            assert forall|a: int, b: int| 0 <= a < b < cur.len() implies (#[trigger] cur[a]).source_index
                < (#[trigger] cur[b]).source_index by {
                assert(cur[a] == rest[a]);
                if b < rest.len() {
                    assert(cur[b] == rest[b]);
                }
            }
        } else {
            assert(cur == rest);
        }
    }
}

} // verus!
