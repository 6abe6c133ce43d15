//! Compile + validate: lower a [`Story`] into a flat instruction list.
//!
//! Nested `If` blocks are lowered to `JumpIfFalse` / `Jump` pairs so the
//! runtime position stays a flat `(ip, call_stack)`. Labels become
//! instruction offsets. Every label body ends with an implicit `Return`.

use vstd::prelude::*;
use crate::story::{ScenarioError, Stmt, Story, SceneSpec, ShowSpec, HideSpec, PlaySpec, StopSpec, MenuSpec, InputSpec, StoryChoice, clone_opt};
use crate::str_map::StrMap;
use crate::text::{concat_str, decimal, decimal_string, strs_view};

verus! {

/// Placeholder for jump targets patched during lowering.
pub const UNRESOLVED: u32 = 0xffff_ffff;

/// One lowered instruction.
#[derive(Debug)]
pub enum Ir {
    /// Blocking: dialogue line.
    Say {
        /// Speaker id (`None` = narrator).
        who: Option<String>,
        /// Line text.
        text: String,
    },
    /// Presentation: background change.
    Scene(SceneSpec),
    /// Presentation: show sprite.
    Show(ShowSpec),
    /// Presentation: hide sprite.
    Hide(HideSpec),
    /// Presentation: start audio.
    Play(PlaySpec),
    /// Presentation: stop audio.
    Stop(StopSpec),
    /// Blocking: timed wait.
    Pause {
        /// Seconds (`f32` bits).
        seconds: u32,
    },
    /// Rhai side effects.
    Exec(String),
    /// Transfer if the Rhai condition is false.
    JumpIfFalse {
        /// Rhai expression.
        cond: String,
        /// Instruction offset.
        target: u32,
    },
    /// Unconditional transfer.
    Jump(u32),
    /// Call a label, pushing the return address.
    Call(u32),
    /// Blocking data: menu of choices.
    Menu(MenuSpec),
    /// Pop the call stack; at the bottom, finish.
    Return,
    /// Finish with a named ending (clears the call stack).
    Ending {
        /// Ending id.
        id: Option<String>,
    },
    /// Blocking: name entry.
    Input(InputSpec),
}

/// An instruction as the specification sees it (a menu by its prompt and
/// the sequence of its choices).
pub enum IrView {
    /// See [`Ir::Say`].
    Say { who: Option<String>, text: String },
    /// See [`Ir::Scene`].
    Scene(SceneSpec),
    /// See [`Ir::Show`].
    Show(ShowSpec),
    /// See [`Ir::Hide`].
    Hide(HideSpec),
    /// See [`Ir::Play`].
    Play(PlaySpec),
    /// See [`Ir::Stop`].
    Stop(StopSpec),
    /// See [`Ir::Pause`].
    Pause { seconds: u32 },
    /// See [`Ir::Exec`].
    Exec(String),
    /// See [`Ir::JumpIfFalse`].
    JumpIfFalse { cond: String, target: u32 },
    /// See [`Ir::Jump`].
    Jump(u32),
    /// See [`Ir::Call`].
    Call(u32),
    /// See [`Ir::Menu`].
    Menu { prompt: Option<String>, choices: Seq<StoryChoice> },
    /// See [`Ir::Return`].
    Return,
    /// See [`Ir::Ending`].
    Ending { id: Option<String> },
    /// See [`Ir::Input`].
    Input(InputSpec),
}

/// The specification view of one instruction.
pub open spec fn ir_view(i: Ir) -> IrView {
    match i {
        Ir::Say { who, text } => IrView::Say { who, text },
        Ir::Scene(s) => IrView::Scene(s),
        Ir::Show(s) => IrView::Show(s),
        Ir::Hide(s) => IrView::Hide(s),
        Ir::Play(s) => IrView::Play(s),
        Ir::Stop(s) => IrView::Stop(s),
        Ir::Pause { seconds } => IrView::Pause { seconds },
        Ir::Exec(s) => IrView::Exec(s),
        Ir::JumpIfFalse { cond, target } => IrView::JumpIfFalse { cond, target },
        Ir::Jump(t) => IrView::Jump(t),
        Ir::Call(t) => IrView::Call(t),
        Ir::Menu(m) => IrView::Menu { prompt: m.prompt, choices: m.choices@ },
        Ir::Return => IrView::Return,
        Ir::Ending { id } => IrView::Ending { id },
        Ir::Input(s) => IrView::Input(s),
    }
}

/// The specification view of an instruction list.
pub open spec fn irs_view(s: Seq<Ir>) -> Seq<IrView> {
    s.map_values(|i: Ir| ir_view(i))
}

/// Number of instructions a statement lowers to.
pub open spec fn ir_len(s: Stmt) -> nat
    decreases s,
{
    match s {
        Stmt::If(spec) => 1 + ir_len_seq(spec.then_@) + match spec.else_ {
            Some(e) => 1 + ir_len_seq(e@),
            None => 0,
        },
        _ => 1,
    }
}

/// Number of instructions a statement list lowers to.
pub open spec fn ir_len_seq(ss: Seq<Stmt>) -> nat
    decreases ss,
{
    if ss.len() == 0 {
        0
    } else {
        ir_len_seq(ss.drop_last()) + ir_len(ss.last())
    }
}

/// The instructions a statement lowers to when placed at offset `b`.
/// `If` becomes `JumpIfFalse` to the else branch (or past the block),
/// the then branch, and, with an else branch, a `Jump` past it.
/// `Jump` / `Call` carry [`UNRESOLVED`] until label offsets are known.
pub open spec fn lower_stmt(s: Stmt, b: int) -> Seq<IrView>
    decreases s,
{
    match s {
        Stmt::Say(spec) => seq![IrView::Say { who: spec.who, text: spec.text }],
        Stmt::Narrate(text) => seq![IrView::Say { who: None, text }],
        Stmt::Scene(spec) => seq![IrView::Scene(spec)],
        Stmt::Show(spec) => seq![IrView::Show(spec)],
        Stmt::Hide(spec) => seq![IrView::Hide(spec)],
        Stmt::Play(spec) => seq![IrView::Play(spec)],
        Stmt::Stop(spec) => seq![IrView::Stop(spec)],
        Stmt::Pause(spec) => seq![IrView::Pause { seconds: spec.seconds }],
        Stmt::Exec(src) => seq![IrView::Exec(src)],
        Stmt::If(spec) => {
            let then_ir = lower_seq(spec.then_@, b + 1);
            let then_end = b + 1 + ir_len_seq(spec.then_@);
            match spec.else_ {
                Some(e) => {
                    let else_start = then_end + 1;
                    let end = else_start + ir_len_seq(e@);
                    seq![IrView::JumpIfFalse { cond: spec.condition, target: else_start as u32 }]
                        + then_ir + seq![IrView::Jump(end as u32)] + lower_seq(e@, else_start)
                },
                None => seq![IrView::JumpIfFalse { cond: spec.condition, target: then_end as u32 }]
                    + then_ir,
            }
        },
        Stmt::Menu(m) => seq![IrView::Menu { prompt: m.prompt, choices: m.choices@ }],
        Stmt::Jump(_) => seq![IrView::Jump(UNRESOLVED)],
        Stmt::Call(_) => seq![IrView::Call(UNRESOLVED)],
        Stmt::Return => seq![IrView::Return],
        Stmt::Ending(e) => seq![IrView::Ending { id: e.id }],
        Stmt::Input(spec) => seq![IrView::Input(spec)],
    }
}

/// The instructions a statement list lowers to when placed at offset `b`.
pub open spec fn lower_seq(ss: Seq<Stmt>, b: int) -> Seq<IrView>
    decreases ss,
{
    if ss.len() == 0 {
        Seq::empty()
    } else {
        lower_seq(ss.drop_last(), b) + lower_stmt(ss.last(), b + ir_len_seq(ss.drop_last()))
    }
}

/// The `(instruction index, label)` pairs of the jumps and calls a
/// statement placed at offset `b` leaves to resolve.
pub open spec fn fixups_stmt(s: Stmt, b: int) -> Seq<(int, Seq<char>)>
    decreases s,
{
    match s {
        Stmt::Jump(l) => seq![(b, l@)],
        Stmt::Call(l) => seq![(b, l@)],
        Stmt::If(spec) => {
            let then_end = b + 1 + ir_len_seq(spec.then_@);
            fixups_seq(spec.then_@, b + 1) + match spec.else_ {
                Some(e) => fixups_seq(e@, then_end + 1),
                None => Seq::empty(),
            }
        },
        _ => Seq::empty(),
    }
}

/// Fixups of a statement list placed at offset `b`.
pub open spec fn fixups_seq(ss: Seq<Stmt>, b: int) -> Seq<(int, Seq<char>)>
    decreases ss,
{
    if ss.len() == 0 {
        Seq::empty()
    } else {
        fixups_seq(ss.drop_last(), b) + fixups_stmt(ss.last(), b + ir_len_seq(ss.drop_last()))
    }
}

/// View of a fixup list.
pub open spec fn fixups_view(v: Seq<(usize, String)>) -> Seq<(int, Seq<char>)> {
    v.map_values(|f: (usize, String)| (f.0 as int, f.1@))
}

proof fn lemma_lower_len_stmt(s: Stmt, b: int)
    ensures
        lower_stmt(s, b).len() == ir_len(s),
    decreases s,
{
    match s {
        Stmt::If(spec) => {
            lemma_lower_len_seq(spec.then_@, b + 1);
            match spec.else_ {
                Some(e) => {
                    lemma_lower_len_seq(e@, b + 2 + ir_len_seq(spec.then_@));
                },
                None => {},
            }
        },
        _ => {},
    }
}

proof fn lemma_lower_len_seq(ss: Seq<Stmt>, b: int)
    ensures
        lower_seq(ss, b).len() == ir_len_seq(ss),
    decreases ss,
{
    if ss.len() > 0 {
        lemma_lower_len_seq(ss.drop_last(), b);
        lemma_lower_len_stmt(ss.last(), b + ir_len_seq(ss.drop_last()));
    }
}

proof fn lemma_len_concat(a: Seq<Stmt>, c: Seq<Stmt>)
    ensures
        ir_len_seq(a + c) == ir_len_seq(a) + ir_len_seq(c),
    decreases c.len(),
{
    if c.len() == 0 {
        assert(a + c =~= a);
    } else {
        lemma_len_concat(a, c.drop_last());
        assert((a + c).drop_last() =~= a + c.drop_last());
        assert((a + c).last() == c.last());
    }
}

proof fn lemma_take_len(ss: Seq<Stmt>, i: int)
    requires
        0 <= i <= ss.len(),
    ensures
        ir_len_seq(ss.take(i)) <= ir_len_seq(ss),
{
    lemma_len_concat(ss.take(i), ss.skip(i));
    assert(ss.take(i) + ss.skip(i) =~= ss);
}

proof fn lemma_view_push(s: Seq<Ir>, x: Ir)
    ensures
        irs_view(s.push(x)) == irs_view(s).push(ir_view(x)),
{
    assert(irs_view(s.push(x)) =~= irs_view(s).push(ir_view(x)));
}

proof fn lemma_fixups_push(s: Seq<(usize, String)>, x: (usize, String))
    ensures
        fixups_view(s.push(x)) == fixups_view(s).push((x.0 as int, x.1@)),
{
    assert(fixups_view(s.push(x)) =~= fixups_view(s).push((x.0 as int, x.1@)));
}

/// Whether an instruction carries a patchable target.
pub open spec fn is_jump_like(i: IrView) -> bool {
    i is JumpIfFalse || i is Jump || i is Call
}

/// The instruction with its target replaced.
pub open spec fn with_target(i: IrView, t: u32) -> IrView {
    match i {
        IrView::JumpIfFalse { cond, target: _ } => IrView::JumpIfFalse { cond, target: t },
        IrView::Jump(_) => IrView::Jump(t),
        IrView::Call(_) => IrView::Call(t),
        other => other,
    }
}

/// Patch the target of the jump-like instruction at `index`.
fn patch_target(out: &mut Vec<Ir>, index: usize, target: u32)
    requires
        index < old(out)@.len(),
        is_jump_like(ir_view(old(out)@[index as int])),
    ensures
        final(out)@.len() == old(out)@.len(),
        irs_view(final(out)@) == irs_view(old(out)@).update(
            index as int,
            with_target(ir_view(old(out)@[index as int]), target),
        ),
{
    let new_ir = match &out[index] {
        Ir::JumpIfFalse { cond, target: _ } => Ir::JumpIfFalse { cond: cond.clone(), target },
        Ir::Jump(_) => Ir::Jump(target),
        _ => Ir::Call(target),
    };
    let ghost before = out@;
    out.set(index, new_ir);
    assert(irs_view(out@) =~= irs_view(before).update(
        index as int,
        with_target(ir_view(before[index as int]), target),
    ));
}

/// Lower one statement at the end of `out`, recording jump / call fixups.
fn lower_stmt_exec(s: &Stmt, out: &mut Vec<Ir>, fixups: &mut Vec<(usize, String)>)
    requires
        old(out)@.len() + ir_len(*s) < u32::MAX,
    ensures
        irs_view(final(out)@) == irs_view(old(out)@) + lower_stmt(*s, old(out)@.len() as int),
        fixups_view(final(fixups)@) == fixups_view(old(fixups)@) + fixups_stmt(
            *s,
            old(out)@.len() as int,
        ),
    decreases s,
{
    let ghost out0 = out@;
    let ghost fx0 = fixups@;
    let ghost b = out@.len() as int;
    match s {
        Stmt::If(spec) => {
            let jif = out.len();
            out.push(Ir::JumpIfFalse { cond: spec.condition.clone(), target: UNRESOLVED });
            proof {
                lemma_view_push(out0, Ir::JumpIfFalse { cond: spec.condition, target: UNRESOLVED });
                lemma_lower_len_seq(spec.then_@, b + 1);
            }
            lower_block(&spec.then_, out, fixups);
            let ghost out2 = out@;
            assert(irs_view(out2).len() == out2.len());
            assert(out2.len() == b + 1 + ir_len_seq(spec.then_@));
            let ghost pre_then = irs_view(out0) + seq![
                IrView::JumpIfFalse { cond: spec.condition, target: UNRESOLVED },
            ];
            assert(irs_view(out2) == pre_then + lower_seq(spec.then_@, b + 1));
            match &spec.else_ {
                Some(e) => {
                    let je = out.len();
                    out.push(Ir::Jump(UNRESOLVED));
                    proof {
                        lemma_view_push(out2, Ir::Jump(UNRESOLVED));
                        lemma_lower_len_seq(e@, (je + 1) as int);
                    }
                    let else_start = out.len() as u32;
                    lower_block(e, out, fixups);
                    let end = out.len() as u32;
                    let ghost out4 = out@;
                    assert(irs_view(out4).len() == out4.len());
                    let ghost full = pre_then + lower_seq(spec.then_@, b + 1) + seq![
                        IrView::Jump(UNRESOLVED),
                    ] + lower_seq(e@, else_start as int);
                    assert(irs_view(out4) =~= full);
                    assert(full[b] == IrView::JumpIfFalse { cond: spec.condition, target: UNRESOLVED });
                    assert(full[je as int] == IrView::Jump(UNRESOLVED));
                    assert(irs_view(out4)[b] == ir_view(out4[b]));
                    assert(irs_view(out4)[je as int] == ir_view(out4[je as int]));
                    patch_target(out, jif, else_start);
                    let ghost out5 = out@;
                    assert(irs_view(out5)[je as int] == ir_view(out5[je as int]));
                    patch_target(out, je, end);
                    assert(irs_view(out@) =~= irs_view(out0) + lower_stmt(*s, b));
                    assert(fixups_view(fixups@) =~= fixups_view(fx0) + fixups_stmt(*s, b));
                },
                None => {
                    let end = out.len() as u32;
                    assert(pre_then[b] == IrView::JumpIfFalse { cond: spec.condition, target: UNRESOLVED });
                    assert(irs_view(out2)[b] == ir_view(out2[b]));
                    patch_target(out, jif, end);
                    assert(irs_view(out@) =~= irs_view(out0) + lower_stmt(*s, b));
                    assert(fixups_view(fixups@) =~= fixups_view(fx0) + fixups_stmt(*s, b));
                },
            }
        },
        Stmt::Jump(label) => {
            fixups.push((out.len(), label.clone()));
            out.push(Ir::Jump(UNRESOLVED));
            proof {
                lemma_view_push(out0, Ir::Jump(UNRESOLVED));
                lemma_fixups_push(fx0, (b as usize, *label));
            }
        },
        Stmt::Call(label) => {
            fixups.push((out.len(), label.clone()));
            out.push(Ir::Call(UNRESOLVED));
            proof {
                lemma_view_push(out0, Ir::Call(UNRESOLVED));
                lemma_fixups_push(fx0, (b as usize, *label));
            }
        },
        _ => {
            let ir = match s {
                Stmt::Say(spec) => Ir::Say { who: clone_opt(&spec.who), text: spec.text.clone() },
                Stmt::Narrate(text) => Ir::Say { who: None, text: text.clone() },
                Stmt::Scene(spec) => Ir::Scene(spec.clone()),
                Stmt::Show(spec) => Ir::Show(spec.clone()),
                Stmt::Hide(spec) => Ir::Hide(spec.clone()),
                Stmt::Play(spec) => Ir::Play(spec.clone()),
                Stmt::Stop(spec) => Ir::Stop(spec.clone()),
                Stmt::Pause(spec) => Ir::Pause { seconds: spec.seconds },
                Stmt::Exec(src) => Ir::Exec(src.clone()),
                Stmt::Menu(spec) => Ir::Menu(spec.clone()),
                Stmt::Return => Ir::Return,
                Stmt::Ending(spec) => Ir::Ending { id: clone_opt(&spec.id) },
                Stmt::Input(spec) => Ir::Input(spec.clone()),
                _ => Ir::Return,
            };
            assert(seq![ir_view(ir)] == lower_stmt(*s, b));
            out.push(ir);
            proof {
                lemma_view_push(out0, ir);
                assert(fixups_stmt(*s, b) =~= Seq::<(int, Seq<char>)>::empty());
                assert(fixups_view(fixups@) =~= fixups_view(fx0) + fixups_stmt(*s, b));
            }
        },
    }
}

/// Lower a statement list at the end of `out`, recording jump / call fixups.
fn lower_block(stmts: &Vec<Stmt>, out: &mut Vec<Ir>, fixups: &mut Vec<(usize, String)>)
    requires
        old(out)@.len() + ir_len_seq(stmts@) < u32::MAX,
    ensures
        irs_view(final(out)@) == irs_view(old(out)@) + lower_seq(stmts@, old(out)@.len() as int),
        fixups_view(final(fixups)@) == fixups_view(old(fixups)@) + fixups_seq(
            stmts@,
            old(out)@.len() as int,
        ),
    decreases stmts,
{
    let ghost out0 = out@;
    let ghost fx0 = fixups@;
    let ghost b = out@.len() as int;
    let mut i: usize = 0;
    assert(stmts@.take(0) =~= Seq::<Stmt>::empty());
    while i < stmts.len()
        invariant
            i <= stmts@.len(),
            b == out0.len(),
            b + ir_len_seq(stmts@) < u32::MAX,
            out@.len() == b + ir_len_seq(stmts@.take(i as int)),
            irs_view(out@) == irs_view(out0) + lower_seq(stmts@.take(i as int), b),
            fixups_view(fixups@) == fixups_view(fx0) + fixups_seq(stmts@.take(i as int), b),
        decreases stmts.len() - i,
    {
        let ghost prev_out = out@;
        let ghost prev_fx = fixups@;
        proof {
            lemma_take_len(stmts@, i + 1);
            assert(stmts@.take(i + 1).drop_last() =~= stmts@.take(i as int));
            assert(stmts@.take(i + 1).last() == stmts@[i as int]);
        }
        lower_stmt_exec(&stmts[i], out, fixups);
        proof {
            lemma_lower_len_stmt(stmts@[i as int], prev_out.len() as int);
        }
        i = i + 1;
        assert(irs_view(out@) =~= irs_view(out0) + lower_seq(stmts@.take(i as int), b));
        assert(fixups_view(fixups@) =~= fixups_view(fx0) + fixups_seq(stmts@.take(i as int), b));
    }
    assert(stmts@.take(stmts@.len() as int) =~= stmts@);
}

// ── Fixups point at jumps ────────────────────────────────────────────────

/// Every fixup of `fx` names an in-range, jump-like instruction of `p`
/// (`p` placed at offset `b`).
pub open spec fn fixups_point_at_jumps(fx: Seq<(int, Seq<char>)>, p: Seq<IrView>, b: int) -> bool {
    forall|j: int|
        0 <= j < fx.len() ==> b <= (#[trigger] fx[j]).0 < b + p.len() && is_jump_like(
            p[fx[j].0 - b],
        )
}

proof fn lemma_fixups_stmt_ok(s: Stmt, b: int)
    ensures
        fixups_point_at_jumps(fixups_stmt(s, b), lower_stmt(s, b), b),
    decreases s,
{
    lemma_lower_len_stmt(s, b);
    match s {
        Stmt::If(spec) => {
            let then_end = b + 1 + ir_len_seq(spec.then_@);
            lemma_fixups_seq_ok(spec.then_@, b + 1);
            lemma_lower_len_seq(spec.then_@, b + 1);
            let then_ir = lower_seq(spec.then_@, b + 1);
            let ft = fixups_seq(spec.then_@, b + 1);
            match spec.else_ {
                Some(e) => {
                    lemma_fixups_seq_ok(e@, then_end + 1);
                    lemma_lower_len_seq(e@, then_end + 1);
                    let fe = fixups_seq(e@, then_end + 1);
                    let full = lower_stmt(s, b);
                    assert forall|j: int| 0 <= j < (ft + fe).len() implies b <= (#[trigger] (ft
                        + fe)[j]).0 < b + full.len() && is_jump_like(full[(ft + fe)[j].0 - b]) by {
                        if j < ft.len() {
                            assert((ft + fe)[j] == ft[j]);
                            let i = ft[j].0;
                            assert(full[i - b] == then_ir[i - b - 1]);
                        } else {
                            assert((ft + fe)[j] == fe[j - ft.len()]);
                            let i = fe[j - ft.len()].0;
                            assert(full[i - b] == lower_seq(e@, then_end + 1)[i - then_end - 1]);
                        }
                    }
                },
                None => {
                    let full = lower_stmt(s, b);
                    assert(fixups_stmt(s, b) =~= ft);
                    assert forall|j: int| 0 <= j < ft.len() implies b <= (#[trigger] ft[j]).0 < b
                        + full.len() && is_jump_like(full[ft[j].0 - b]) by {
                        let i = ft[j].0;
                        assert(full[i - b] == then_ir[i - b - 1]);
                    }
                },
            }
        },
        _ => {},
    }
}

proof fn lemma_fixups_seq_ok(ss: Seq<Stmt>, b: int)
    ensures
        fixups_point_at_jumps(fixups_seq(ss, b), lower_seq(ss, b), b),
    decreases ss,
{
    if ss.len() > 0 {
        let dl = ss.drop_last();
        let b2 = b + ir_len_seq(dl);
        lemma_fixups_seq_ok(dl, b);
        lemma_fixups_stmt_ok(ss.last(), b2);
        lemma_lower_len_seq(dl, b);
        let f1 = fixups_seq(dl, b);
        let f2 = fixups_stmt(ss.last(), b2);
        let p1 = lower_seq(dl, b);
        let p2 = lower_stmt(ss.last(), b2);
        assert forall|j: int| 0 <= j < (f1 + f2).len() implies b <= (#[trigger] (f1 + f2)[j]).0 < b
            + (p1 + p2).len() && is_jump_like((p1 + p2)[(f1 + f2)[j].0 - b]) by {
            if j < f1.len() {
                assert((f1 + f2)[j] == f1[j]);
            } else {
                assert((f1 + f2)[j] == f2[j - f1.len()]);
            }
        }
    }
}

// ── Validation ───────────────────────────────────────────────────────────

/// The parse error Rhai's default engine reports for a script, or `None`
/// when the script compiles.
pub uninterp spec fn rhai_parse_error(src: Seq<char>) -> Option<Seq<char>>;

/// `rhai::Engine::new().compile(src)`: `None` when the script compiles,
/// else the parse error's `Display` text.
#[verifier::external_body]
fn rhai_compile_error(src: &str) -> (r: Option<String>)
    ensures
        match r {
            Some(e) => rhai_parse_error(src@) == Some(e@),
            None => rhai_parse_error(src@) is None,
        },
{
    match rhai::Engine::new().compile(src) {
        Ok(_) => None,
        Err(e) => Some(e.to_string()),
    }
}

/// Issue for a Rhai snippet that does not compile (none when it does).
pub open spec fn rhai_issue(src: Seq<char>, what: Seq<char>, label: Seq<char>) -> Seq<Seq<char>> {
    match rhai_parse_error(src) {
        Some(err) => seq![
            "label `"@ + label + "`: "@ + what + " does not compile: "@ + err,
        ],
        None => Seq::empty(),
    }
}

/// `Menu choice {i} {kind}`.
pub open spec fn choice_what(i: nat, kind: Seq<char>) -> Seq<char> {
    "Menu choice "@ + decimal(i) + " "@ + kind
}

/// Issue for a menu choice whose `goto` label does not exist.
pub open spec fn goto_issue(label: Seq<char>, i: nat, goto: Seq<char>) -> Seq<char> {
    "label `"@ + label + "`: menu choice "@ + decimal(i) + " goto `"@ + goto + "` does not exist"@
}

/// Issue for a jump or call to an unknown label.
pub open spec fn unknown_label_issue(l: Seq<char>) -> Seq<char> {
    "unknown label `"@ + l + "` (jump/call)"@
}

/// Issue for a missing entry label.
pub open spec fn entry_issue(e: Seq<char>) -> Seq<char> {
    "entry label `"@ + e + "` does not exist"@
}

/// Issues of one menu choice (index `i`) inside label `label`.
pub open spec fn check_choice(c: StoryChoice, i: nat, names: Set<Seq<char>>, label: Seq<char>) -> Seq<
    Seq<char>,
> {
    (match c.condition {
        Some(cond) => rhai_issue(cond@, choice_what(i, "condition"@), label),
        None => Seq::empty(),
    }) + (match c.effects {
        Some(fx) => rhai_issue(fx@, choice_what(i, "effects"@), label),
        None => Seq::empty(),
    }) + (match c.goto {
        Some(g) => if names.contains(g@) {
            Seq::empty()
        } else {
            seq![goto_issue(label, i, g@)]
        },
        None => Seq::empty(),
    })
}

/// Issues of a menu's choices, in order.
pub open spec fn check_choices(cs: Seq<StoryChoice>, names: Set<Seq<char>>, label: Seq<char>) -> Seq<
    Seq<char>,
>
    decreases cs.len(),
{
    if cs.len() == 0 {
        Seq::empty()
    } else {
        check_choices(cs.drop_last(), names, label) + check_choice(
            cs.last(),
            (cs.len() - 1) as nat,
            names,
            label,
        )
    }
}

/// Issues of one statement: Rhai that does not compile and menu gotos to
/// unknown labels.
pub open spec fn check_stmt(s: Stmt, names: Set<Seq<char>>, label: Seq<char>) -> Seq<Seq<char>>
    decreases s,
{
    match s {
        Stmt::Exec(src) => rhai_issue(src@, "Exec"@, label),
        Stmt::If(spec) => rhai_issue(spec.condition@, "If condition"@, label) + check_seq(
            spec.then_@,
            names,
            label,
        ) + match spec.else_ {
            Some(e) => check_seq(e@, names, label),
            None => Seq::empty(),
        },
        Stmt::Menu(m) => check_choices(m.choices@, names, label),
        _ => Seq::empty(),
    }
}

/// Issues of a statement list, in order.
pub open spec fn check_seq(ss: Seq<Stmt>, names: Set<Seq<char>>, label: Seq<char>) -> Seq<Seq<char>>
    decreases ss,
{
    if ss.len() == 0 {
        Seq::empty()
    } else {
        check_seq(ss.drop_last(), names, label) + check_stmt(ss.last(), names, label)
    }
}

/// Pushing a string onto a list pushes its view.
pub(crate) proof fn lemma_strs_push_pub(v: Seq<String>, x: String)
    ensures
        strs_view(v.push(x)) == strs_view(v).push(x@),
{
    lemma_strs_push(v, x);
}

proof fn lemma_strs_push(v: Seq<String>, x: String)
    ensures
        strs_view(v.push(x)) == strs_view(v).push(x@),
{
    assert(strs_view(v.push(x)) =~= strs_view(v).push(x@));
}

/// Record an issue when `src` does not compile.
fn check_rhai(src: &str, what: &str, label: &str, issues: &mut Vec<String>)
    ensures
        strs_view(final(issues)@) == strs_view(old(issues)@) + rhai_issue(src@, what@, label@),
{
    let ghost before = issues@;
    match rhai_compile_error(src) {
        Some(err) => {
            let m = concat_str("label `", label);
            let m = concat_str(m.as_str(), "`: ");
            let m = concat_str(m.as_str(), what);
            let m = concat_str(m.as_str(), " does not compile: ");
            let m = concat_str(m.as_str(), err.as_str());
            issues.push(m);
            proof {
                reveal_strlit("label `");
                reveal_strlit("`: ");
                reveal_strlit(" does not compile: ");
                lemma_strs_push(before, m);
                assert(strs_view(issues@) =~= strs_view(before) + rhai_issue(src@, what@, label@));
            }
        },
        None => {
            assert(strs_view(issues@) =~= strs_view(before) + rhai_issue(src@, what@, label@));
        },
    }
}

/// `Menu choice {i} {kind}` as a string.
fn choice_what_string(i: usize, kind: &str) -> (r: String)
    ensures
        r@ == choice_what(i as nat, kind@),
{
    let d = decimal_string(i);
    let m = concat_str("Menu choice ", d.as_str());
    let m = concat_str(m.as_str(), " ");
    let m = concat_str(m.as_str(), kind);
    proof {
        reveal_strlit("Menu choice ");
        reveal_strlit(" ");
    }
    m
}

/// Validate the choices of one menu inside label `label`.
fn check_menu(
    choices: &Vec<StoryChoice>,
    labels: &StrMap<u32>,
    label: &str,
    issues: &mut Vec<String>,
)
    ensures
        strs_view(final(issues)@) == strs_view(old(issues)@) + check_choices(
            choices@,
            labels@.dom(),
            label@,
        ),
{
    let ghost before = issues@;
    let mut i: usize = 0;
    assert(choices@.take(0) =~= Seq::<StoryChoice>::empty());
    while i < choices.len()
        invariant
            i <= choices@.len(),
            strs_view(issues@) == strs_view(before) + check_choices(
                choices@.take(i as int),
                labels@.dom(),
                label@,
            ),
        decreases choices.len() - i,
    {
        let c = &choices[i];
        let ghost mid0 = issues@;
        match &c.condition {
            Some(cond) => {
                let what = choice_what_string(i, "condition");
                check_rhai(cond.as_str(), what.as_str(), label, issues);
            },
            None => {},
        }
        let ghost mid1 = issues@;
        match &c.effects {
            Some(fx) => {
                let what = choice_what_string(i, "effects");
                check_rhai(fx.as_str(), what.as_str(), label, issues);
            },
            None => {},
        }
        let ghost mid2 = issues@;
        match &c.goto {
            Some(g) => {
                if !labels.contains_key(g.as_str()) {
                    let d = decimal_string(i);
                    let m = concat_str("label `", label);
                    let m = concat_str(m.as_str(), "`: menu choice ");
                    let m = concat_str(m.as_str(), d.as_str());
                    let m = concat_str(m.as_str(), " goto `");
                    let m = concat_str(m.as_str(), g.as_str());
                    let m = concat_str(m.as_str(), "` does not exist");
                    issues.push(m);
                    proof {
                        reveal_strlit("label `");
                        reveal_strlit("`: menu choice ");
                        reveal_strlit(" goto `");
                        reveal_strlit("` does not exist");
                        lemma_strs_push(mid2, m);
                    }
                }
            },
            None => {},
        }
        proof {
            reveal_strlit("condition");
            reveal_strlit("effects");
            assert(choices@.take(i + 1).drop_last() =~= choices@.take(i as int));
            assert(choices@.take(i + 1).last() == choices@[i as int]);
        }
        i = i + 1;
        assert(strs_view(issues@) =~= strs_view(before) + check_choices(
            choices@.take(i as int),
            labels@.dom(),
            label@,
        ));
    }
    assert(choices@.take(choices@.len() as int) =~= choices@);
}

/// Validate one statement inside label `label`.
fn check_stmt_exec(s: &Stmt, labels: &StrMap<u32>, label: &str, issues: &mut Vec<String>)
    ensures
        strs_view(final(issues)@) == strs_view(old(issues)@) + check_stmt(*s, labels@.dom(), label@),
    decreases s,
{
    let ghost before = issues@;
    match s {
        Stmt::Exec(src) => {
            check_rhai(src.as_str(), "Exec", label, issues);
        },
        Stmt::If(spec) => {
            check_rhai(spec.condition.as_str(), "If condition", label, issues);
            let ghost a = issues@;
            check_stmts(&spec.then_, labels, label, issues);
            let ghost b = issues@;
            match &spec.else_ {
                Some(e) => {
                    check_stmts(e, labels, label, issues);
                },
                None => {},
            }
            assert(strs_view(issues@) =~= strs_view(before) + check_stmt(*s, labels@.dom(), label@));
        },
        Stmt::Menu(m) => {
            check_menu(&m.choices, labels, label, issues);
        },
        _ => {
            assert(strs_view(issues@) =~= strs_view(before) + check_stmt(*s, labels@.dom(), label@));
        },
    }
}

/// Validate a statement list inside label `label`.
fn check_stmts(stmts: &Vec<Stmt>, labels: &StrMap<u32>, label: &str, issues: &mut Vec<String>)
    ensures
        strs_view(final(issues)@) == strs_view(old(issues)@) + check_seq(
            stmts@,
            labels@.dom(),
            label@,
        ),
    decreases stmts,
{
    let ghost before = issues@;
    let mut i: usize = 0;
    assert(stmts@.take(0) =~= Seq::<Stmt>::empty());
    while i < stmts.len()
        invariant
            i <= stmts@.len(),
            strs_view(issues@) == strs_view(before) + check_seq(
                stmts@.take(i as int),
                labels@.dom(),
                label@,
            ),
        decreases stmts.len() - i,
    {
        proof {
            assert(stmts@.take(i + 1).drop_last() =~= stmts@.take(i as int));
            assert(stmts@.take(i + 1).last() == stmts@[i as int]);
        }
        check_stmt_exec(&stmts[i], labels, label, issues);
        i = i + 1;
        assert(strs_view(issues@) =~= strs_view(before) + check_seq(
            stmts@.take(i as int),
            labels@.dom(),
            label@,
        ));
    }
    assert(stmts@.take(stmts@.len() as int) =~= stmts@);
}

// ── Compile ──────────────────────────────────────────────────────────────

/// A compiled program the runner can execute: well-formed instructions,
/// label offsets inside the program, distinct labels at distinct offsets.
pub open spec fn compiled_wf(c: Compiled) -> bool {
    &&& program_wf(irs_view(c.instrs@))
    &&& forall|key: Seq<char>| #[trigger] c.labels@.contains_key(key) ==> c.labels@[key] < c.instrs@.len()
    &&& forall|k1: Seq<char>, k2: Seq<char>|
        #[trigger] c.labels@.contains_key(k1) && #[trigger] c.labels@.contains_key(k2) && k1 != k2
            ==> c.labels@[k1] != c.labels@[k2]
}

/// Compiled story program.
#[derive(Debug)]
pub struct Compiled {
    /// Flat instruction list.
    pub instrs: Vec<Ir>,
    /// Label name → instruction offset.
    pub labels: StrMap<u32>,
}

/// Instructions of the first `k` labels, each followed by its `Return`.
pub open spec fn prog_upto(vs: Seq<Vec<Stmt>>, k: int) -> Seq<IrView>
    decreases k,
{
    if k <= 0 {
        Seq::empty()
    } else {
        let p = prog_upto(vs, k - 1);
        p + lower_seq(vs[k - 1]@, p.len() as int) + seq![IrView::Return]
    }
}

/// Fixups of the first `k` labels.
pub open spec fn fixups_upto(vs: Seq<Vec<Stmt>>, k: int) -> Seq<(int, Seq<char>)>
    decreases k,
{
    if k <= 0 {
        Seq::empty()
    } else {
        fixups_upto(vs, k - 1) + fixups_seq(vs[k - 1]@, prog_upto(vs, k - 1).len() as int)
    }
}

/// Offset of each label: where its instructions start.
pub open spec fn label_map(ks: Seq<Seq<char>>, vs: Seq<Vec<Stmt>>) -> Map<Seq<char>, u32> {
    Map::new(|key: Seq<char>| ks.contains(key), |key: Seq<char>| prog_upto(vs, ks.index_of(key)).len() as u32)
}

/// Resolve the fixups in order: each whose label has an offset patches
/// its instruction's target.
pub open spec fn patch_spec(p: Seq<IrView>, fx: Seq<(int, Seq<char>)>, m: Map<Seq<char>, u32>) -> Seq<
    IrView,
>
    decreases fx.len(),
{
    if fx.len() == 0 {
        p
    } else {
        let q = patch_spec(p, fx.drop_last(), m);
        let (i, l) = fx.last();
        if m.contains_key(l) {
            q.update(i, with_target(q[i], m[l]))
        } else {
            q
        }
    }
}

/// Issues for fixups whose label does not exist, in order.
pub open spec fn fixup_issues(fx: Seq<(int, Seq<char>)>, names: Set<Seq<char>>) -> Seq<Seq<char>>
    decreases fx.len(),
{
    if fx.len() == 0 {
        Seq::empty()
    } else {
        fixup_issues(fx.drop_last(), names) + if names.contains(fx.last().1) {
            Seq::empty()
        } else {
            seq![unknown_label_issue(fx.last().1)]
        }
    }
}

/// Issues of the first `k` labels' statements.
pub open spec fn check_upto(ks: Seq<Seq<char>>, vs: Seq<Vec<Stmt>>, k: int, names: Set<Seq<char>>) -> Seq<
    Seq<char>,
>
    decreases k,
{
    if k <= 0 {
        Seq::empty()
    } else {
        check_upto(ks, vs, k - 1, names) + check_seq(vs[k - 1]@, names, ks[k - 1])
    }
}

/// Total instruction count of a story.
pub open spec fn story_ir_len(story: Story) -> nat {
    prog_upto(story.labels.val_seq(), story.labels.val_seq().len() as int).len()
}

/// Every validation issue of a story, in the order they are reported:
/// unknown jump / call labels, then per label its Rhai and menu-goto issues,
/// then a missing entry label.
pub open spec fn compile_issues(story: Story) -> Seq<Seq<char>> {
    let ks = story.labels.key_seq();
    let vs = story.labels.val_seq();
    let n = vs.len() as int;
    let names = ks.to_set();
    fixup_issues(fixups_upto(vs, n), names) + check_upto(ks, vs, n, names) + if names.contains(
        story.entry@,
    ) {
        Seq::empty()
    } else {
        seq![entry_issue(story.entry@)]
    }
}

/// The compiled program of a valid story.
pub open spec fn compiled_program(story: Story) -> Seq<IrView> {
    let ks = story.labels.key_seq();
    let vs = story.labels.val_seq();
    let n = vs.len() as int;
    patch_spec(prog_upto(vs, n), fixups_upto(vs, n), label_map(ks, vs))
}

proof fn lemma_prog_mono(vs: Seq<Vec<Stmt>>, k: int, n: int)
    requires
        0 <= k <= n,
    ensures
        prog_upto(vs, k).len() <= prog_upto(vs, n).len(),
    decreases n - k,
{
    if k < n {
        lemma_prog_mono(vs, k + 1, n);
    }
}

proof fn lemma_fixups_upto_ok(vs: Seq<Vec<Stmt>>, k: int)
    requires
        0 <= k,
    ensures
        fixups_point_at_jumps(fixups_upto(vs, k), prog_upto(vs, k), 0),
    decreases k,
{
    if k > 0 {
        lemma_fixups_upto_ok(vs, k - 1);
        let p = prog_upto(vs, k - 1);
        let b = p.len() as int;
        lemma_fixups_seq_ok(vs[k - 1]@, b);
        lemma_lower_len_seq(vs[k - 1]@, b);
        let f1 = fixups_upto(vs, k - 1);
        let f2 = fixups_seq(vs[k - 1]@, b);
        let q = lower_seq(vs[k - 1]@, b);
        let full = prog_upto(vs, k);
        assert(full == p + q + seq![IrView::Return]);
        assert forall|j: int| 0 <= j < (f1 + f2).len() implies 0 <= (#[trigger] (f1 + f2)[j]).0
            < full.len() && is_jump_like(full[(f1 + f2)[j].0]) by {
            if j < f1.len() {
                assert((f1 + f2)[j] == f1[j]);
            } else {
                assert((f1 + f2)[j] == f2[j - f1.len()]);
                let i = f2[j - f1.len()].0;
                assert(full[i] == q[i - b]);
            }
        }
    }
}

proof fn lemma_patch_keeps(p: Seq<IrView>, fx: Seq<(int, Seq<char>)>, m: Map<Seq<char>, u32>)
    requires
        forall|j: int| 0 <= j < fx.len() ==> 0 <= (#[trigger] fx[j]).0 < p.len(),
    ensures
        patch_spec(p, fx, m).len() == p.len(),
        forall|i: int|
            0 <= i < p.len() && is_jump_like(p[i]) ==> is_jump_like(
                #[trigger] patch_spec(p, fx, m)[i],
            ),
    decreases fx.len(),
{
    if fx.len() > 0 {
        assert forall|j: int| 0 <= j < fx.drop_last().len() implies 0 <= (
        #[trigger] fx.drop_last()[j]).0 < p.len() by {
            assert(fx.drop_last()[j] == fx[j]);
        }
        lemma_patch_keeps(p, fx.drop_last(), m);
    }
}

/// Compile + validate a story: lower every label (in the map's order),
/// resolve jump / call targets against label offsets, and collect every
/// validation issue at once.
pub fn compile(story: &Story) -> (r: Result<Compiled, ScenarioError>)
    requires
        story_ir_len(*story) < u32::MAX,
    ensures
        compile_issues(*story).len() == 0 ==> (r matches Ok(c) && irs_view(c.instrs@)
            == compiled_program(*story) && c.labels@ == label_map(
            story.labels.key_seq(),
            story.labels.val_seq(),
        ) && compiled_wf(c) && c.instrs@.len() == story_ir_len(*story)),
        compile_issues(*story).len() > 0 ==> (r matches Err(ScenarioError::Validation(v))
            && strs_view(v@) == compile_issues(*story)),
{
    let n = story.labels.entry_count();
    let ghost ks = story.labels.key_seq();
    let ghost vs = story.labels.val_seq();
    let mut instrs: Vec<Ir> = Vec::new();
    let mut labels: StrMap<u32> = StrMap::new();
    let mut fixups: Vec<(usize, String)> = Vec::new();
    let mut issues: Vec<String> = Vec::new();
    let mut k: usize = 0;
    assert(irs_view(instrs@) =~= prog_upto(vs, 0));
    assert(fixups_view(fixups@) =~= fixups_upto(vs, 0));
    while k < n
        invariant
            k <= n,
            n == ks.len(),
            n == vs.len(),
            ks == story.labels.key_seq(),
            vs == story.labels.val_seq(),
            ks.no_duplicates(),
            prog_upto(vs, n as int).len() < u32::MAX,
            instrs@.len() == prog_upto(vs, k as int).len(),
            irs_view(instrs@) == prog_upto(vs, k as int),
            fixups_view(fixups@) == fixups_upto(vs, k as int),
            forall|key: Seq<char>| labels@.contains_key(key) <==> ks.take(k as int).contains(key),
            forall|m: int| 0 <= m < k ==> labels@[#[trigger] ks[m]] == prog_upto(vs, m).len() as u32,
        decreases n - k,
    {
        let name = story.labels.key_at(k);
        let stmts = story.labels.val_at(k);
        proof {
            lemma_prog_mono(vs, k + 1, n as int);
            lemma_lower_len_seq(vs[k as int]@, instrs@.len() as int);
        }
        let ghost labels0 = labels@;
        labels.insert(name.clone(), instrs.len() as u32);
        let ghost before = instrs@;
        lower_block(stmts, &mut instrs, &mut fixups);
        let ghost mid = instrs@;
        instrs.push(Ir::Return);
        proof {
            lemma_view_push(mid, Ir::Return);
            assert(irs_view(instrs@) =~= prog_upto(vs, k + 1));
            assert(fixups_view(fixups@) =~= fixups_upto(vs, k + 1));
            assert forall|key: Seq<char>| labels@.contains_key(key) <==> ks.take(k + 1).contains(key) by {
                if ks.take(k + 1).contains(key) {
                    let w = choose|w: int| 0 <= w < k + 1 && #[trigger] ks.take(k + 1)[w] == key;
                    if w < k {
                        assert(ks.take(k as int).contains(key));
                    }
                }
                if ks.take(k as int).contains(key) {
                    let w = choose|w: int| 0 <= w < k && #[trigger] ks.take(k as int)[w] == key;
                    assert(ks.take(k + 1)[w] == key);
                }
                if key == ks[k as int] {
                    assert(ks.take(k + 1)[k as int] == key);
                }
            }
            assert forall|m: int| 0 <= m < k + 1 implies labels@[#[trigger] ks[m]] == prog_upto(
                vs,
                m,
            ).len() as u32 by {
                if m < k {
                    assert(ks[m] != ks[k as int]);
                }
            }
        }
        k = k + 1;
    }
    let ghost lm = label_map(ks, vs);
    proof {
        assert(ks.take(n as int) =~= ks);
        assert forall|key: Seq<char>| #[trigger] labels@.contains_key(key) implies labels@[key] == lm[key] by {
            let w = ks.index_of(key);
            assert(ks.contains(key));
            assert(ks[w] == key);
        }
        assert(labels@ =~= lm);
    }
    // Resolve jump / call fixups against label offsets.
    let ghost p = prog_upto(vs, n as int);
    let ghost fx = fixups_view(fixups@);
    proof {
        lemma_fixups_upto_ok(vs, n as int);
    }
    let mut j: usize = 0;
    assert(fx.take(0) =~= Seq::<(int, Seq<char>)>::empty());
    while j < fixups.len()
        invariant
            j <= fixups@.len(),
            fx == fixups_view(fixups@),
            fx.len() == fixups@.len(),
            labels@ == lm,
            lm.dom() == ks.to_set(),
            fixups_point_at_jumps(fx, p, 0),
            p.len() == instrs@.len(),
            irs_view(instrs@) == patch_spec(p, fx.take(j as int), lm),
            strs_view(issues@) == fixup_issues(fx.take(j as int), lm.dom()),
        decreases fixups.len() - j,
    {
        let idx = fixups[j].0;
        let ghost fj = fx[j as int];
        assert(fj == (idx as int, fixups@[j as int].1@));
        proof {
            assert(fx.take(j + 1).drop_last() =~= fx.take(j as int));
            assert(fx.take(j + 1).last() == fj);
            assert forall|t: int| 0 <= t < fx.take(j as int).len() implies 0 <= (
            #[trigger] fx.take(j as int)[t]).0 < p.len() by {
                assert(fx.take(j as int)[t] == fx[t]);
            }
            lemma_patch_keeps(p, fx.take(j as int), lm);
            assert(irs_view(instrs@)[idx as int] == ir_view(instrs@[idx as int]));
        }
        let ghost iss0 = issues@;
        match labels.get(fixups[j].1.as_str()) {
            Some(off) => {
                patch_target(&mut instrs, idx, *off);
            },
            None => {
                let m = concat_str("unknown label `", fixups[j].1.as_str());
                let m = concat_str(m.as_str(), "` (jump/call)");
                issues.push(m);
                proof {
                    reveal_strlit("unknown label `");
                    reveal_strlit("` (jump/call)");
                    lemma_strs_push(iss0, m);
                }
            },
        }
        j = j + 1;
        assert(irs_view(instrs@) =~= patch_spec(p, fx.take(j as int), lm));
        assert(strs_view(issues@) =~= fixup_issues(fx.take(j as int), lm.dom()));
    }
    assert(fx.take(fx.len() as int) =~= fx);
    // Menu gotos and Rhai snippets.
    let ghost iss1 = strs_view(issues@);
    let mut k: usize = 0;
    assert(iss1 + check_upto(ks, vs, 0, lm.dom()) =~= iss1);
    while k < n
        invariant
            k <= n,
            n == ks.len(),
            n == vs.len(),
            ks == story.labels.key_seq(),
            vs == story.labels.val_seq(),
            labels@ == lm,
            strs_view(issues@) == iss1 + check_upto(ks, vs, k as int, lm.dom()),
        decreases n - k,
    {
        check_stmts(story.labels.val_at(k), &labels, story.labels.key_at(k).as_str(), &mut issues);
        k = k + 1;
        assert(strs_view(issues@) =~= iss1 + check_upto(ks, vs, k as int, lm.dom()));
    }
    let ghost iss2 = issues@;
    if !labels.contains_key(story.entry.as_str()) {
        let m = concat_str("entry label `", story.entry.as_str());
        let m = concat_str(m.as_str(), "` does not exist");
        issues.push(m);
        proof {
            reveal_strlit("entry label `");
            reveal_strlit("` does not exist");
            lemma_strs_push(iss2, m);
        }
    }
    assert(strs_view(issues@) =~= compile_issues(*story));
    if issues.len() > 0 {
        return Err(ScenarioError::Validation(issues));
    }
    proof {
        lemma_compiled_wf(*story);
        lemma_label_offsets_distinct(ks, vs);
    }
    let c = Compiled { instrs, labels };
    assert(irs_view(c.instrs@).len() == c.instrs@.len());
    Ok(c)
}

// ── Well-formed programs ────────────────────────────────────────────────

/// The transfer target an instruction carries, if any.
pub open spec fn ir_target(v: IrView) -> Option<u32> {
    match v {
        IrView::JumpIfFalse { cond: _, target } => Some(target),
        IrView::Jump(t) => Some(t),
        IrView::Call(t) => Some(t),
        _ => None,
    }
}

/// A program the runner can execute without leaving it: it ends with a
/// `Return` (so no instruction falls off the end) and every transfer
/// target is an instruction index.
pub open spec fn program_wf(p: Seq<IrView>) -> bool {
    &&& p.len() > 0 ==> p.last() is Return
    &&& forall|i: int| 0 <= i < p.len() && (#[trigger] ir_target(p[i])) is Some ==> ir_target(p[i])->0 < p.len()
}

/// Whether some fixup of `fx` is at index `i`.
pub open spec fn has_fixup(fx: Seq<(int, Seq<char>)>, i: int) -> bool {
    exists|j: int| 0 <= j < fx.len() && (#[trigger] fx[j]).0 == i
}

/// Targets of a block placed at `b` with `n` instructions: in-block targets
/// lie in `(b, b + n]`; the rest are fixup placeholders.
pub open spec fn block_targets_ok(p: Seq<IrView>, fx: Seq<(int, Seq<char>)>, b: int) -> bool {
    forall|i: int|
        0 <= i < p.len() && (#[trigger] ir_target(p[i])) is Some ==> (has_fixup(fx, b + i) || (b
            < ir_target(p[i])->0 <= b + p.len()))
}

proof fn lemma_has_fixup_concat(f1: Seq<(int, Seq<char>)>, f2: Seq<(int, Seq<char>)>, i: int)
    ensures
        has_fixup(f1, i) ==> has_fixup(f1 + f2, i),
        has_fixup(f2, i) ==> has_fixup(f1 + f2, i),
{
    if has_fixup(f1, i) {
        let j = choose|j: int| 0 <= j < f1.len() && (#[trigger] f1[j]).0 == i;
        assert((f1 + f2)[j] == f1[j]);
    }
    if has_fixup(f2, i) {
        let j = choose|j: int| 0 <= j < f2.len() && (#[trigger] f2[j]).0 == i;
        assert((f1 + f2)[f1.len() + j] == f2[j]);
    }
}

proof fn lemma_targets_if_else(spec: crate::story::IfSpec, e: Vec<Stmt>, b: int)
    requires
        spec.else_ == Some(e),
        b + ir_len(Stmt::If(spec)) < u32::MAX,
        b >= 0,
        block_targets_ok(
            lower_seq(spec.then_@, b + 1),
            fixups_seq(spec.then_@, b + 1),
            b + 1,
        ),
        block_targets_ok(
            lower_seq(e@, b + 2 + ir_len_seq(spec.then_@)),
            fixups_seq(e@, b + 2 + ir_len_seq(spec.then_@)),
            b + 2 + ir_len_seq(spec.then_@),
        ),
        lower_seq(spec.then_@, b + 1).len() == ir_len_seq(spec.then_@),
        lower_seq(e@, b + 2 + ir_len_seq(spec.then_@)).len() == ir_len_seq(e@),
    ensures
        block_targets_ok(lower_stmt(Stmt::If(spec), b), fixups_stmt(Stmt::If(spec), b), b),
{
    let s = Stmt::If(spec);
    let tl = ir_len_seq(spec.then_@);
    let es = b + 2 + tl;
    let p = lower_stmt(s, b);
    let fx = fixups_stmt(s, b);
    let then_ir = lower_seq(spec.then_@, b + 1);
    let else_ir = lower_seq(e@, es);
    let ft = fixups_seq(spec.then_@, b + 1);
    let fe = fixups_seq(e@, es);
    assert(p == seq![IrView::JumpIfFalse { cond: spec.condition, target: es as u32 }] + then_ir
        + seq![IrView::Jump((es + ir_len_seq(e@)) as u32)] + else_ir);
    assert(fx == ft + fe);
    assert forall|i: int| 0 <= i < p.len() && (#[trigger] ir_target(p[i])) is Some implies (has_fixup(
        fx,
        b + i,
    ) || (b < ir_target(p[i])->0 <= b + p.len())) by {
        if 1 <= i < 1 + tl {
            assert(p[i] == then_ir[i - 1]);
            lemma_has_fixup_concat(ft, fe, b + i);
        } else if 2 + tl <= i {
            assert(p[i] == else_ir[i - 2 - tl]);
            lemma_has_fixup_concat(ft, fe, b + i);
        }
    }
}

proof fn lemma_targets_if_then(spec: crate::story::IfSpec, b: int)
    requires
        spec.else_ is None,
        b + ir_len(Stmt::If(spec)) < u32::MAX,
        b >= 0,
        block_targets_ok(
            lower_seq(spec.then_@, b + 1),
            fixups_seq(spec.then_@, b + 1),
            b + 1,
        ),
        lower_seq(spec.then_@, b + 1).len() == ir_len_seq(spec.then_@),
    ensures
        block_targets_ok(lower_stmt(Stmt::If(spec), b), fixups_stmt(Stmt::If(spec), b), b),
{
    let s = Stmt::If(spec);
    let tl = ir_len_seq(spec.then_@);
    let p = lower_stmt(s, b);
    let fx = fixups_stmt(s, b);
    let then_ir = lower_seq(spec.then_@, b + 1);
    let ft = fixups_seq(spec.then_@, b + 1);
    assert(p == seq![IrView::JumpIfFalse { cond: spec.condition, target: (b + 1 + tl) as u32 }]
        + then_ir);
    assert(fx =~= ft);
    assert forall|i: int| 0 <= i < p.len() && (#[trigger] ir_target(p[i])) is Some implies (has_fixup(
        fx,
        b + i,
    ) || (b < ir_target(p[i])->0 <= b + p.len())) by {
        if 1 <= i {
            assert(p[i] == then_ir[i - 1]);
        }
    }
}

proof fn lemma_targets_stmt(s: Stmt, b: int)
    requires
        b + ir_len(s) < u32::MAX,
        b >= 0,
    ensures
        block_targets_ok(lower_stmt(s, b), fixups_stmt(s, b), b),
    decreases s,
{
    match s {
        Stmt::If(spec) => {
            lemma_targets_seq(spec.then_@, b + 1);
            lemma_lower_len_seq(spec.then_@, b + 1);
            match spec.else_ {
                Some(e) => {
                    let es = b + 2 + ir_len_seq(spec.then_@);
                    lemma_targets_seq(e@, es);
                    lemma_lower_len_seq(e@, es);
                    lemma_targets_if_else(spec, e, b);
                },
                None => {
                    lemma_targets_if_then(spec, b);
                },
            }
        },
        Stmt::Jump(l) => {
            assert(fixups_stmt(s, b)[0].0 == b);
        },
        Stmt::Call(l) => {
            assert(fixups_stmt(s, b)[0].0 == b);
        },
        _ => {},
    }
}

proof fn lemma_targets_seq(ss: Seq<Stmt>, b: int)
    requires
        b + ir_len_seq(ss) < u32::MAX,
        b >= 0,
    ensures
        block_targets_ok(lower_seq(ss, b), fixups_seq(ss, b), b),
    decreases ss,
{
    if ss.len() > 0 {
        let dl = ss.drop_last();
        let b2 = b + ir_len_seq(dl);
        lemma_targets_seq(dl, b);
        lemma_targets_stmt(ss.last(), b2);
        lemma_lower_len_seq(dl, b);
        lemma_lower_len_stmt(ss.last(), b2);
        let p1 = lower_seq(dl, b);
        let p2 = lower_stmt(ss.last(), b2);
        let f1 = fixups_seq(dl, b);
        let f2 = fixups_stmt(ss.last(), b2);
        let p = p1 + p2;
        assert forall|i: int| 0 <= i < p.len() && (#[trigger] ir_target(p[i])) is Some implies (
        has_fixup(f1 + f2, b + i) || (b < ir_target(p[i])->0 <= b + p.len())) by {
            lemma_has_fixup_concat(f1, f2, b + i);
            if i < p1.len() {
                assert(p[i] == p1[i]);
            } else {
                assert(p[i] == p2[i - p1.len()]);
            }
        }
    }
}

proof fn lemma_targets_upto(vs: Seq<Vec<Stmt>>, k: int, n: int)
    requires
        0 <= k <= n,
        prog_upto(vs, n).len() < u32::MAX,
    ensures
        forall|i: int|
            0 <= i < prog_upto(vs, k).len() && (#[trigger] ir_target(prog_upto(vs, k)[i])) is Some
                ==> (has_fixup(fixups_upto(vs, k), i) || ir_target(prog_upto(vs, k)[i])->0 < prog_upto(
                vs,
                k,
            ).len()),
        k > 0 ==> prog_upto(vs, k).last() is Return,
    decreases k,
{
    if k > 0 {
        lemma_targets_upto(vs, k - 1, n);
        lemma_prog_mono(vs, k, n);
        let p0 = prog_upto(vs, k - 1);
        let b = p0.len() as int;
        lemma_lower_len_seq(vs[k - 1]@, b);
        lemma_targets_seq(vs[k - 1]@, b);
        let q = lower_seq(vs[k - 1]@, b);
        let p = prog_upto(vs, k);
        let f0 = fixups_upto(vs, k - 1);
        let f1 = fixups_seq(vs[k - 1]@, b);
        assert(p == p0 + q + seq![IrView::Return]);
        assert forall|i: int| 0 <= i < p.len() && (#[trigger] ir_target(p[i])) is Some implies (has_fixup(
            f0 + f1,
            i,
        ) || ir_target(p[i])->0 < p.len()) by {
            lemma_has_fixup_concat(f0, f1, i);
            if i < b {
                assert(p[i] == p0[i]);
            } else if i < b + q.len() {
                assert(p[i] == q[i - b]);
            }
        }
    }
}

proof fn lemma_patch_targets(p: Seq<IrView>, fx: Seq<(int, Seq<char>)>, m: Map<Seq<char>, u32>, bound: int)
    requires
        forall|j: int| 0 <= j < fx.len() ==> 0 <= (#[trigger] fx[j]).0 < p.len(),
        forall|j: int| 0 <= j < fx.len() ==> m.contains_key((#[trigger] fx[j]).1),
        forall|j: int| 0 <= j < fx.len() ==> is_jump_like(p[(#[trigger] fx[j]).0]),
        forall|key: Seq<char>| #[trigger] m.contains_key(key) ==> m[key] < bound,
    ensures
        forall|i: int|
            0 <= i < p.len() && has_fixup(fx, i) ==> (#[trigger] ir_target(patch_spec(p, fx, m)[i])) is Some
                && ir_target(patch_spec(p, fx, m)[i])->0 < bound,
        forall|i: int|
            0 <= i < p.len() && !has_fixup(fx, i) ==> #[trigger] patch_spec(p, fx, m)[i] == p[i],
        patch_spec(p, fx, m).len() == p.len(),
    decreases fx.len(),
{
    lemma_patch_keeps(p, fx, m);
    if fx.len() > 0 {
        let dl = fx.drop_last();
        assert forall|j: int| 0 <= j < dl.len() implies 0 <= (#[trigger] dl[j]).0 < p.len() && m.contains_key(
            dl[j].1,
        ) && is_jump_like(p[dl[j].0]) by {
            assert(dl[j] == fx[j]);
        }
        lemma_patch_targets(p, dl, m, bound);
        lemma_patch_keeps(p, dl, m);
        let q = patch_spec(p, dl, m);
        let (x, l) = fx.last();
        assert(fx[fx.len() - 1] == fx.last());
        assert forall|i: int| 0 <= i < p.len() && has_fixup(fx, i) implies (#[trigger] ir_target(
            patch_spec(p, fx, m)[i],
        )) is Some && ir_target(patch_spec(p, fx, m)[i])->0 < bound by {
            if i == x {
                assert(is_jump_like(p[x]));
            } else {
                let j = choose|j: int| 0 <= j < fx.len() && (#[trigger] fx[j]).0 == i;
                assert(j < dl.len());
                assert(dl[j] == fx[j]);
            }
        }
        assert forall|i: int| 0 <= i < p.len() && !has_fixup(fx, i) implies #[trigger] patch_spec(
            p,
            fx,
            m,
        )[i] == p[i] by {
            if has_fixup(dl, i) {
                let j = choose|j: int| 0 <= j < dl.len() && (#[trigger] dl[j]).0 == i;
                assert(fx[j] == dl[j]);
            }
            if i == x {
                assert(fx[fx.len() - 1].0 == i);
            }
        }
    }
}

/// A story that compiles yields a program the runner can execute: it ends
/// with a `Return`, every transfer target is an instruction index, and every
/// label offset is an instruction index.
pub proof fn lemma_compiled_wf(story: Story)
    requires
        story_ir_len(story) < u32::MAX,
        compile_issues(story).len() == 0,
        story.labels.key_seq().len() == story.labels.val_seq().len(),
    ensures
        program_wf(compiled_program(story)),
        forall|key: Seq<char>|
            #[trigger] label_map(story.labels.key_seq(), story.labels.val_seq()).contains_key(key)
                ==> label_map(story.labels.key_seq(), story.labels.val_seq())[key]
                < compiled_program(story).len(),
{
    let ks = story.labels.key_seq();
    let vs = story.labels.val_seq();
    let n = vs.len() as int;
    let p = prog_upto(vs, n);
    let fx = fixups_upto(vs, n);
    let m = label_map(ks, vs);
    lemma_targets_upto(vs, n, n);
    lemma_fixups_upto_ok(vs, n);
    assert forall|key: Seq<char>| #[trigger] m.contains_key(key) implies m[key] < p.len() by {
        let w = ks.index_of(key);
        assert(ks.contains(key));
        lemma_prog_mono(vs, w + 1, n);
        assert(prog_upto(vs, w + 1).len() > prog_upto(vs, w).len());
    }
    lemma_fixup_issues_empty(fx, ks.to_set());
    assert forall|j: int| 0 <= j < fx.len() implies m.contains_key((#[trigger] fx[j]).1) by {
        assert(ks.to_set().contains(fx[j].1));
    }
    lemma_patch_targets(p, fx, m, p.len() as int);
    let q = compiled_program(story);
    assert(q == patch_spec(p, fx, m));
    if q.len() > 0 {
        assert(n > 0);
        assert(!has_fixup(fx, q.len() - 1)) by {
            if has_fixup(fx, q.len() - 1) {
                let j = choose|j: int| 0 <= j < fx.len() && (#[trigger] fx[j]).0 == q.len() - 1;
                assert(is_jump_like(p[q.len() - 1]));
            }
        }
    }
    assert forall|i: int| 0 <= i < q.len() && (#[trigger] ir_target(q[i])) is Some implies ir_target(
        q[i],
    )->0 < q.len() by {
        if !has_fixup(fx, i) {
            assert(q[i] == p[i]);
        }
    }
}

proof fn lemma_fixup_issues_empty(fx: Seq<(int, Seq<char>)>, names: Set<Seq<char>>)
    requires
        fixup_issues(fx, names).len() == 0,
    ensures
        forall|j: int| 0 <= j < fx.len() ==> names.contains((#[trigger] fx[j]).1),
    decreases fx.len(),
{
    if fx.len() > 0 {
        lemma_fixup_issues_empty(fx.drop_last(), names);
        assert forall|j: int| 0 <= j < fx.len() implies names.contains((#[trigger] fx[j]).1) by {
            if j < fx.len() - 1 {
                assert(fx.drop_last()[j] == fx[j]);
            }
        }
    }
}

proof fn lemma_prog_strict(vs: Seq<Vec<Stmt>>, a: int, c: int)
    requires
        0 <= a < c,
    ensures
        prog_upto(vs, a).len() < prog_upto(vs, c).len(),
    decreases c - a,
{
    if a + 1 < c {
        lemma_prog_strict(vs, a + 1, c);
    }
}

proof fn lemma_label_offsets_distinct(ks: Seq<Seq<char>>, vs: Seq<Vec<Stmt>>)
    requires
        ks.no_duplicates(),
        prog_upto(vs, vs.len() as int).len() < u32::MAX,
        ks.len() == vs.len(),
    ensures
        forall|k1: Seq<char>, k2: Seq<char>|
            #[trigger] label_map(ks, vs).contains_key(k1) && #[trigger] label_map(ks, vs).contains_key(k2)
                && k1 != k2 ==> label_map(ks, vs)[k1] != label_map(ks, vs)[k2],
{
    let m = label_map(ks, vs);
    assert forall|k1: Seq<char>, k2: Seq<char>|
        #[trigger] m.contains_key(k1) && #[trigger] m.contains_key(k2) && k1 != k2 implies m[k1] != m[k2] by {
        let a = ks.index_of(k1);
        let c = ks.index_of(k2);
        assert(ks.contains(k1));
        assert(ks.contains(k2));
        assert(a != c);
        let n = vs.len() as int;
        if a < c {
            lemma_prog_strict(vs, a, c);
            lemma_prog_mono(vs, c, n);
        } else {
            lemma_prog_strict(vs, c, a);
            lemma_prog_mono(vs, a, n);
        }
    }
}

/// Rhai text that does not parse.
pub open spec fn bad_rhai(src: Seq<char>) -> bool {
    rhai_parse_error(src) is Some
}

/// A menu choice is faulty: its condition or effects do not parse, or its
/// `goto` names no label.
pub open spec fn choice_faulty(c: StoryChoice, names: Set<Seq<char>>) -> bool {
    ||| c.condition matches Some(x) && bad_rhai(x@)
    ||| c.effects matches Some(x) && bad_rhai(x@)
    ||| c.goto matches Some(g) && !names.contains(g@)
}

/// A statement holds a fault anywhere inside it: an `Exec` or `If`
/// condition that does not parse, a faulty menu choice, or a fault in
/// either branch of an `If`.
pub open spec fn stmt_faulty(s: Stmt, names: Set<Seq<char>>) -> bool
    decreases s,
{
    match s {
        Stmt::Exec(src) => bad_rhai(src@),
        Stmt::If(spec) => bad_rhai(spec.condition@) || seq_faulty(spec.then_@, names) || match spec.else_ {
            Some(e) => seq_faulty(e@, names),
            None => false,
        },
        Stmt::Menu(m) => exists|i: int| 0 <= i < m.choices@.len() && choice_faulty(#[trigger] m.choices@[i], names),
        _ => false,
    }
}

/// Some statement of the list holds a fault.
pub open spec fn seq_faulty(ss: Seq<Stmt>, names: Set<Seq<char>>) -> bool
    decreases ss,
{
    if ss.len() == 0 {
        false
    } else {
        seq_faulty(ss.drop_last(), names) || stmt_faulty(ss.last(), names)
    }
}

proof fn lemma_choice_issues(cs: Seq<StoryChoice>, names: Set<Seq<char>>, label: Seq<char>)
    ensures
        check_choices(cs, names, label).len() > 0 <==> exists|i: int|
            0 <= i < cs.len() && choice_faulty(#[trigger] cs[i], names),
    decreases cs.len(),
{
    if cs.len() > 0 {
        lemma_choice_issues(cs.drop_last(), names, label);
        let d = cs.drop_last();
        if exists|i: int| 0 <= i < cs.len() && choice_faulty(#[trigger] cs[i], names) {
            let i = choose|i: int| 0 <= i < cs.len() && choice_faulty(#[trigger] cs[i], names);
            if i < cs.len() - 1 {
                assert(d[i] == cs[i]);
            }
        }
        if exists|i: int| 0 <= i < d.len() && choice_faulty(#[trigger] d[i], names) {
            let i = choose|i: int| 0 <= i < d.len() && choice_faulty(#[trigger] d[i], names);
            assert(cs[i] == d[i]);
        }
    }
}

/// Validation is complete and exact for a statement: it reports an issue
/// exactly when the statement holds a fault anywhere inside it.
pub proof fn lemma_stmt_issues_iff_faulty(s: Stmt, names: Set<Seq<char>>, label: Seq<char>)
    ensures
        check_stmt(s, names, label).len() > 0 <==> stmt_faulty(s, names),
    decreases s,
{
    match s {
        Stmt::If(spec) => {
            lemma_seq_issues_iff_faulty(spec.then_@, names, label);
            match spec.else_ {
                Some(e) => lemma_seq_issues_iff_faulty(e@, names, label),
                None => {},
            }
        },
        Stmt::Menu(m) => {
            lemma_choice_issues(m.choices@, names, label);
        },
        _ => {},
    }
}

/// Validation is complete and exact for a statement list: it reports an
/// issue exactly when some statement, at any depth, holds a fault.
pub proof fn lemma_seq_issues_iff_faulty(ss: Seq<Stmt>, names: Set<Seq<char>>, label: Seq<char>)
    ensures
        check_seq(ss, names, label).len() > 0 <==> seq_faulty(ss, names),
    decreases ss,
{
    if ss.len() > 0 {
        lemma_seq_issues_iff_faulty(ss.drop_last(), names, label);
        lemma_stmt_issues_iff_faulty(ss.last(), names, label);
    }
}

proof fn lemma_check_upto_has(ks: Seq<Seq<char>>, vs: Seq<Vec<Stmt>>, k: int, names: Set<Seq<char>>, j: int)
    requires
        0 <= j < k,
    ensures
        check_upto(ks, vs, k, names).len() >= check_seq(vs[j]@, names, ks[j]).len(),
    decreases k,
{
    if j < k - 1 {
        lemma_check_upto_has(ks, vs, k - 1, names, j);
    }
}

/// A story compiles only when no label's statements hold a fault: a menu
/// `goto` to a missing label, or Rhai that does not parse, anywhere in a
/// label, both branches of every `If` included, makes it a validation error.
pub proof fn lemma_faulty_label_fails_compile(story: Story, j: int)
    requires
        0 <= j < story.labels.val_seq().len(),
        seq_faulty(story.labels.val_seq()[j]@, story.labels.key_seq().to_set()),
    ensures
        compile_issues(story).len() > 0,
{
    let ks = story.labels.key_seq();
    let vs = story.labels.val_seq();
    let names = ks.to_set();
    lemma_seq_issues_iff_faulty(vs[j]@, names, ks[j]);
    lemma_check_upto_has(ks, vs, vs.len() as int, names, j);
}

} // verus!
