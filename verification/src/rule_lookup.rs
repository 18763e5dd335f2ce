//! The decisions of a table lookup made from a Rust-written rule: look the
//! key up and, under term encoding, keep the view table and its proofs in
//! step. The e-graph performs each table operation; this module decides
//! which one comes next.

use vstd::prelude::*;
use crate::query::Value;
use crate::wiring::{
    find_index, find_text, first_named, first_named_index, lookup_index, lookup_text, opt_int,
    FunctionDecl, ProofWiring,
};

verus! {

/// The tables one lookup may touch, by index among the function tables.
pub struct LookupPlan {
    /// The table looked up.
    pub table: usize,
    /// The key looked up.
    pub key: Vec<Value>,
    /// The view table of the table's constructor, under term encoding.
    pub view: Option<usize>,
    /// The view-proof table of the table's constructor.
    pub view_proof: Option<usize>,
    /// The term-proof table of the table's output sort.
    pub term_proof: Option<usize>,
    /// The AST table of the table's output sort.
    pub to_ast: Option<usize>,
    /// The table of proofs taken on faith.
    pub fiat: Option<usize>,
    /// The rule-proof constructor.
    pub rule: Option<usize>,
    /// The empty proof list constructor.
    pub pnil: Option<usize>,
}

/// A table operation for the e-graph to perform.
#[derive(Debug, PartialEq, Eq)]
pub enum TableOp {
    /// Look `key` up in `table`; the reply is what it holds (or makes).
    Lookup { table: usize, key: Vec<Value> },
    /// Insert `row` into `table`; the reply does not matter.
    Insert { table: usize, row: Vec<Value> },
    /// Turn the rule's name into a string value; the reply is that value.
    InternRuleName,
    /// The lookup is over, with this result.
    Done(Option<Value>),
}

/// A `TableOp` with its rows as sequences.
#[verifier::ext_equal]
pub enum TableOpView {
    Lookup(usize, Seq<Value>),
    Insert(usize, Seq<Value>),
    InternRuleName,
    Done(Option<Value>),
}

impl View for TableOp {
    type V = TableOpView;

    open spec fn view(&self) -> TableOpView {
        match self {
            TableOp::Lookup { table, key } => TableOpView::Lookup(*table, key@),
            TableOp::Insert { table, row } => TableOpView::Insert(*table, row@),
            TableOp::InternRuleName => TableOpView::InternRuleName,
            TableOp::Done(r) => TableOpView::Done(*r),
        }
    }
}

/// Where a lookup stands: what it waits for, and what it has learnt.
#[derive(Clone, Copy, PartialEq, Eq, Debug, Structural)]
pub enum LookupState {
    /// Nothing asked yet.
    Start,
    /// Waiting for the table's output.
    AwaitOutput,
    /// Waiting for the view table's lookup of the key and output.
    AwaitView { out: Value },
    /// Waiting for an existing term proof of the output.
    AwaitTermProof { out: Value },
    /// Waiting for the AST of the output.
    AwaitAst { out: Value },
    /// Waiting for the rule's name as a value.
    AwaitRuleName { out: Value, ast: Value },
    /// Waiting for the empty proof list.
    AwaitNil { out: Value, ast: Value, name: Value },
    /// Waiting for a fresh proof of the output.
    AwaitProof { out: Value, ast: Value },
    /// Waiting while the term proof is stored.
    AwaitProofStored { out: Value, proof: Value },
    /// Waiting while the view proof is stored.
    AwaitViewProofStored { out: Value },
    /// Over.
    Finished,
}

/// `LookupPlan` with its key as a sequence.
pub struct LookupPlanView {
    pub table: usize,
    pub key: Seq<Value>,
    pub view: Option<usize>,
    pub view_proof: Option<usize>,
    pub term_proof: Option<usize>,
    pub to_ast: Option<usize>,
    pub fiat: Option<usize>,
    pub rule: Option<usize>,
    pub pnil: Option<usize>,
}

impl View for LookupPlan {
    type V = LookupPlanView;

    open spec fn view(&self) -> LookupPlanView {
        LookupPlanView {
            table: self.table,
            key: self.key@,
            view: self.view,
            view_proof: self.view_proof,
            term_proof: self.term_proof,
            to_ast: self.to_ast,
            fiat: self.fiat,
            rule: self.rule,
            pnil: self.pnil,
        }
    }
}

/// Once there is a proof of `out`: store it as the view proof of the key
/// and output, when there is a view-proof table; then finish with `out`.
pub open spec fn after_proof(p: LookupPlanView, out: Value, proof: Value) -> (LookupState, TableOpView) {
    match p.view_proof {
        Some(vp) => (
            LookupState::AwaitViewProofStored { out },
            TableOpView::Insert(vp, p.key.push(out).push(proof)),
        ),
        None => (LookupState::Finished, TableOpView::Done(Some(out))),
    }
}

/// The next state and operation, given the reply to the last operation.
pub open spec fn lookup_transition(p: LookupPlanView, s: LookupState, reply: Option<Value>) -> (
    LookupState,
    TableOpView,
) {
    let finish = |out: Value| (LookupState::Finished, TableOpView::Done(Some(out)));
    match s {
        LookupState::Start => (LookupState::AwaitOutput, TableOpView::Lookup(p.table, p.key)),
        LookupState::AwaitOutput => match reply {
            None => (LookupState::Finished, TableOpView::Done(None)),
            Some(out) => match p.view {
                Some(v) => (LookupState::AwaitView { out }, TableOpView::Lookup(v, p.key.push(out))),
                None => finish(out),
            },
        },
        LookupState::AwaitView { out } => match (p.term_proof, p.to_ast, p.fiat) {
            (Some(tp), Some(_), Some(_)) => (
                LookupState::AwaitTermProof { out },
                TableOpView::Lookup(tp, seq![out]),
            ),
            _ => finish(out),
        },
        LookupState::AwaitTermProof { out } => match reply {
            Some(existing) => after_proof(p, out, existing),
            None => (LookupState::AwaitAst { out }, TableOpView::Lookup(p.to_ast->0, seq![out])),
        },
        LookupState::AwaitAst { out } => match reply {
            None => finish(out),
            Some(ast) => if p.rule is Some && p.pnil is Some {
                (LookupState::AwaitRuleName { out, ast }, TableOpView::InternRuleName)
            } else {
                (LookupState::AwaitProof { out, ast }, TableOpView::Lookup(p.fiat->0, seq![ast, ast]))
            },
        },
        LookupState::AwaitRuleName { out, ast } => (
            LookupState::AwaitNil { out, ast, name: reply->0 },
            TableOpView::Lookup(p.pnil->0, seq![]),
        ),
        LookupState::AwaitNil { out, ast, name } => match reply {
            None => finish(out),
            Some(empty) => (
                LookupState::AwaitProof { out, ast },
                TableOpView::Lookup(p.rule->0, seq![name, empty, ast, ast]),
            ),
        },
        LookupState::AwaitProof { out, ast } => match reply {
            None => finish(out),
            Some(proof) => (
                LookupState::AwaitProofStored { out, proof },
                TableOpView::Insert(p.term_proof->0, seq![out, proof]),
            ),
        },
        LookupState::AwaitProofStored { out, proof } => after_proof(p, out, proof),
        LookupState::AwaitViewProofStored { out } => finish(out),
        LookupState::Finished => (LookupState::Finished, TableOpView::Done(None)),
    }
}

/// The tables that a state relies on exist in the plan: a state past the
/// view lookup exists only when the term-proof, AST and fiat tables do, and
/// a state of the rule path only when the rule and empty-list tables do.
pub open spec fn state_ok(p: LookupPlanView, s: LookupState) -> bool {
    let proofs = p.term_proof is Some && p.to_ast is Some && p.fiat is Some;
    match s {
        LookupState::AwaitTermProof { .. } => proofs,
        LookupState::AwaitAst { .. } => proofs,
        LookupState::AwaitProof { .. } => proofs,
        LookupState::AwaitProofStored { .. } => proofs,
        LookupState::AwaitRuleName { .. } => proofs && p.rule is Some && p.pnil is Some,
        LookupState::AwaitNil { .. } => proofs && p.rule is Some && p.pnil is Some,
        _ => true,
    }
}

/// `key` followed by `extra`.
fn extended(key: &Vec<Value>, extra: &[Value]) -> (r: Vec<Value>)
    ensures
        r@ == key@ + extra@,
{
    let mut r = key.clone();
    assert(r@ == key@);
    let mut i: usize = 0;
    while i < extra.len()
        invariant
            i <= extra@.len(),
            r@ == key@ + extra@.subrange(0, i as int),
        decreases extra.len() - i,
    {
        r.push(extra[i]);
        assert(extra@.subrange(0, i + 1) == extra@.subrange(0, i as int).push(extra@[i as int]));
        i = i + 1;
    }
    assert(extra@.subrange(0, extra@.len() as int) == extra@);
    r
}

fn after_proof_step(plan: &LookupPlan, out: Value, proof: Value) -> (r: (LookupState, TableOp))
    ensures
        (r.0, r.1@) == after_proof(plan@, out, proof),
{
    match plan.view_proof {
        Some(vp) => {
            let row = extended(&plan.key, &[out, proof]);
            assert(row@ == plan.key@.push(out).push(proof));
            (LookupState::AwaitViewProofStored { out }, TableOp::Insert { table: vp, row })
        },
        None => (LookupState::Finished, TableOp::Done(Some(out))),
    }
}

/// Decide the next table operation of a lookup from where it stands and the
/// reply to the previous operation (ignored where none is awaited).
pub fn lookup_step(plan: &LookupPlan, state: LookupState, reply: Option<Value>) -> (r: (
    LookupState,
    TableOp,
))
    requires
        state_ok(plan@, state),
        state is AwaitRuleName ==> reply is Some,
    ensures
        (r.0, r.1@) == lookup_transition(plan@, state, reply),
        state is Start ==> r.0 is AwaitOutput && r.1@ == TableOpView::Lookup(plan.table, plan.key@),
        state is AwaitOutput ==> (reply is None <==> r.1@ == TableOpView::Done(None)),
{
    match state {
        LookupState::Start => {
            let key = extended(&plan.key, &[]);
            assert(key@ == plan.key@);
            (LookupState::AwaitOutput, TableOp::Lookup { table: plan.table, key })
        },
        LookupState::AwaitOutput => match reply {
            None => (LookupState::Finished, TableOp::Done(None)),
            Some(out) => match plan.view {
                Some(v) => {
                    let key = extended(&plan.key, &[out]);
                    assert(key@ == plan.key@.push(out));
                    (LookupState::AwaitView { out }, TableOp::Lookup { table: v, key })
                },
                None => (LookupState::Finished, TableOp::Done(Some(out))),
            },
        },
        LookupState::AwaitView { out } => match (plan.term_proof, plan.to_ast, plan.fiat) {
            (Some(tp), Some(_), Some(_)) => (
                LookupState::AwaitTermProof { out },
                TableOp::Lookup { table: tp, key: vec![out] },
            ),
            _ => (LookupState::Finished, TableOp::Done(Some(out))),
        },
        LookupState::AwaitTermProof { out } => match reply {
            Some(existing) => after_proof_step(plan, out, existing),
            None => {
                let ast_table = plan.to_ast.unwrap();
                (LookupState::AwaitAst { out }, TableOp::Lookup { table: ast_table, key: vec![out] })
            },
        },
        LookupState::AwaitAst { out } => match reply {
            None => (LookupState::Finished, TableOp::Done(Some(out))),
            Some(ast) => if plan.rule.is_some() && plan.pnil.is_some() {
                (LookupState::AwaitRuleName { out, ast }, TableOp::InternRuleName)
            } else {
                let fiat = plan.fiat.unwrap();
                (
                    LookupState::AwaitProof { out, ast },
                    TableOp::Lookup { table: fiat, key: vec![ast, ast] },
                )
            },
        },
        LookupState::AwaitRuleName { out, ast } => {
            let name = reply.unwrap();
            let nil = plan.pnil.unwrap();
            (LookupState::AwaitNil { out, ast, name }, TableOp::Lookup { table: nil, key: vec![] })
        },
        LookupState::AwaitNil { out, ast, name } => match reply {
            None => (LookupState::Finished, TableOp::Done(Some(out))),
            Some(empty) => {
                let rule = plan.rule.unwrap();
                (
                    LookupState::AwaitProof { out, ast },
                    TableOp::Lookup { table: rule, key: vec![name, empty, ast, ast] },
                )
            },
        },
        LookupState::AwaitProof { out, ast } => match reply {
            None => (LookupState::Finished, TableOp::Done(Some(out))),
            Some(proof) => {
                let tp = plan.term_proof.unwrap();
                (
                    LookupState::AwaitProofStored { out, proof },
                    TableOp::Insert { table: tp, row: vec![out, proof] },
                )
            },
        },
        LookupState::AwaitProofStored { out, proof } => after_proof_step(plan, out, proof),
        LookupState::AwaitViewProofStored { out } => (LookupState::Finished, TableOp::Done(Some(out))),
        LookupState::Finished => (LookupState::Finished, TableOp::Done(None)),
    }
}

/// The plan of a lookup of `key` in the table named `name`: the table
/// itself (which must exist) and, from the wiring, the view and proof tables
/// of its constructor and output sort.
pub fn lookup_plan(fs: &Vec<FunctionDecl>, w: &ProofWiring, name: &String, key: Vec<Value>) -> (p:
    LookupPlan)
    requires
        first_named(fs@, name@) is Some,
    ensures
        Some(p.table as int) == first_named(fs@, name@),
        p.key@ == key@,
        opt_int(p.view) == lookup_index(w.view_tables@, name@),
        opt_int(p.view_proof) == lookup_index(w.view_proof@, name@),
        opt_int(p.term_proof) == (match lookup_text(w.term_output_sorts@, name@) {
            Some(s) => lookup_index(w.term_proof@, s),
            None => None,
        }),
        opt_int(p.to_ast) == (match lookup_text(w.term_output_sorts@, name@) {
            Some(s) => lookup_index(w.to_ast@, s),
            None => None,
        }),
        p.fiat == w.fiat,
        p.rule == w.rule,
        p.pnil == w.pnil,
{
    let table = first_named_index(fs, name).unwrap();
    let view = find_index(&w.view_tables, name);
    let view_proof = find_index(&w.view_proof, name);
    let (term_proof, to_ast) = match find_text(&w.term_output_sorts, name) {
        Some(sort) => (find_index(&w.term_proof, &sort), find_index(&w.to_ast, &sort)),
        None => (None, None),
    };
    LookupPlan {
        table,
        key,
        view,
        view_proof,
        term_proof,
        to_ast,
        fiat: w.fiat,
        rule: w.rule,
        pnil: w.pnil,
    }
}

/// Position of a state in the order a lookup passes through.
pub open spec fn rank(s: LookupState) -> nat {
    match s {
        LookupState::Start => 10,
        LookupState::AwaitOutput => 9,
        LookupState::AwaitView { .. } => 8,
        LookupState::AwaitTermProof { .. } => 7,
        LookupState::AwaitAst { .. } => 6,
        LookupState::AwaitRuleName { .. } => 5,
        LookupState::AwaitNil { .. } => 4,
        LookupState::AwaitProof { .. } => 3,
        LookupState::AwaitProofStored { .. } => 2,
        LookupState::AwaitViewProofStored { .. } => 1,
        LookupState::Finished => 0,
    }
}

/// The table's output that a state has learnt, if any.
pub open spec fn carried(s: LookupState) -> Option<Value> {
    match s {
        LookupState::AwaitView { out } => Some(out),
        LookupState::AwaitTermProof { out } => Some(out),
        LookupState::AwaitAst { out } => Some(out),
        LookupState::AwaitRuleName { out, .. } => Some(out),
        LookupState::AwaitNil { out, .. } => Some(out),
        LookupState::AwaitProof { out, .. } => Some(out),
        LookupState::AwaitProofStored { out, .. } => Some(out),
        LookupState::AwaitViewProofStored { out } => Some(out),
        _ => None,
    }
}

/// Every step of an unfinished lookup moves strictly forward, so a lookup
/// ends after at most ten operations; and the tables a state relies on stay
/// there.
pub proof fn law_lookup_progresses(p: LookupPlanView, s: LookupState, reply: Option<Value>)
    requires
        s !is Finished,
        state_ok(p, s),
    ensures
        rank(lookup_transition(p, s, reply).0) < rank(s),
        state_ok(p, lookup_transition(p, s, reply).0),
{
}

/// A lookup answers with what the table gave for the key: once the output
/// is known every later state keeps it, and the lookup ends with it; a
/// missing output ends the lookup at once with nothing.
pub proof fn law_lookup_answers_with_output(p: LookupPlanView, s: LookupState, reply: Option<Value>)
    requires
        s !is Finished,
        s !is Start,
    ensures
        ({
            let (next, op) = lookup_transition(p, s, reply);
            let out = if s is AwaitOutput { reply } else { carried(s) };
            ||| next is Finished && op == TableOpView::Done(out)
            ||| next !is Finished && out is Some && carried(next) == out
        }),
{
}

/// A lookup only ever writes to the term-proof and view-proof tables, never
/// to the table looked up (unless it is one of those).
pub proof fn law_lookup_writes_only_proofs(p: LookupPlanView, s: LookupState, reply: Option<Value>)
    requires
        state_ok(p, s),
    ensures
        lookup_transition(p, s, reply).1 matches TableOpView::Insert(t, _) ==> Some(t) == p.term_proof
            || Some(t) == p.view_proof,
{
}

/// A lookup that finds an output for a constructor with a view table next
/// looks up the key and output in the view table, so that the view entry
/// exists for rules that match on views.
pub proof fn law_lookup_populates_view(p: LookupPlanView, out: Value)
    requires
        p.view is Some,
    ensures
        lookup_transition(p, LookupState::AwaitOutput, Some(out)) == (
            LookupState::AwaitView { out },
            TableOpView::Lookup(p.view->0, p.key.push(out)),
        ),
{
}

/// An existing term proof is reused: no new proof is built, and it becomes
/// the view proof of the key and output where there is a view-proof table.
pub proof fn law_lookup_reuses_term_proof(p: LookupPlanView, out: Value, existing: Value)
    ensures
        lookup_transition(p, LookupState::AwaitTermProof { out }, Some(existing)) == (match p.view_proof {
            Some(vp) => (
                LookupState::AwaitViewProofStored { out },
                TableOpView::Insert(vp, p.key.push(out).push(existing)),
            ),
            None => (LookupState::Finished, TableOpView::Done(Some(out))),
        }),
{
}

/// The operations a lookup emits from state `s` when the replies are
/// `replies`: each step takes the next reply as the answer to the operation
/// before it.
pub open spec fn run_from(p: LookupPlanView, s: LookupState, replies: Seq<Option<Value>>) -> Seq<
    TableOpView,
>
    decreases replies.len(),
{
    if replies.len() == 0 {
        seq![]
    } else {
        let (next, op) = lookup_transition(p, s, replies[0]);
        seq![op] + run_from(p, next, replies.drop_first())
    }
}

/// `ops[i]` is the first `Done` among `ops`.
pub open spec fn first_done(ops: Seq<TableOpView>, i: int) -> bool {
    &&& 0 <= i < ops.len()
    &&& ops[i] is Done
    &&& forall|j: int| 0 <= j < i ==> !(#[trigger] ops[j] is Done)
}

/// From a state past the first lookup, the first `Done` answers with the
/// table's output: the reply awaited now, or the output already learnt.
proof fn lemma_run_answers(p: LookupPlanView, s: LookupState, replies: Seq<Option<Value>>, i: int)
    requires
        s !is Start,
        s !is Finished,
        first_done(run_from(p, s, replies), i),
    ensures
        run_from(p, s, replies)[i] == TableOpView::Done(
            if s is AwaitOutput {
                replies[0]
            } else {
                carried(s)
            },
        ),
    decreases replies.len(),
{
    let ops = run_from(p, s, replies);
    let (next, op) = lookup_transition(p, s, replies[0]);
    let rest = run_from(p, next, replies.drop_first());
    assert(ops == seq![op] + rest);
    law_lookup_answers_with_output(p, s, replies[0]);
    if i > 0 {
        assert(ops[0] == op);
        assert(next !is Finished);
        assert(next !is Start && next !is AwaitOutput);
        assert forall|j: int| 0 <= j < i - 1 implies !(#[trigger] rest[j] is Done) by {
            assert(ops[j + 1] == rest[j]);
        }
        assert(ops[i] == rest[i - 1]);
        lemma_run_answers(p, next, replies.drop_first(), i - 1);
    }
}

/// A whole lookup, whatever the e-graph replies: its first operation looks
/// the plan's key up in the plan's table, exactly as given, and it ends
/// (its first `Done`) with the reply to that first operation, the table's
/// output for the key, or nothing when the key has none.
pub proof fn law_lookup_run(p: LookupPlanView, replies: Seq<Option<Value>>, i: int)
    requires
        replies.len() >= 1,
    ensures
        run_from(p, LookupState::Start, replies)[0] == TableOpView::Lookup(p.table, p.key),
        first_done(run_from(p, LookupState::Start, replies), i) ==> i >= 1 && run_from(
            p,
            LookupState::Start,
            replies,
        )[i] == TableOpView::Done(replies[1]),
{
    let ops = run_from(p, LookupState::Start, replies);
    let rest_replies = replies.drop_first();
    let rest = run_from(p, LookupState::AwaitOutput, rest_replies);
    assert(ops == seq![TableOpView::Lookup(p.table, p.key)] + rest);
    assert(ops[0] == TableOpView::Lookup(p.table, p.key));
    if first_done(ops, i) {
        assert(i >= 1);
        assert forall|j: int| 0 <= j < i - 1 implies !(#[trigger] rest[j] is Done) by {
            assert(ops[j + 1] == rest[j]);
        }
        assert(ops[i] == rest[i - 1]);
        lemma_run_answers(p, LookupState::AwaitOutput, rest_replies, i - 1);
        assert(rest_replies[0] == replies[1]);
    }
}

/// The proof path of a lookup, step by step: an existing term proof of the
/// output is looked for in the term-proof table with the output alone;
/// without one, the output's AST is looked up the same way; a fresh proof is
/// the rule proof of the rule's name, the empty list and the AST twice when
/// there are rule and empty-list tables, else the proof taken on faith of
/// the AST twice; and a fresh proof is stored with the output in the
/// term-proof table.
pub proof fn law_lookup_proof_path(
    p: LookupPlanView,
    out: Value,
    ast: Value,
    name: Value,
    empty: Value,
    proof: Value,
)
    requires
        p.term_proof is Some,
        p.to_ast is Some,
        p.fiat is Some,
    ensures
        lookup_transition(p, LookupState::AwaitView { out }, None) == (
            LookupState::AwaitTermProof { out },
            TableOpView::Lookup(p.term_proof->0, seq![out]),
        ),
        lookup_transition(p, LookupState::AwaitTermProof { out }, None) == (
            LookupState::AwaitAst { out },
            TableOpView::Lookup(p.to_ast->0, seq![out]),
        ),
        (p.rule is Some && p.pnil is Some) ==> lookup_transition(
            p,
            LookupState::AwaitAst { out },
            Some(ast),
        ) == (LookupState::AwaitRuleName { out, ast }, TableOpView::InternRuleName)
            && lookup_transition(p, LookupState::AwaitRuleName { out, ast }, Some(name)) == (
            LookupState::AwaitNil { out, ast, name },
            TableOpView::Lookup(p.pnil->0, seq![]),
        ) && lookup_transition(p, LookupState::AwaitNil { out, ast, name }, Some(empty)) == (
            LookupState::AwaitProof { out, ast },
            TableOpView::Lookup(p.rule->0, seq![name, empty, ast, ast]),
        ),
        !(p.rule is Some && p.pnil is Some) ==> lookup_transition(
            p,
            LookupState::AwaitAst { out },
            Some(ast),
        ) == (
            LookupState::AwaitProof { out, ast },
            TableOpView::Lookup(p.fiat->0, seq![ast, ast]),
        ),
        lookup_transition(p, LookupState::AwaitProof { out, ast }, Some(proof)) == (
            LookupState::AwaitProofStored { out, proof },
            TableOpView::Insert(p.term_proof->0, seq![out, proof]),
        ),
{
}

} // verus!
