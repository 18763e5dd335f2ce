use egglog_prelude::query::Value;
use egglog_prelude::rule_lookup::{lookup_plan, lookup_step, LookupPlan, LookupState, TableOp};
use egglog_prelude::wiring::{rust_rule_wiring, FunctionDecl};

fn decl(name: &str, inputs: &[&str], output: &str, term_constructor: Option<&str>) -> FunctionDecl {
    FunctionDecl {
        name: name.to_string(),
        inputs: inputs.iter().map(|s| s.to_string()).collect(),
        output: output.to_string(),
        term_constructor: term_constructor.map(|s| s.to_string()),
    }
}

fn proof_encoded_tables() -> Vec<FunctionDecl> {
    vec![
        decl("fib", &["i64"], "i64", None),
        decl("Const", &["i64"], "Expr", None),
        decl("ConstView", &["i64", "Expr"], "Unit", Some("Const")),
        decl("ExprProof", &["Expr"], "Proof", None),
        decl("ConstViewProof", &["i64", "Expr"], "Proof", None),
        decl("Fiat", &["AstExpr", "AstExpr"], "Proof", None),
        decl("Rule", &["String", "ProofList", "AstExpr", "AstExpr"], "Proof", None),
        decl("PNil", &[], "ProofList", None),
        decl("AstExpr", &["Expr"], "AstExpr", None),
    ]
}

fn v(x: u32) -> Value {
    Value::new(x)
}

/// Run a lookup, answering each operation from `replies` in turn, and give
/// back the operations asked for.
fn run(plan: &LookupPlan, replies: &[Option<Value>]) -> Vec<TableOp> {
    let mut state = LookupState::Start;
    let mut ops = Vec::new();
    let mut reply = None;
    let mut next_reply = 0;
    loop {
        let (s, op) = lookup_step(plan, state, reply);
        let done = matches!(op, TableOp::Done(_));
        ops.push(op);
        if done {
            return ops;
        }
        state = s;
        reply = replies[next_reply];
        next_reply += 1;
    }
}

#[test]
fn plan_of_a_proof_encoded_constructor() {
    let fs = proof_encoded_tables();
    let w = rust_rule_wiring(&fs);
    let plan = lookup_plan(&fs, &w, &"Const".to_string(), vec![v(5)]);
    assert_eq!(plan.table, 1);
    assert_eq!(plan.key, vec![v(5)]);
    assert_eq!(plan.view, Some(2));
    assert_eq!(plan.view_proof, Some(4));
    assert_eq!(plan.term_proof, Some(3));
    assert_eq!(plan.to_ast, Some(8));
    assert_eq!(plan.fiat, Some(5));
    assert_eq!(plan.rule, Some(6));
    assert_eq!(plan.pnil, Some(7));
}

#[test]
fn lookup_with_a_fresh_rule_proof() {
    let fs = proof_encoded_tables();
    let w = rust_rule_wiring(&fs);
    let plan = lookup_plan(&fs, &w, &"Const".to_string(), vec![v(5)]);
    let ops = run(
        &plan,
        &[Some(v(100)), None, None, Some(v(200)), Some(v(300)), Some(v(400)), Some(v(500)), None, None],
    );
    assert_eq!(
        ops,
        vec![
            TableOp::Lookup { table: 1, key: vec![v(5)] },
            TableOp::Lookup { table: 2, key: vec![v(5), v(100)] },
            TableOp::Lookup { table: 3, key: vec![v(100)] },
            TableOp::Lookup { table: 8, key: vec![v(100)] },
            TableOp::InternRuleName,
            TableOp::Lookup { table: 7, key: vec![] },
            TableOp::Lookup { table: 6, key: vec![v(300), v(400), v(200), v(200)] },
            TableOp::Insert { table: 3, row: vec![v(100), v(500)] },
            TableOp::Insert { table: 4, row: vec![v(5), v(100), v(500)] },
            TableOp::Done(Some(v(100))),
        ]
    );
}

#[test]
fn lookup_reuses_an_existing_term_proof() {
    let fs = proof_encoded_tables();
    let w = rust_rule_wiring(&fs);
    let plan = lookup_plan(&fs, &w, &"Const".to_string(), vec![v(5)]);
    let ops = run(&plan, &[Some(v(100)), None, Some(v(77)), None]);
    assert_eq!(
        ops,
        vec![
            TableOp::Lookup { table: 1, key: vec![v(5)] },
            TableOp::Lookup { table: 2, key: vec![v(5), v(100)] },
            TableOp::Lookup { table: 3, key: vec![v(100)] },
            TableOp::Insert { table: 4, row: vec![v(5), v(100), v(77)] },
            TableOp::Done(Some(v(100))),
        ]
    );
}

#[test]
fn missing_output_ends_the_lookup() {
    let fs = proof_encoded_tables();
    let w = rust_rule_wiring(&fs);
    let plan = lookup_plan(&fs, &w, &"Const".to_string(), vec![v(5)]);
    let ops = run(&plan, &[None]);
    assert_eq!(
        ops,
        vec![TableOp::Lookup { table: 1, key: vec![v(5)] }, TableOp::Done(None)]
    );
}

#[test]
fn plain_table_is_only_looked_up() {
    let fs = proof_encoded_tables();
    let w = rust_rule_wiring(&fs);
    let plan = lookup_plan(&fs, &w, &"fib".to_string(), vec![v(20)]);
    assert_eq!(plan.view, None);
    let ops = run(&plan, &[Some(v(6765))]);
    assert_eq!(
        ops,
        vec![TableOp::Lookup { table: 0, key: vec![v(20)] }, TableOp::Done(Some(v(6765)))]
    );
}

#[test]
fn fiat_proof_without_rule_tables() {
    let fs = vec![
        decl("Const", &["i64"], "Expr", None),
        decl("ConstView", &["i64", "Expr"], "Unit", Some("Const")),
        decl("ExprProof", &["Expr"], "Proof", None),
        decl("ConstViewProof", &["i64", "Expr"], "Proof", None),
        decl("Fiat", &["AstExpr", "AstExpr"], "Proof", None),
        decl("AstExpr", &["Expr"], "AstExpr", None),
    ];
    let w = rust_rule_wiring(&fs);
    let plan = lookup_plan(&fs, &w, &"Const".to_string(), vec![v(1)]);
    let ops = run(&plan, &[Some(v(10)), None, None, Some(v(20)), Some(v(30)), None, None]);
    assert_eq!(
        ops,
        vec![
            TableOp::Lookup { table: 0, key: vec![v(1)] },
            TableOp::Lookup { table: 1, key: vec![v(1), v(10)] },
            TableOp::Lookup { table: 2, key: vec![v(10)] },
            TableOp::Lookup { table: 5, key: vec![v(10)] },
            TableOp::Lookup { table: 4, key: vec![v(20), v(20)] },
            TableOp::Insert { table: 2, row: vec![v(10), v(30)] },
            TableOp::Insert { table: 3, row: vec![v(1), v(10), v(30)] },
            TableOp::Done(Some(v(10))),
        ]
    );
}
