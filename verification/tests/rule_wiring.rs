use egglog_prelude::wiring::{rust_rule_wiring, FunctionDecl};

fn decl(name: &str, inputs: &[&str], output: &str, term_constructor: Option<&str>) -> FunctionDecl {
    FunctionDecl {
        name: name.to_string(),
        inputs: inputs.iter().map(|s| s.to_string()).collect(),
        output: output.to_string(),
        term_constructor: term_constructor.map(|s| s.to_string()),
    }
}

fn entries(m: &[(String, usize)]) -> Vec<(&str, usize)> {
    m.iter().map(|(k, v)| (k.as_str(), *v)).collect()
}

fn proof_encoded_tables() -> Vec<FunctionDecl> {
    vec![
        decl("fib", &["i64"], "i64", None),
        decl("Const", &["i64"], "Expr", None),
        decl("ConstView", &["i64", "Expr"], "Unit", Some("Const")),
        decl("ExprProof", &["Expr"], "Proof", None),
        decl("ConstViewProof", &["i64", "Expr"], "Proof", None),
        decl("Fiat", &["AstExpr", "AstExpr"], "Proof", None),
        decl("Rule", &["String", "ProofList", "AstExpr", "AstExpr"], "Proof", None),
        decl("PNil", &[], "ProofList", None),
        decl("AstExpr", &["Expr"], "AstExpr", None),
    ]
}

#[test]
fn proof_tables_are_found() {
    let fs = proof_encoded_tables();
    let w = rust_rule_wiring(&fs);
    assert_eq!(entries(&w.view_tables), vec![("Const", 2)]);
    assert_eq!(w.proof_sort.as_deref(), Some("Proof"));
    assert_eq!(w.fiat, Some(5));
    assert_eq!(w.rule, Some(6));
    assert_eq!(w.pnil, Some(7));
    assert_eq!(
        w.term_output_sorts,
        vec![("Const".to_string(), "Expr".to_string())]
    );
    assert_eq!(entries(&w.to_ast), vec![("Expr", 8)]);
    assert_eq!(entries(&w.term_proof), vec![("Expr", 3)]);
    assert_eq!(entries(&w.view_proof), vec![("Const", 4)]);
}

#[test]
fn without_proofs_only_views_and_asts() {
    let fs = vec![
        decl("Const", &["i64"], "Expr", None),
        decl("ConstView", &["i64", "Expr"], "Unit", Some("Const")),
        decl("AstExpr", &["Expr"], "AstExpr", None),
        decl("Fiat", &["AstExpr", "AstExpr"], "Proof", None),
    ];
    let w = rust_rule_wiring(&fs);
    assert_eq!(entries(&w.view_tables), vec![("Const", 1)]);
    assert_eq!(w.proof_sort, None);
    assert_eq!(w.fiat, None);
    assert_eq!(w.rule, None);
    assert_eq!(w.pnil, None);
    assert_eq!(entries(&w.to_ast), vec![("Expr", 2)]);
    assert!(w.term_proof.is_empty());
    assert!(w.view_proof.is_empty());
}

#[test]
fn the_last_view_table_of_a_constructor_counts() {
    let fs = vec![
        decl("AView", &["Expr"], "Unit", Some("A")),
        decl("BView", &["Expr"], "Unit", Some("B")),
        decl("AView2", &["Expr"], "Unit", Some("A")),
    ];
    let w = rust_rule_wiring(&fs);
    let mut got = entries(&w.view_tables);
    got.sort();
    assert_eq!(got, vec![("A", 2), ("B", 1)]);
    assert!(w.term_output_sorts.is_empty());
    assert!(w.to_ast.is_empty());
}

#[test]
fn unit_view_proofs_do_not_fix_the_proof_sort() {
    let fs = vec![
        decl("XViewProof", &[], "Unit", None),
        decl("YViewProof", &[], "Pf", None),
        decl("Fiat", &[], "Unit", None),
        decl("Fiat2", &[], "Pf", None),
        decl("Rule", &["i64", "a", "b", "c"], "Pf", None),
        decl("PNil", &["x"], "L", None),
    ];
    let w = rust_rule_wiring(&fs);
    assert_eq!(w.proof_sort.as_deref(), Some("Pf"));
    assert_eq!(w.fiat, Some(3));
    assert_eq!(w.rule, None);
    assert_eq!(w.pnil, None);
}
