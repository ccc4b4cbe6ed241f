use zap_engine::error::{ErrorKind, ExecError};
use zap_engine::eval::{compute, evaluate, parse_arith_op, parse_cmp_op, ArithOp, CmpOp};
use zap_engine::graph::{parse, ActionType, Condition, Edge, Node, NodeData, ZapType};
use zap_engine::value::{normalize, Value};
use zap_engine::walk::{execute, execute_traced, Visit};

fn text(s: &str) -> Option<String> {
    Some(s.to_string())
}

fn arith(left: &str, right: &str, op: &str, result: &str) -> Option<NodeData> {
    Some(NodeData {
        left: text(left),
        right: text(right),
        operator: text(op),
        result: text(result),
        token_from_address: None,
        token_to_address: None,
        token_from_amount: None,
        action_type: None,
    })
}

fn action(amount: &str) -> Option<NodeData> {
    Some(NodeData {
        left: None,
        right: None,
        operator: None,
        result: None,
        token_from_address: text("0xfrom"),
        token_to_address: text("0xto"),
        token_from_amount: text(amount),
        action_type: Some(ActionType::SwapExactEthForTokens),
    })
}

fn edge(id: u32) -> Edge {
    Edge { id, condition: None }
}

fn guarded(id: u32, left: &str, op: &str, right: &str) -> Edge {
    Edge {
        id,
        condition: Some(Condition {
            left: left.to_string(),
            right: right.to_string(),
            operator: op.to_string(),
        }),
    }
}

fn node(id: u32, zap_type: ZapType, data: Option<NodeData>, children: Vec<Edge>) -> Node {
    Node { id, children: if children.is_empty() { None } else { Some(children) }, zap_type, data }
}

fn var(v: &Visit, name: &str) -> Option<Value> {
    v.env.get(&name.to_string())
}

/// Root 1 -> arithmetic 2 ($sum = left + right) -> guarded arithmetic 3.
fn scenario(left: &str, cond_op: &str) -> Vec<Node> {
    vec![
        node(1, ZapType::Root, None, vec![edge(2)]),
        node(2, ZapType::Arithmetic, arith(left, "3", "+", "$sum"), vec![guarded(3, "$sum", cond_op, "4")]),
        node(3, ZapType::Arithmetic, arith("$sum", "1", "-", "$final"), vec![]),
    ]
}

#[test]
fn normalize_literals() {
    assert_eq!(normalize("42"), Value::Int(42));
    assert_eq!(normalize("3.14"), Value::Float("3.14".to_string()));
    assert_eq!(normalize("true"), Value::Bool(true));
    assert_eq!(normalize("false"), Value::Bool(false));
    assert_eq!(normalize("hello"), Value::Str("hello".to_string()));
}

#[test]
fn normalize_integer_edges() {
    assert_eq!(normalize("-9223372036854775808"), Value::Int(i64::MIN));
    assert_eq!(normalize("+17"), Value::Int(17));
    assert_eq!(normalize("18446744073709551615"), Value::UInt(u64::MAX));
    assert_eq!(normalize("99999999999999999999"), Value::Float("99999999999999999999".to_string()));
    assert_eq!(normalize("-"), Value::Str("-".to_string()));
    assert_eq!(normalize(""), Value::Str(String::new()));
    assert_eq!(normalize("1.2.3"), Value::Str("1.2.3".to_string()));
    assert_eq!(normalize("-0.5"), Value::Float("-0.5".to_string()));
    assert_eq!(normalize("True"), Value::Str("True".to_string()));
}

#[test]
fn compute_integers() {
    assert_eq!(compute(&Value::Int(10), &Value::Int(3), ArithOp::Rem), Ok(Value::Int(1)));
    assert_eq!(compute(&Value::Int(-7), &Value::Int(3), ArithOp::Rem), Ok(Value::Int(-1)));
    assert_eq!(compute(&Value::Int(-7), &Value::Int(2), ArithOp::Div), Ok(Value::Int(-3)));
    assert_eq!(compute(&Value::Int(2), &Value::Int(3), ArithOp::Add), Ok(Value::Int(5)));
    assert_eq!(compute(&Value::Int(2), &Value::Int(3), ArithOp::Sub), Ok(Value::Int(-1)));
    assert_eq!(compute(&Value::Int(6), &Value::Int(7), ArithOp::Mul), Ok(Value::Int(42)));
    assert_eq!(compute(&Value::UInt(7), &Value::UInt(2), ArithOp::Div), Ok(Value::UInt(3)));
}

#[test]
fn compute_failures() {
    assert_eq!(compute(&Value::Int(5), &Value::Int(0), ArithOp::Div), Err(ErrorKind::DivisionByZero));
    assert_eq!(compute(&Value::Int(5), &Value::Int(0), ArithOp::Rem), Err(ErrorKind::DivisionByZero));
    assert_eq!(compute(&Value::UInt(5), &Value::UInt(0), ArithOp::Rem), Err(ErrorKind::DivisionByZero));
    assert_eq!(
        compute(&Value::Int(i64::MAX), &Value::Int(1), ArithOp::Add),
        Err(ErrorKind::ArithmeticOverflow)
    );
    assert_eq!(
        compute(&Value::Int(i64::MIN), &Value::Int(-1), ArithOp::Div),
        Err(ErrorKind::ArithmeticOverflow)
    );
    assert_eq!(compute(&Value::UInt(1), &Value::UInt(2), ArithOp::Sub), Err(ErrorKind::ArithmeticOverflow));
}

#[test]
fn compute_mixed_is_null() {
    assert_eq!(compute(&Value::Int(1), &Value::UInt(2), ArithOp::Add), Ok(Value::Null));
    assert_eq!(
        compute(&Value::Int(1), &Value::Float("1.5".to_string()), ArithOp::Add),
        Ok(Value::Null)
    );
}

#[test]
fn evaluate_mismatched_is_false() {
    assert!(!evaluate(&Value::Int(1), &Value::Float("1.0".to_string()), CmpOp::Eq));
    assert!(!evaluate(&Value::Int(1), &Value::UInt(1), CmpOp::Eq));
    assert!(!evaluate(&Value::Null, &Value::Null, CmpOp::Eq));
}

#[test]
fn evaluate_same_variant() {
    assert!(evaluate(&Value::Int(5), &Value::Int(4), CmpOp::Gt));
    assert!(!evaluate(&Value::Int(5), &Value::Int(4), CmpOp::Lt));
    assert!(evaluate(&Value::Int(4), &Value::Int(4), CmpOp::Ge));
    assert!(evaluate(&Value::Int(4), &Value::Int(4), CmpOp::Le));
    assert!(evaluate(&Value::Int(3), &Value::Int(4), CmpOp::Ne));
    assert!(evaluate(&Value::Bool(false), &Value::Bool(true), CmpOp::Lt));
    assert!(evaluate(&Value::Str("abc".to_string()), &Value::Str("abd".to_string()), CmpOp::Lt));
    assert!(evaluate(&Value::Str("ab".to_string()), &Value::Str("abc".to_string()), CmpOp::Lt));
    assert!(evaluate(&Value::Str("b".to_string()), &Value::Str("abc".to_string()), CmpOp::Gt));
    assert!(evaluate(&Value::Str("x".to_string()), &Value::Str("x".to_string()), CmpOp::Eq));
}

#[test]
fn operators_read() {
    assert_eq!(parse_cmp_op(">="), Some(CmpOp::Ge));
    assert_eq!(parse_cmp_op("!="), Some(CmpOp::Ne));
    assert_eq!(parse_cmp_op("<"), Some(CmpOp::Lt));
    assert_eq!(parse_cmp_op("=>"), None);
    assert_eq!(parse_cmp_op(""), None);
    assert_eq!(parse_arith_op("%"), Some(ArithOp::Rem));
    assert_eq!(parse_arith_op("^"), None);
    assert_eq!(parse_arith_op("++"), None);
}

#[test]
fn builder_accepts_well_formed() {
    let (g, root) = parse(scenario("2", ">")).unwrap();
    assert_eq!(root, 0);
    assert_eq!(g.nodes.len(), 3);
    assert_eq!(g.nodes[1].edges[0].target, 2);
}

#[test]
fn builder_needs_one_root() {
    let mut doc = scenario("2", ">");
    doc.remove(0);
    let err = parse(doc).unwrap_err();
    assert_eq!(err.kind, ErrorKind::MalformedDocument);

    let mut doc = scenario("2", ">");
    doc.push(node(9, ZapType::Root, None, vec![]));
    assert_eq!(parse(doc).unwrap_err(), ExecError { kind: ErrorKind::MalformedDocument, node: Some(9) });
}

#[test]
fn builder_rejects_bad_ids_and_cycles() {
    let mut doc = scenario("2", ">");
    doc.push(node(3, ZapType::Arithmetic, arith("1", "1", "+", "$x"), vec![]));
    assert_eq!(parse(doc).unwrap_err().kind, ErrorKind::MalformedDocument);

    let mut doc = scenario("2", ">");
    doc[2].children = Some(vec![edge(42)]);
    assert_eq!(parse(doc).unwrap_err(), ExecError { kind: ErrorKind::MalformedDocument, node: Some(3) });

    let mut doc = scenario("2", ">");
    doc[2].children = Some(vec![edge(2)]);
    assert_eq!(parse(doc).unwrap_err(), ExecError { kind: ErrorKind::MalformedDocument, node: None });
}

#[test]
fn taken_branch_binds_both() {
    let visits = execute(scenario("2", ">")).unwrap();
    assert_eq!(visits.len(), 2);
    assert_eq!(visits[0].node, 2);
    assert_eq!(var(&visits[0], "$sum"), Some(Value::Int(5)));
    assert_eq!(var(&visits[0], "$final"), None);
    assert_eq!(visits[1].node, 3);
    assert_eq!(var(&visits[1], "$sum"), Some(Value::Int(5)));
    assert_eq!(var(&visits[1], "$final"), Some(Value::Int(4)));
}

#[test]
fn false_guard_skips_branch() {
    let visits = execute(scenario("2", "<")).unwrap();
    assert_eq!(visits.len(), 1);
    assert_eq!(visits[0].node, 2);
    assert_eq!(var(&visits[0], "$final"), None);
}

#[test]
fn unresolved_variable_stops_walk() {
    let err = execute(scenario("$missing", ">")).unwrap_err();
    assert_eq!(err, ExecError { kind: ErrorKind::UnresolvedVariable, node: Some(2) });
}

#[test]
fn unknown_operator_in_guard() {
    let err = execute(scenario("2", "~")).unwrap_err();
    assert_eq!(err, ExecError { kind: ErrorKind::UnknownOperator, node: Some(3) });
}

#[test]
fn division_by_zero_in_walk() {
    let doc = vec![
        node(1, ZapType::Root, None, vec![edge(2)]),
        node(2, ZapType::Arithmetic, arith("5", "0", "/", "$q"), vec![]),
    ];
    assert_eq!(execute(doc).unwrap_err(), ExecError { kind: ErrorKind::DivisionByZero, node: Some(2) });
}

#[test]
fn siblings_are_isolated() {
    let doc = vec![
        node(1, ZapType::Root, None, vec![edge(2), edge(3)]),
        node(2, ZapType::Arithmetic, arith("2", "3", "+", "result"), vec![]),
        node(3, ZapType::Arithmetic, arith("1", "1", "+", "other"), vec![]),
    ];
    let visits = execute(doc).unwrap();
    assert_eq!(visits.len(), 2);
    assert_eq!(var(&visits[0], "result"), Some(Value::Int(5)));
    assert_eq!(visits[1].node, 3);
    assert_eq!(var(&visits[1], "result"), None);
    assert_eq!(var(&visits[1], "other"), Some(Value::Int(2)));
}

#[test]
fn descendant_sees_binding() {
    let doc = vec![
        node(1, ZapType::Root, None, vec![edge(2)]),
        node(2, ZapType::Arithmetic, arith("2", "3", "+", "$r"), vec![edge(3)]),
        node(3, ZapType::Arithmetic, arith("$r", "$r", "*", "$sq"), vec![]),
    ];
    let visits = execute(doc).unwrap();
    assert_eq!(var(&visits[1], "$sq"), Some(Value::Int(25)));
}

#[test]
fn action_is_handed_out() {
    let doc = vec![
        node(1, ZapType::Root, None, vec![edge(2)]),
        node(2, ZapType::Arithmetic, arith("40", "2", "+", "$amt"), vec![edge(3)]),
        node(3, ZapType::Action, action("$amt"), vec![]),
    ];
    let visits = execute(doc).unwrap();
    let req = visits[1].action.as_ref().unwrap();
    assert_eq!(req.node, 3);
    assert_eq!(req.amount, 42);
    assert_eq!(req.from_address, "0xfrom");
    assert_eq!(req.to_address, "0xto");
    assert_eq!(req.action_type, ActionType::SwapExactEthForTokens);
    assert!(visits[0].action.is_none());
}

#[test]
fn action_amount_literal_and_errors() {
    let doc = vec![node(1, ZapType::Root, None, vec![edge(2)]), node(2, ZapType::Action, action("100"), vec![])];
    assert_eq!(execute(doc).unwrap()[0].action.as_ref().unwrap().amount, 100);

    let doc = vec![node(1, ZapType::Root, None, vec![edge(2)]), node(2, ZapType::Action, action("-5"), vec![])];
    assert_eq!(execute(doc).unwrap_err(), ExecError { kind: ErrorKind::InvalidAmount, node: Some(2) });

    let doc = vec![node(1, ZapType::Root, None, vec![edge(2)]), node(2, ZapType::Action, action("$none"), vec![])];
    assert_eq!(execute(doc).unwrap_err(), ExecError { kind: ErrorKind::UnresolvedVariable, node: Some(2) });
}

#[test]
fn missing_fields_fail() {
    let doc = vec![node(1, ZapType::Root, None, vec![edge(2)]), node(2, ZapType::Arithmetic, None, vec![])];
    assert_eq!(execute(doc).unwrap_err(), ExecError { kind: ErrorKind::MissingField, node: Some(2) });

    let mut data = arith("1", "2", "+", "$x");
    data.as_mut().unwrap().result = None;
    let doc = vec![node(1, ZapType::Root, None, vec![edge(2)]), node(2, ZapType::Arithmetic, data, vec![])];
    assert_eq!(execute(doc).unwrap_err(), ExecError { kind: ErrorKind::MissingField, node: Some(2) });
}

#[test]
fn unknown_arith_operator() {
    let doc = vec![
        node(1, ZapType::Root, None, vec![edge(2)]),
        node(2, ZapType::Arithmetic, arith("1", "2", "^", "$x"), vec![]),
    ];
    assert_eq!(execute(doc).unwrap_err(), ExecError { kind: ErrorKind::UnknownOperator, node: Some(2) });
}

#[test]
fn rebinding_shadows() {
    let doc = vec![
        node(1, ZapType::Root, None, vec![edge(2)]),
        node(2, ZapType::Arithmetic, arith("1", "1", "+", "$x"), vec![edge(3)]),
        node(3, ZapType::Arithmetic, arith("$x", "10", "*", "$x"), vec![]),
    ];
    let visits = execute(doc).unwrap();
    assert_eq!(var(&visits[1], "$x"), Some(Value::Int(20)));
}

#[test]
fn remainder_by_minus_one() {
    assert_eq!(compute(&Value::Int(i64::MIN), &Value::Int(-1), ArithOp::Rem), Ok(Value::Int(0)));
    assert_eq!(compute(&Value::Int(7), &Value::Int(-1), ArithOp::Rem), Ok(Value::Int(0)));
}

#[test]
fn normalize_float_forms() {
    for text in ["1e3", "1E-5", "2.5e3", "-1.e+2", ".5E7", "inf", "-Infinity", "NaN", "+nan"] {
        assert_eq!(normalize(text), Value::Float(text.to_string()), "{}", text);
    }
    for text in ["e5", "1e", "1e+", "1.5e3.2", "infinit", "1..2", "."] {
        assert_eq!(normalize(text), Value::Str(text.to_string()), "{}", text);
    }
}

#[test]
fn actions_before_failure_are_kept() {
    let doc = vec![
        node(1, ZapType::Root, None, vec![edge(2), edge(3)]),
        node(2, ZapType::Action, action("7"), vec![]),
        node(3, ZapType::Arithmetic, arith("1", "0", "%", "$z"), vec![]),
    ];
    let (visits, failure) = execute_traced(doc);
    assert_eq!(failure, Some(ExecError { kind: ErrorKind::DivisionByZero, node: Some(3) }));
    assert_eq!(visits.len(), 1);
    assert_eq!(visits[0].action.as_ref().unwrap().amount, 7);
}

#[test]
fn traced_run_matches_execute() {
    let (visits, failure) = execute_traced(scenario("2", ">"));
    assert!(failure.is_none());
    assert_eq!(visits.len(), 2);
    assert_eq!(var(&visits[1], "$final"), Some(Value::Int(4)));

    let (visits, failure) = execute_traced(vec![node(1, ZapType::Arithmetic, None, vec![])]);
    assert!(visits.is_empty());
    assert_eq!(failure, Some(ExecError { kind: ErrorKind::MalformedDocument, node: None }));
}
