use resist::ast::{AnalysisKind, BinOpKind, CompCtorType};
use resist::script_tree::{
    build_expr, build_inline, build_program, build_stmt, ScriptArg, ScriptCall, ScriptExpr, ScriptParam, ScriptStmt,
    SyntaxNode, SyntaxRule,
};

fn node(rule: SyntaxRule, text: &str, children: Vec<SyntaxNode>) -> SyntaxNode {
    SyntaxNode { rule, text: text.to_string(), children }
}

fn leaf(rule: SyntaxRule, text: &str) -> SyntaxNode {
    node(rule, text, vec![])
}

fn ident(s: &str) -> ScriptExpr {
    ScriptExpr::Ident(s.to_string())
}

fn bin(l: ScriptExpr, op: BinOpKind, r: ScriptExpr) -> ScriptExpr {
    ScriptExpr::BinOp { left: Box::new(l), op, right: Box::new(r) }
}

#[test]
fn operator_chains_fold_to_the_left() {
    let n = node(
        SyntaxRule::AddExpr,
        "a - b - c",
        vec![
            leaf(SyntaxRule::Ident, "a"),
            leaf(SyntaxRule::Other, "-"),
            leaf(SyntaxRule::Ident, "b"),
            leaf(SyntaxRule::Other, "-"),
            leaf(SyntaxRule::Ident, "c"),
        ],
    );
    assert_eq!(
        build_expr(&n),
        Some(bin(bin(ident("a"), BinOpKind::Sub, ident("b")), BinOpKind::Sub, ident("c")))
    );
}

#[test]
fn chains_read_their_own_operators() {
    let cmp = node(
        SyntaxRule::Comparison,
        "x >= 1",
        vec![leaf(SyntaxRule::Ident, "x"), leaf(SyntaxRule::Other, ">="), leaf(SyntaxRule::Number, "1")],
    );
    assert_eq!(
        build_expr(&cmp),
        Some(bin(ident("x"), BinOpKind::Ge, ScriptExpr::Number("1".to_string())))
    );
    // `%` is no operator of the language.
    let rem = node(
        SyntaxRule::MulExpr,
        "x % 2",
        vec![leaf(SyntaxRule::Ident, "x"), leaf(SyntaxRule::Other, "%"), leaf(SyntaxRule::Number, "2")],
    );
    assert_eq!(build_expr(&rem), None);
    // An operator without its right operand.
    let dangling = node(SyntaxRule::AddExpr, "x +", vec![leaf(SyntaxRule::Ident, "x"), leaf(SyntaxRule::Other, "+")]);
    assert_eq!(build_expr(&dangling), None);
}

#[test]
fn unary_minus_and_wrappers() {
    let n = node(
        SyntaxRule::Expr,
        "-x",
        vec![node(
            SyntaxRule::UnaryExpr,
            "-x",
            vec![leaf(SyntaxRule::UnaryOp, "-"), node(SyntaxRule::Atom, "x", vec![leaf(SyntaxRule::Ident, "x")])],
        )],
    );
    assert_eq!(build_expr(&n), Some(ScriptExpr::Neg(Box::new(ident("x")))));
    assert_eq!(build_expr(&leaf(SyntaxRule::Atom, "")), None);
}

fn arg_list(args: Vec<SyntaxNode>) -> SyntaxNode {
    node(SyntaxRule::Other, "", args)
}

#[test]
fn constructors_method_chains_and_named_arguments() {
    let ctor = node(
        SyntaxRule::ComponentCtor,
        "Resistor(a, b, 47k)",
        vec![
            leaf(SyntaxRule::Other, "Resistor"),
            arg_list(vec![
                node(SyntaxRule::Other, "a", vec![leaf(SyntaxRule::Ident, "a")]),
                node(SyntaxRule::Other, "b", vec![leaf(SyntaxRule::Ident, "b")]),
                node(SyntaxRule::Other, "47k", vec![leaf(SyntaxRule::EngNumber, "47k")]),
            ]),
        ],
    );
    let call = node(
        SyntaxRule::Other,
        ".rot(angle: 90)",
        vec![
            leaf(SyntaxRule::Ident, "rot"),
            arg_list(vec![node(
                SyntaxRule::Other,
                "angle: 90",
                vec![leaf(SyntaxRule::Ident, "angle"), leaf(SyntaxRule::Number, "90")],
            )]),
        ],
    );
    let bare = node(SyntaxRule::Other, ".flip()", vec![leaf(SyntaxRule::Ident, "flip")]);
    let n = node(SyntaxRule::PostfixExpr, "", vec![ctor, call, bare]);
    let expected = ScriptExpr::MethodChain {
        receiver: Box::new(ScriptExpr::ComponentCtor {
            comp_type: CompCtorType::Resistor,
            args: vec![
                ScriptArg { name: None, value: ident("a") },
                ScriptArg { name: None, value: ident("b") },
                ScriptArg { name: None, value: ScriptExpr::EngNumber("47k".to_string()) },
            ],
        }),
        calls: vec![
            ScriptCall {
                name: "rot".to_string(),
                args: vec![ScriptArg {
                    name: Some("angle".to_string()),
                    value: ScriptExpr::Number("90".to_string()),
                }],
            },
            ScriptCall { name: "flip".to_string(), args: vec![] },
        ],
    };
    assert_eq!(build_expr(&n), Some(expected));
}

#[test]
fn literals() {
    assert_eq!(build_expr(&leaf(SyntaxRule::ImagNumber, "3.5i")), Some(ScriptExpr::Imag("3.5".to_string())));
    assert_eq!(build_expr(&leaf(SyntaxRule::ImagNumber, "")), None);
    assert_eq!(
        build_expr(&leaf(SyntaxRule::StringLit, "\"hi there\"")),
        Some(ScriptExpr::StringLit("hi there".to_string()))
    );
    assert_eq!(build_expr(&leaf(SyntaxRule::StringLit, "\"")), None);
    assert_eq!(build_expr(&leaf(SyntaxRule::BoolLit, "true")), Some(ScriptExpr::Bool(true)));
    assert_eq!(build_expr(&leaf(SyntaxRule::BoolLit, "false")), Some(ScriptExpr::Bool(false)));
    let ph = node(
        SyntaxRule::Phasor,
        "5 @ 45",
        vec![leaf(SyntaxRule::Number, "5"), leaf(SyntaxRule::EngNumber, "45")],
    );
    assert_eq!(
        build_expr(&ph),
        Some(ScriptExpr::Phasor {
            mag: Box::new(ScriptExpr::Number("5".to_string())),
            phase: Box::new(ScriptExpr::EngNumber("45".to_string())),
        })
    );
    assert_eq!(build_expr(&leaf(SyntaxRule::Block, "{}")), Some(ScriptExpr::Zero));
}

#[test]
fn dynamic_names() {
    assert_eq!(
        build_expr(&leaf(SyntaxRule::DynIdent, "node_{i+1}")),
        Some(ScriptExpr::DynIdent {
            prefix: "node".to_string(),
            index: Box::new(bin(ident("i"), BinOpKind::Add, ScriptExpr::Number("1".to_string()))),
        })
    );
    assert_eq!(
        build_expr(&leaf(SyntaxRule::DynIdent, "n_{ 2 }")),
        Some(ScriptExpr::DynIdent { prefix: "n".to_string(), index: Box::new(ScriptExpr::Number("2".to_string())) })
    );
    assert_eq!(build_expr(&leaf(SyntaxRule::DynIdent, "plain")), Some(ident("plain")));
    assert_eq!(build_expr(&leaf(SyntaxRule::DynIdent, "n_{")), None);
    // A leading minus is no split point; `%` is not tried.
    assert_eq!(build_inline("-x"), ident("-x"));
    assert_eq!(build_inline("k % 2"), ident("k % 2"));
    assert_eq!(build_inline("2*k"), bin(ScriptExpr::Number("2".to_string()), BinOpKind::Mul, ident("k")));
}

fn block_of_expr(e: SyntaxNode) -> SyntaxNode {
    node(
        SyntaxRule::BlockOrExpr,
        "",
        vec![node(
            SyntaxRule::Block,
            "",
            vec![node(SyntaxRule::Statement, "", vec![node(SyntaxRule::ExprStmt, "", vec![e])])],
        )],
    )
}

#[test]
fn lambdas_and_inline_ifs() {
    let lam = node(SyntaxRule::LambdaExpr, "|t| { t }", vec![leaf(SyntaxRule::Ident, "t"), block_of_expr(leaf(SyntaxRule::Ident, "t"))]);
    assert_eq!(build_expr(&lam), Some(ScriptExpr::Lambda { param: "t".to_string(), body: Box::new(ident("t")) }));
    let iff = node(
        SyntaxRule::IfExpr,
        "",
        vec![
            leaf(SyntaxRule::Ident, "c"),
            block_of_expr(leaf(SyntaxRule::Number, "1")),
            node(SyntaxRule::BlockOrExpr, "", vec![leaf(SyntaxRule::Number, "2")]),
        ],
    );
    assert_eq!(
        build_expr(&iff),
        Some(ScriptExpr::IfExpr {
            cond: Box::new(ident("c")),
            then_val: Box::new(ScriptExpr::Number("1".to_string())),
            else_val: Box::new(ScriptExpr::Number("2".to_string())),
        })
    );
}

fn stmt(inner: SyntaxNode) -> SyntaxNode {
    node(SyntaxRule::Statement, "", vec![inner])
}

#[test]
fn statements_of_a_program() {
    let prog = node(
        SyntaxRule::Program,
        "",
        vec![
            stmt(node(SyntaxRule::LetStmt, "", vec![leaf(SyntaxRule::Ident, "x"), leaf(SyntaxRule::Number, "1")])),
            stmt(node(
                SyntaxRule::AnalyzeStmt,
                "",
                vec![
                    leaf(SyntaxRule::Other, "transient"),
                    node(
                        SyntaxRule::SimParams,
                        "",
                        vec![node(SyntaxRule::Other, "", vec![leaf(SyntaxRule::Ident, "stop"), leaf(SyntaxRule::EngNumber, "10m")])],
                    ),
                ],
            )),
            stmt(node(SyntaxRule::AnalyzeStmt, "", vec![leaf(SyntaxRule::Other, "noise")])),
            leaf(SyntaxRule::Other, "EOI"),
            stmt(node(
                SyntaxRule::ForStmt,
                "",
                vec![
                    leaf(SyntaxRule::Ident, "i"),
                    leaf(SyntaxRule::Number, "0"),
                    leaf(SyntaxRule::Number, "3"),
                    node(SyntaxRule::Block, "", vec![stmt(node(SyntaxRule::ExprStmt, "", vec![leaf(SyntaxRule::Ident, "i")]))]),
                ],
            )),
        ],
    );
    let expected = vec![
        ScriptStmt::Let { name: "x".to_string(), value: ScriptExpr::Number("1".to_string()) },
        ScriptStmt::Analyze {
            kind: AnalysisKind::Transient,
            params: vec![ScriptParam { name: "stop".to_string(), value: ScriptExpr::EngNumber("10m".to_string()) }],
        },
        ScriptStmt::ForRange {
            var_name: "i".to_string(),
            start: ScriptExpr::Number("0".to_string()),
            end: ScriptExpr::Number("3".to_string()),
            body: vec![ScriptStmt::ExprStmt(ident("i"))],
        },
    ];
    assert_eq!(build_program(&prog), Some(expected));
}

#[test]
fn statements_left_out_or_broken() {
    // A `let` without its value is left out.
    assert_eq!(build_stmt(&stmt(node(SyntaxRule::LetStmt, "", vec![leaf(SyntaxRule::Ident, "x")]))), Some(None));
    // A `let` whose value lacks a part is broken.
    assert_eq!(
        build_stmt(&stmt(node(SyntaxRule::LetStmt, "", vec![leaf(SyntaxRule::Ident, "x"), leaf(SyntaxRule::Atom, "")]))),
        None
    );
    let if_only = stmt(node(
        SyntaxRule::IfStmt,
        "",
        vec![leaf(SyntaxRule::Ident, "c"), node(SyntaxRule::Block, "", vec![])],
    ));
    assert_eq!(
        build_stmt(&if_only),
        Some(Some(ScriptStmt::If { condition: ident("c"), then_block: vec![], else_block: None }))
    );
}
