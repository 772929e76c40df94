use resist::ast::{AnalysisKind, BinOpKind, CompCtorType};
use resist::eval_api::{set_layout_position, set_layout_rotation, LayoutEntry, ScriptError};
use resist::interp::{ctor_prefix, dyn_name, ground_name, CompNamer, NodeTable};
use resist::nodes::NodeId;
use resist::parser::{
    analysis_kind_of, component_ctor_of, eng_suffix, parse_add_op, parse_comp_op, parse_mul_op, EngSuffix,
};

#[test]
fn comparison_operators() {
    assert_eq!(parse_comp_op(">="), Some(BinOpKind::Ge));
    assert_eq!(parse_comp_op("<="), Some(BinOpKind::Le));
    assert_eq!(parse_comp_op("!="), Some(BinOpKind::Ne));
    assert_eq!(parse_comp_op("=="), Some(BinOpKind::Eq));
    assert_eq!(parse_comp_op(">"), Some(BinOpKind::Gt));
    assert_eq!(parse_comp_op("<"), Some(BinOpKind::Lt));
    assert_eq!(parse_comp_op("+"), None);
    assert_eq!(parse_comp_op("=>"), None);
}

#[test]
fn additive_and_multiplicative_operators() {
    assert_eq!(parse_add_op("+"), Some(BinOpKind::Add));
    assert_eq!(parse_add_op("-"), Some(BinOpKind::Sub));
    assert_eq!(parse_add_op("*"), None);
    assert_eq!(parse_mul_op("*"), Some(BinOpKind::Mul));
    assert_eq!(parse_mul_op("/"), Some(BinOpKind::Div));
    assert_eq!(parse_mul_op("%"), None);
    assert_eq!(parse_mul_op("<"), None);
}

#[test]
fn analysis_keywords() {
    assert_eq!(analysis_kind_of("dc"), Some(AnalysisKind::Dc));
    assert_eq!(analysis_kind_of("ac"), Some(AnalysisKind::Ac));
    assert_eq!(analysis_kind_of("transient"), Some(AnalysisKind::Transient));
    assert_eq!(analysis_kind_of("noise"), None);
    assert_eq!(analysis_kind_of("DC"), None);
}

#[test]
fn constructor_names() {
    assert_eq!(component_ctor_of("Capacitor"), CompCtorType::Capacitor);
    assert_eq!(component_ctor_of("VCVS"), CompCtorType::VCVS);
    assert_eq!(component_ctor_of("MOSFET"), CompCtorType::MOSFET);
    assert_eq!(component_ctor_of("FuncVSource"), CompCtorType::FuncVSource);
    assert_eq!(component_ctor_of("Transformer"), CompCtorType::Resistor);
}

#[test]
fn component_names_count_across_types() {
    let mut n = CompNamer::new();
    assert_eq!(n.next_comp_name(ctor_prefix(CompCtorType::Resistor)), "R_1");
    assert_eq!(n.next_comp_name(ctor_prefix(CompCtorType::StepSource)), "V_step_2");
    assert_eq!(n.next_comp_name(ctor_prefix(CompCtorType::Resistor)), "R_3");
    assert_eq!(n.counter, 3);
    assert_eq!(ctor_prefix(CompCtorType::VCVS), "E");
    assert_eq!(ctor_prefix(CompCtorType::FuncVSource), "V_func");
}

#[test]
fn node_table_names_nodes() {
    let mut t = NodeTable::new();
    assert!(ground_name("gnd") && ground_name("GND") && ground_name("0"));
    assert!(!ground_name("Gnd"));
    assert_eq!(t.get_or_create("gnd", 0), (NodeId(0), false));
    assert_eq!(t.get_or_create("0", 0), (NodeId(0), false));
    assert_eq!(t.get_or_create("in", 0), (NodeId(1), true));
    assert_eq!(t.get_or_create("out", 1), (NodeId(2), true));
    assert_eq!(t.get_or_create("in", 2), (NodeId(1), false));
    let mut e = t.entries();
    e.sort_by(|a, b| a.0.cmp(&b.0));
    assert_eq!(e, vec![
        ("GND".to_string(), NodeId(0)),
        ("gnd".to_string(), NodeId(0)),
        ("in".to_string(), NodeId(1)),
        ("out".to_string(), NodeId(2)),
    ]);
}

fn entry(name: &str) -> LayoutEntry {
    LayoutEntry::placed_at_origin(name.to_string(), CompCtorType::Resistor, vec![NodeId(1), NodeId(0)])
}

#[test]
fn layout_updates_touch_the_first_entry_named() {
    let mut layout = vec![entry("R_1"), entry("C_2"), entry("R_1")];
    set_layout_position(&mut layout, "R_1", 100, -20);
    assert_eq!((layout[0].x, layout[0].y), (100, -20));
    assert_eq!((layout[2].x, layout[2].y), (0, 0));
    set_layout_rotation(&mut layout, "C_2", 90);
    assert_eq!(layout[1].rotation, 90);
    assert_eq!(layout[0].rotation, 0);
    set_layout_position(&mut layout, "Q_9", 1, 1);
    assert_eq!((layout[1].x, layout[1].y), (0, 0));
    assert_eq!(layout[0].nodes, vec![NodeId(1), NodeId(0)]);
    assert_eq!(layout[1].name, "C_2");
}

#[test]
fn script_errors_render_with_position() {
    let e = ScriptError { message: "expected expr".to_string(), line: Some(3), column: Some(14) };
    assert_eq!(e.render(), "[3:14] expected expr");
    let e = ScriptError { message: "Empty program".to_string(), line: None, column: None };
    assert_eq!(e.render(), "Empty program");
    let e = ScriptError { message: "m".to_string(), line: Some(1), column: None };
    assert_eq!(e.render(), "m");
}

#[test]
fn dynamic_identifiers_name_nodes() {
    assert_eq!(dyn_name("n", 1), "n_1");
    assert_eq!(dyn_name("n", 0), "n_0");
    assert_eq!(dyn_name("node", -3), "node_-3");
    assert_eq!(dyn_name("n", i64::MIN), format!("n_{}", i64::MIN));
    assert_eq!(dyn_name("n", i64::MAX), format!("n_{}", i64::MAX));
}

#[test]
fn engineering_suffixes_first_match_wins() {
    use_suffixes();
}

fn use_suffixes() {
    let cases: [(&str, Option<EngSuffix>); 12] = [
        ("4.7k", Some(EngSuffix::Kilo)),
        ("10Meg", Some(EngSuffix::Meg)),
        ("10meg", Some(EngSuffix::MegLower)),
        ("1kHz", Some(EngSuffix::KiloHertz)),
        ("50Hz", Some(EngSuffix::Hertz)),
        ("5mHz", Some(EngSuffix::Hertz)),
        ("100n", Some(EngSuffix::Nano)),
        ("2M", Some(EngSuffix::Mega)),
        ("3V", Some(EngSuffix::Volt)),
        ("1A", Some(EngSuffix::Ampere)),
        ("42", None),
        ("", None),
    ];
    for (s, want) in cases {
        assert_eq!(eng_suffix(s), want, "{:?}", s);
    }
    assert_eq!(EngSuffix::KiloHertz.text(), "kHz");
    assert_eq!(EngSuffix::Femto.exponent(), -15);
    assert_eq!(EngSuffix::Meg.exponent(), 6);
    assert_eq!(EngSuffix::Tera.exponent(), 12);
}
