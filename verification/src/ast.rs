//! The tags of the script language's syntax tree.
use vstd::prelude::*;

verus! {

/// Analysis kind.
#[derive(Debug, Clone, Copy, PartialEq, Eq, Structural)]
pub enum AnalysisKind {
    Dc,
    Ac,
    Transient,
}

/// Component types usable as constructors.
#[derive(Debug, Clone, Copy, PartialEq, Eq, Structural)]
pub enum CompCtorType {
    Resistor,
    Capacitor,
    Inductor,
    VSource,
    ISource,
    Diode,
    StepSource,
    SineSource,
    VCVS,
    BJT,
    MOSFET,
    FuncVSource,
}

/// Binary operators.
#[derive(Debug, Clone, Copy, PartialEq, Eq, Structural)]
pub enum BinOpKind {
    Add,
    Sub,
    Mul,
    Div,
    Gt,
    Lt,
    Ge,
    Le,
    Eq,
    Ne,
}

/// The symbol that writes `op` in a script.
pub open spec fn op_symbol(op: BinOpKind) -> Seq<char> {
    match op {
        BinOpKind::Add => "+"@,
        BinOpKind::Sub => "-"@,
        BinOpKind::Mul => "*"@,
        BinOpKind::Div => "/"@,
        BinOpKind::Gt => ">"@,
        BinOpKind::Lt => "<"@,
        BinOpKind::Ge => ">="@,
        BinOpKind::Le => "<="@,
        BinOpKind::Eq => "=="@,
        BinOpKind::Ne => "!="@,
    }
}

/// The comparison operators (lowest precedence).
pub open spec fn is_comparison(op: BinOpKind) -> bool {
    match op {
        BinOpKind::Gt | BinOpKind::Lt | BinOpKind::Ge | BinOpKind::Le | BinOpKind::Eq
        | BinOpKind::Ne => true,
        _ => false,
    }
}

/// The additive operators.
pub open spec fn is_additive(op: BinOpKind) -> bool {
    op == BinOpKind::Add || op == BinOpKind::Sub
}

/// The multiplicative operators (highest precedence).
pub open spec fn is_multiplicative(op: BinOpKind) -> bool {
    op == BinOpKind::Mul || op == BinOpKind::Div
}

/// No two operators share a symbol.
pub proof fn lemma_op_symbols_distinct(a: BinOpKind, b: BinOpKind)
    ensures
        op_symbol(a) == op_symbol(b) ==> a == b,
{
    reveal_strlit("+");
    reveal_strlit("-");
    reveal_strlit("*");
    reveal_strlit("/");
    reveal_strlit(">");
    reveal_strlit("<");
    reveal_strlit(">=");
    reveal_strlit("<=");
    reveal_strlit("==");
    reveal_strlit("!=");
    if op_symbol(a) == op_symbol(b) && a != b {
        assert(op_symbol(a).len() == op_symbol(b).len());
        assert(op_symbol(a)[0] == op_symbol(b)[0]);
        if op_symbol(a).len() == 2 {
            assert(op_symbol(a)[1] == op_symbol(b)[1]);
        }
    }
}

/// Every operator is of exactly one precedence class.
pub proof fn lemma_op_classes(op: BinOpKind)
    ensures
        is_comparison(op) || is_additive(op) || is_multiplicative(op),
        !(is_comparison(op) && is_additive(op)),
        !(is_comparison(op) && is_multiplicative(op)),
        !(is_additive(op) && is_multiplicative(op)),
{
}

} // verus!
