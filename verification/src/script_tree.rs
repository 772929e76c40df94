//! From the script grammar's parse tree to expressions: which rule reads how,
//! operator chains folded to the left, arguments with optional names, method
//! chains, phasors, imaginary and engineering literals, and dynamic names
//! such as `node_{i+1}`. Number literals stay text; their value is floating
//! point and is computed by the caller.
use vstd::prelude::*;
use crate::ast::{AnalysisKind, BinOpKind, CompCtorType};
use crate::parser::{
    analysis_keyword, analysis_kind_of, add_op_spec, comp_op_spec, component_ctor_of, ctor_spec, mul_op_spec, parse_add_op, parse_comp_op,
    parse_mul_op,
};
use crate::lexical::{chars_of, find_between, first_of, float_between, float_literal, trim, trim_bounds};
use crate::text::same_text;

verus! {

/// The grammar rules that the reading below tells apart; every other rule of
/// the grammar is `Other`.
#[derive(Debug, Clone, Copy, PartialEq, Eq, Structural)]
pub enum SyntaxRule {
    Program,
    Statement,
    LetStmt,
    AssignStmt,
    ForStmt,
    IfStmt,
    AnalyzeStmt,
    SimParams,
    ExprStmt,
    Block,
    BlockOrExpr,
    Expr,
    Comparison,
    AddExpr,
    MulExpr,
    UnaryExpr,
    UnaryOp,
    PostfixExpr,
    Atom,
    ComponentCtor,
    Phasor,
    LambdaExpr,
    IfExpr,
    FuncCall,
    BoolLit,
    EngNumber,
    ImagNumber,
    Number,
    StringLit,
    DynIdent,
    Ident,
    Other,
}

/// A node of the parse tree: its rule, the text it spans, and its children
/// in order.
#[derive(Debug)]
pub struct SyntaxNode {
    pub rule: SyntaxRule,
    pub text: String,
    pub children: Vec<SyntaxNode>,
}

/// A script expression; number literals are kept as written.
#[derive(Debug, PartialEq)]
pub enum ScriptExpr {
    /// A plain number literal.
    Number(String),
    /// A number literal that may end in an engineering suffix.
    EngNumber(String),
    /// The number zero, read where the tree holds no expression.
    Zero,
    /// An imaginary literal, without its `i`.
    Imag(String),
    Phasor { mag: Box<ScriptExpr>, phase: Box<ScriptExpr> },
    StringLit(String),
    Ident(String),
    DynIdent { prefix: String, index: Box<ScriptExpr> },
    BinOp { left: Box<ScriptExpr>, op: BinOpKind, right: Box<ScriptExpr> },
    Neg(Box<ScriptExpr>),
    ComponentCtor { comp_type: CompCtorType, args: Vec<ScriptArg> },
    MethodChain { receiver: Box<ScriptExpr>, calls: Vec<ScriptCall> },
    FuncCall { name: String, args: Vec<ScriptArg> },
    Bool(bool),
    Lambda { param: String, body: Box<ScriptExpr> },
    IfExpr { cond: Box<ScriptExpr>, then_val: Box<ScriptExpr>, else_val: Box<ScriptExpr> },
}

/// An argument, named (`stop: 10m`) or not.
#[derive(Debug, PartialEq)]
pub struct ScriptArg {
    pub name: Option<String>,
    pub value: ScriptExpr,
}

/// One call of a method chain: `.pos(100, 200)`.
#[derive(Debug, PartialEq)]
pub struct ScriptCall {
    pub name: String,
    pub args: Vec<ScriptArg>,
}

/// The mathematical value of a `ScriptExpr`.
pub enum ExprTree {
    Number(Seq<char>),
    EngNumber(Seq<char>),
    Zero,
    Imag(Seq<char>),
    Phasor(Box<ExprTree>, Box<ExprTree>),
    StringLit(Seq<char>),
    Ident(Seq<char>),
    DynIdent(Seq<char>, Box<ExprTree>),
    BinOp(Box<ExprTree>, BinOpKind, Box<ExprTree>),
    Neg(Box<ExprTree>),
    ComponentCtor(CompCtorType, Seq<ArgTree>),
    MethodChain(Box<ExprTree>, Seq<CallTree>),
    FuncCall(Seq<char>, Seq<ArgTree>),
    Bool(bool),
    Lambda(Seq<char>, Box<ExprTree>),
    IfExpr(Box<ExprTree>, Box<ExprTree>, Box<ExprTree>),
}

/// The mathematical value of a `ScriptArg`.
pub struct ArgTree {
    pub name: Option<Seq<char>>,
    pub value: ExprTree,
}

/// The mathematical value of a `ScriptCall`.
pub struct CallTree {
    pub name: Seq<char>,
    pub args: Seq<ArgTree>,
}

impl ScriptExpr {
    /// The tree this expression stands for.
    pub open spec fn tree(&self) -> ExprTree
        decreases self, 0int,
    {
        match self {
            ScriptExpr::Number(s) => ExprTree::Number(s@),
            ScriptExpr::EngNumber(s) => ExprTree::EngNumber(s@),
            ScriptExpr::Zero => ExprTree::Zero,
            ScriptExpr::Imag(s) => ExprTree::Imag(s@),
            ScriptExpr::Phasor { mag, phase } => ExprTree::Phasor(
                Box::new(mag.tree()),
                Box::new(phase.tree()),
            ),
            ScriptExpr::StringLit(s) => ExprTree::StringLit(s@),
            ScriptExpr::Ident(s) => ExprTree::Ident(s@),
            ScriptExpr::DynIdent { prefix, index } => ExprTree::DynIdent(prefix@, Box::new(index.tree())),
            ScriptExpr::BinOp { left, op, right } => ExprTree::BinOp(
                Box::new(left.tree()),
                *op,
                Box::new(right.tree()),
            ),
            ScriptExpr::Neg(e) => ExprTree::Neg(Box::new(e.tree())),
            ScriptExpr::ComponentCtor { comp_type, args } => ExprTree::ComponentCtor(
                *comp_type,
                arg_trees(args, args.len() as int),
            ),
            ScriptExpr::MethodChain { receiver, calls } => ExprTree::MethodChain(
                Box::new(receiver.tree()),
                call_trees(calls, calls.len() as int),
            ),
            ScriptExpr::FuncCall { name, args } => ExprTree::FuncCall(name@, arg_trees(args, args.len() as int)),
            ScriptExpr::Bool(b) => ExprTree::Bool(*b),
            ScriptExpr::Lambda { param, body } => ExprTree::Lambda(param@, Box::new(body.tree())),
            ScriptExpr::IfExpr { cond, then_val, else_val } => ExprTree::IfExpr(
                Box::new(cond.tree()),
                Box::new(then_val.tree()),
                Box::new(else_val.tree()),
            ),
        }
    }
}

/// The trees of the first `k` arguments of `args`.
pub open spec fn arg_trees(args: &Vec<ScriptArg>, k: int) -> Seq<ArgTree>
    decreases args, k,
{
    if k <= 0 || k > args.len() {
        Seq::empty()
    } else {
        let a = args[k - 1];
        arg_trees(args, k - 1).push(
            ArgTree {
                name: match a.name {
                    Some(n) => Some(n@),
                    None => None,
                },
                value: a.value.tree(),
            },
        )
    }
}

/// The trees of the first `k` calls of `calls`.
pub open spec fn call_trees(calls: &Vec<ScriptCall>, k: int) -> Seq<CallTree>
    decreases calls, k,
{
    if k <= 0 || k > calls.len() {
        Seq::empty()
    } else {
        let c = calls[k - 1];
        call_trees(calls, k - 1).push(CallTree { name: c.name@, args: arg_trees(&c.args, c.args.len() as int) })
    }
}

/// The tree of an optional expression.
pub open spec fn opt_tree(e: Option<ScriptExpr>) -> Option<ExprTree> {
    match e {
        Some(x) => Some(x.tree()),
        None => None,
    }
}

/// The operator written `s` in a chain of rule `rule` (comparison, additive
/// or multiplicative).
pub open spec fn chain_op(rule: SyntaxRule, s: Seq<char>) -> Option<BinOpKind> {
    match rule {
        SyntaxRule::Comparison => comp_op_spec(s),
        SyntaxRule::AddExpr => add_op_spec(s),
        _ => mul_op_spec(s),
    }
}

/// A number of a phasor: an engineering or plain literal, else zero.
pub open spec fn num_token(n: SyntaxNode) -> ExprTree {
    match n.rule {
        SyntaxRule::EngNumber => ExprTree::EngNumber(n.text@),
        SyntaxRule::Number => ExprTree::Number(n.text@),
        _ => ExprTree::Zero,
    }
}

/// `c` takes one byte in UTF-8.
pub open spec fn is_ascii_char(c: char) -> bool {
    (c as u32) < 128
}

/// The index of the first `_{` in `s` at or after `from`, or `s.len()`.
pub open spec fn brace_at(s: Seq<char>, from: int) -> int
    decreases s.len() - from,
{
    if from < 0 || from + 1 >= s.len() {
        s.len() as int
    } else if s[from] == '_' && s[from + 1] == '{' {
        from
    } else {
        brace_at(s, from + 1)
    }
}

/// An operand of a dynamic name's index: a number if it reads as one, else
/// a name.
pub open spec fn inline_operand(s: Seq<char>) -> ExprTree {
    if float_literal(s) {
        ExprTree::Number(s)
    } else {
        ExprTree::Ident(s)
    }
}

/// The operator characters tried in a dynamic name's index, in turn.
pub open spec fn inline_op_char(k: int) -> char {
    if k == 0 {
        '+'
    } else if k == 1 {
        '-'
    } else if k == 2 {
        '*'
    } else {
        '/'
    }
}

/// The operator of `inline_op_char(k)`.
pub open spec fn inline_op(k: int) -> BinOpKind {
    if k == 0 {
        BinOpKind::Add
    } else if k == 1 {
        BinOpKind::Sub
    } else if k == 2 {
        BinOpKind::Mul
    } else {
        BinOpKind::Div
    }
}

/// The trimmed index `s` split at the first occurrence of the `k`-th operator
/// character or a later one, when that occurrence is not at the start.
pub open spec fn inline_split(s: Seq<char>, k: int) -> ExprTree
    decreases 4 - k,
{
    if k >= 4 {
        ExprTree::Ident(s)
    } else {
        let c = inline_op_char(k);
        let pos = first_of(s, 0, c, c);
        if 0 < pos < s.len() {
            ExprTree::BinOp(
                Box::new(inline_operand(trim(s.subrange(0, pos)))),
                inline_op(k),
                Box::new(inline_operand(trim(s.subrange(pos + 1, s.len() as int)))),
            )
        } else {
            inline_split(s, k + 1)
        }
    }
}

/// The index written inside `_{..}` of a dynamic name: a number, one binary
/// operation on two operands, or a name.
pub open spec fn inline_expr(s: Seq<char>) -> ExprTree {
    let t = trim(s);
    if float_literal(t) {
        ExprTree::Number(t)
    } else {
        inline_split(t, 0)
    }
}

/// A dynamic name `prefix_{index}`, or a plain name when the text holds no
/// `_{`; `None` when the text cannot be cut as the rule's shape promises.
pub open spec fn dyn_ident_of(s: Seq<char>) -> Option<ExprTree> {
    let b = brace_at(s, 0);
    if b >= s.len() {
        Some(ExprTree::Ident(s))
    } else if is_ascii_char(s.last()) && b + 2 <= s.len() - 1 {
        Some(ExprTree::DynIdent(s.subrange(0, b), Box::new(inline_expr(s.subrange(b + 2, s.len() - 1)))))
    } else {
        None
    }
}

/// The expression that a parse-tree node stands for, or `None` where the
/// node lacks a child or a token that its rule always has.
pub open spec fn expr_of(n: SyntaxNode) -> Option<ExprTree>
    decreases n, n.children.len() + 2,
{
    let c = n.children;
    match n.rule {
        SyntaxRule::Expr | SyntaxRule::Atom => if c.len() == 0 {
            None
        } else {
            expr_of(c[0])
        },
        SyntaxRule::Comparison | SyntaxRule::AddExpr | SyntaxRule::MulExpr => if c.len() % 2 == 1 {
            chain_of(n, c.len() as int)
        } else {
            None
        },
        SyntaxRule::UnaryExpr => if c.len() == 0 {
            None
        } else if c[0].rule == SyntaxRule::UnaryOp {
            if c.len() < 2 {
                None
            } else {
                match expr_of(c[1]) {
                    Some(e) => Some(ExprTree::Neg(Box::new(e))),
                    None => None,
                }
            }
        } else {
            expr_of(c[0])
        },
        SyntaxRule::PostfixExpr => if c.len() == 0 {
            None
        } else {
            match (expr_of(c[0]), calls_of(n, c.len() as int)) {
                (Some(b), Some(cs)) => Some(
                    if c.len() == 1 {
                        b
                    } else {
                        ExprTree::MethodChain(Box::new(b), cs)
                    },
                ),
                _ => None,
            }
        },
        SyntaxRule::ComponentCtor => if c.len() == 0 {
            None
        } else {
            match opt_args(n) {
                Some(a) => Some(ExprTree::ComponentCtor(ctor_spec(c[0].text@), a)),
                None => None,
            }
        },
        SyntaxRule::Phasor => if c.len() < 2 {
            None
        } else {
            Some(ExprTree::Phasor(Box::new(num_token(c[0])), Box::new(num_token(c[1]))))
        },
        SyntaxRule::LambdaExpr => if c.len() < 2 {
            None
        } else {
            let body = if c[1].rule == SyntaxRule::BlockOrExpr {
                body_of(c[1])
            } else {
                expr_of(c[1])
            };
            match body {
                Some(b) => Some(ExprTree::Lambda(c[0].text@, Box::new(b))),
                None => None,
            }
        },
        SyntaxRule::IfExpr => if c.len() < 3 {
            None
        } else {
            match (expr_of(c[0]), body_of(c[1]), body_of(c[2])) {
                (Some(a), Some(b), Some(d)) => Some(
                    ExprTree::IfExpr(Box::new(a), Box::new(b), Box::new(d)),
                ),
                _ => None,
            }
        },
        SyntaxRule::FuncCall => if c.len() == 0 {
            None
        } else {
            match opt_args(n) {
                Some(a) => Some(ExprTree::FuncCall(c[0].text@, a)),
                None => None,
            }
        },
        SyntaxRule::BoolLit => Some(ExprTree::Bool(n.text@ == "true"@)),
        SyntaxRule::EngNumber => Some(ExprTree::EngNumber(n.text@)),
        SyntaxRule::ImagNumber => if n.text@.len() > 0 && is_ascii_char(n.text@.last()) {
            Some(ExprTree::Imag(n.text@.drop_last()))
        } else {
            None
        },
        SyntaxRule::Number => Some(ExprTree::Number(n.text@)),
        SyntaxRule::StringLit => if n.text@.len() >= 2 && is_ascii_char(n.text@[0]) && is_ascii_char(
            n.text@.last(),
        ) {
            Some(ExprTree::StringLit(n.text@.subrange(1, n.text@.len() - 1)))
        } else {
            None
        },
        SyntaxRule::DynIdent => dyn_ident_of(n.text@),
        SyntaxRule::Ident => Some(ExprTree::Ident(n.text@)),
        _ => Some(ExprTree::Zero),
    }
}

/// The operator chain of the first `k` children of `n` (operands at even
/// places, operators between them), folded to the left.
pub open spec fn chain_of(n: SyntaxNode, k: int) -> Option<ExprTree>
    decreases n, k,
{
    if k <= 0 || k > n.children.len() {
        None
    } else if k == 1 {
        expr_of(n.children[0])
    } else {
        match (chain_of(n, k - 2), chain_op(n.rule, n.children[k - 2].text@), expr_of(n.children[k - 1])) {
            (Some(l), Some(op), Some(r)) => Some(ExprTree::BinOp(Box::new(l), op, Box::new(r))),
            _ => None,
        }
    }
}

/// The method calls among the children `1..k` of the postfix node `n`.
pub open spec fn calls_of(n: SyntaxNode, k: int) -> Option<Seq<CallTree>>
    decreases n, k,
{
    if k <= 1 || k > n.children.len() {
        Some(Seq::empty())
    } else {
        match (calls_of(n, k - 1), call_of(n.children[k - 1])) {
            (Some(cs), Some(c)) => Some(cs.push(c)),
            _ => None,
        }
    }
}

/// One method call: its name, then its arguments if it has any.
pub open spec fn call_of(m: SyntaxNode) -> Option<CallTree>
    decreases m, 2int,
{
    if m.children.len() == 0 {
        None
    } else {
        match opt_args(m) {
            Some(a) => Some(CallTree { name: m.children[0].text@, args: a }),
            None => None,
        }
    }
}

/// The arguments held by the second child of `n`, none if there is none.
pub open spec fn opt_args(n: SyntaxNode) -> Option<Seq<ArgTree>>
    decreases n, 1int,
{
    if n.children.len() >= 2 {
        args_of(n.children[1], n.children[1].children.len() as int)
    } else {
        Some(Seq::empty())
    }
}

/// The first `k` arguments of the argument list `l`.
pub open spec fn args_of(l: SyntaxNode, k: int) -> Option<Seq<ArgTree>>
    decreases l, k,
{
    if k <= 0 || k > l.children.len() {
        Some(Seq::empty())
    } else {
        match (args_of(l, k - 1), arg_of(l.children[k - 1])) {
            (Some(a), Some(x)) => Some(a.push(x)),
            _ => None,
        }
    }
}

/// One argument: `name: value` when it starts with a name and has a value,
/// else a value alone.
pub open spec fn arg_of(a: SyntaxNode) -> Option<ArgTree>
    decreases a, 0int,
{
    let p = a.children;
    if p.len() >= 2 && p[0].rule == SyntaxRule::Ident {
        match expr_of(p[1]) {
            Some(v) => Some(ArgTree { name: Some(p[0].text@), value: v }),
            None => None,
        }
    } else if p.len() >= 1 {
        match expr_of(p[0]) {
            Some(v) => Some(ArgTree { name: None, value: v }),
            None => None,
        }
    } else {
        None
    }
}

/// The value of a block-or-expression: the expression, or in a block the
/// expression of its first statement when that is an expression statement,
/// else zero.
pub open spec fn body_of(b: SyntaxNode) -> Option<ExprTree>
    decreases b, 0int,
{
    if b.children.len() == 0 {
        None
    } else {
        let inner = b.children[0];
        if inner.rule == SyntaxRule::Block {
            if inner.children.len() == 0 || inner.children[0].rule != SyntaxRule::Statement {
                Some(ExprTree::Zero)
            } else {
                let st = inner.children[0];
                if st.children.len() == 0 {
                    None
                } else if st.children[0].rule != SyntaxRule::ExprStmt {
                    Some(ExprTree::Zero)
                } else if st.children[0].children.len() == 0 {
                    None
                } else {
                    expr_of(st.children[0].children[0])
                }
            }
        } else {
            expr_of(inner)
        }
    }
}

proof fn lemma_arg_trees_prefix(a: &Vec<ScriptArg>, b: &Vec<ScriptArg>, k: int)
    requires
        0 <= k <= a.len(),
        k <= b.len(),
        forall|i: int| 0 <= i < k ==> a[i] == b[i],
    ensures
        arg_trees(a, k) == arg_trees(b, k),
    decreases k,
{
    if k > 0 {
        lemma_arg_trees_prefix(a, b, k - 1);
    }
}

proof fn lemma_call_trees_prefix(a: &Vec<ScriptCall>, b: &Vec<ScriptCall>, k: int)
    requires
        0 <= k <= a.len(),
        k <= b.len(),
        forall|i: int| 0 <= i < k ==> a[i] == b[i],
    ensures
        call_trees(a, k) == call_trees(b, k),
    decreases k,
{
    if k > 0 {
        lemma_call_trees_prefix(a, b, k - 1);
    }
}

fn copy_text(s: &String) -> (r: String)
    ensures
        r@ == s@,
{
    s.as_str().to_owned()
}

fn num_token_of(n: &SyntaxNode) -> (r: ScriptExpr)
    ensures
        r.tree() == num_token(*n),
{
    match n.rule {
        SyntaxRule::EngNumber => ScriptExpr::EngNumber(copy_text(&n.text)),
        SyntaxRule::Number => ScriptExpr::Number(copy_text(&n.text)),
        _ => ScriptExpr::Zero,
    }
}

fn inline_op_char_of(k: usize) -> (r: char)
    ensures
        r == inline_op_char(k as int),
{
    if k == 0 {
        '+'
    } else if k == 1 {
        '-'
    } else if k == 2 {
        '*'
    } else {
        '/'
    }
}

fn inline_op_of(k: usize) -> (r: BinOpKind)
    ensures
        r == inline_op(k as int),
{
    if k == 0 {
        BinOpKind::Add
    } else if k == 1 {
        BinOpKind::Sub
    } else if k == 2 {
        BinOpKind::Mul
    } else {
        BinOpKind::Div
    }
}

fn inline_operand_of(s: &str, v: &Vec<char>, a: usize, b: usize) -> (r: ScriptExpr)
    requires
        v@ == s@,
        a <= b <= v@.len(),
    ensures
        r.tree() == inline_operand(v@.subrange(a as int, b as int)),
{
    let t = s.substring_char(a, b).to_owned();
    if float_between(v, a, b) {
        ScriptExpr::Number(t)
    } else {
        ScriptExpr::Ident(t)
    }
}

/// Reads the index written inside `_{..}` of a dynamic name.
pub fn build_inline(s: &str) -> (r: ScriptExpr)
    ensures
        r.tree() == inline_expr(s@),
{
    let v = chars_of(s);
    assert(v@.subrange(0, v@.len() as int) =~= v@);
    let (a, b) = trim_bounds(&v, 0, v.len());
    let ghost t = v@.subrange(a as int, b as int);
    if float_between(&v, a, b) {
        return ScriptExpr::Number(s.substring_char(a, b).to_owned());
    }
    let mut k: usize = 0;
    while k < 4
        invariant
            v@ == s@,
            a <= b <= v@.len(),
            t == v@.subrange(a as int, b as int),
            t == trim(s@),
            !float_literal(t),
            k <= 4,
            inline_split(t, 0) == inline_split(t, k as int),
        decreases 4 - k,
    {
        let c = inline_op_char_of(k);
        let pos = find_between(&v, a, b, c, c);
        if pos > a && pos < b {
            let (la, lb) = trim_bounds(&v, a, pos);
            let (ra, rb) = trim_bounds(&v, pos + 1, b);
            proof {
                assert(t.subrange(0, pos - a) =~= v@.subrange(a as int, pos as int));
                assert(t.subrange(pos - a + 1, t.len() as int) =~= v@.subrange(pos + 1, b as int));
            }
            let l = inline_operand_of(s, &v, la, lb);
            let r = inline_operand_of(s, &v, ra, rb);
            return ScriptExpr::BinOp { left: Box::new(l), op: inline_op_of(k), right: Box::new(r) };
        }
        k = k + 1;
    }
    ScriptExpr::Ident(s.substring_char(a, b).to_owned())
}

fn build_dyn_ident(s: &str) -> (r: Option<ScriptExpr>)
    ensures
        opt_tree(r) == dyn_ident_of(s@),
{
    let v = chars_of(s);
    let n = v.len();
    let mut i: usize = 0;
    while n > 1 && i < n - 1 && !(v[i] == '_' && v[i + 1] == '{')
        invariant
            v@ == s@,
            n == v@.len(),
            i < n || n == 0,
            brace_at(s@, 0) == brace_at(s@, i as int),
        decreases n - i,
    {
        i = i + 1;
    }
    if n <= 1 || i >= n - 1 {
        return Some(ScriptExpr::Ident(s.to_owned()));
    }
    if (v[n - 1] as u32) < 128 && i + 2 <= n - 1 {
        let prefix = s.substring_char(0, i).to_owned();
        let inner = s.substring_char(i + 2, n - 1);
        Some(ScriptExpr::DynIdent { prefix, index: Box::new(build_inline(inner)) })
    } else {
        None
    }
}

/// Reads the expression that a parse-tree node stands for; `None` where the
/// node lacks a child or a token that its rule always has.
pub fn build_expr(n: &SyntaxNode) -> (r: Option<ScriptExpr>)
    ensures
        opt_tree(r) == expr_of(*n),
    decreases n, n.children.len() + 2,
{
    let c = &n.children;
    match n.rule {
        SyntaxRule::Expr | SyntaxRule::Atom => if c.len() == 0 {
            None
        } else {
            build_expr(&c[0])
        },
        SyntaxRule::Comparison | SyntaxRule::AddExpr | SyntaxRule::MulExpr => if c.len() % 2 == 1 {
            build_chain(n, c.len())
        } else {
            None
        },
        SyntaxRule::UnaryExpr => if c.len() == 0 {
            None
        } else if c[0].rule == SyntaxRule::UnaryOp {
            if c.len() < 2 {
                None
            } else {
                match build_expr(&c[1]) {
                    Some(e) => Some(ScriptExpr::Neg(Box::new(e))),
                    None => None,
                }
            }
        } else {
            build_expr(&c[0])
        },
        SyntaxRule::PostfixExpr => if c.len() == 0 {
            None
        } else {
            let base = build_expr(&c[0]);
            let calls = build_calls(n, c.len());
            match (base, calls) {
                (Some(b), Some(cs)) => Some(
                    if c.len() == 1 {
                        b
                    } else {
                        ScriptExpr::MethodChain { receiver: Box::new(b), calls: cs }
                    },
                ),
                _ => None,
            }
        },
        SyntaxRule::ComponentCtor => if c.len() == 0 {
            None
        } else {
            match build_opt_args(n) {
                Some(a) => Some(
                    ScriptExpr::ComponentCtor { comp_type: component_ctor_of(c[0].text.as_str()), args: a },
                ),
                None => None,
            }
        },
        SyntaxRule::Phasor => if c.len() < 2 {
            None
        } else {
            Some(
                ScriptExpr::Phasor {
                    mag: Box::new(num_token_of(&c[0])),
                    phase: Box::new(num_token_of(&c[1])),
                },
            )
        },
        SyntaxRule::LambdaExpr => if c.len() < 2 {
            None
        } else {
            let body = if c[1].rule == SyntaxRule::BlockOrExpr {
                build_body(&c[1])
            } else {
                build_expr(&c[1])
            };
            match body {
                Some(b) => Some(ScriptExpr::Lambda { param: copy_text(&c[0].text), body: Box::new(b) }),
                None => None,
            }
        },
        SyntaxRule::IfExpr => if c.len() < 3 {
            None
        } else {
            let a = build_expr(&c[0]);
            let b = build_body(&c[1]);
            let d = build_body(&c[2]);
            match (a, b, d) {
                (Some(a), Some(b), Some(d)) => Some(
                    ScriptExpr::IfExpr { cond: Box::new(a), then_val: Box::new(b), else_val: Box::new(d) },
                ),
                _ => None,
            }
        },
        SyntaxRule::FuncCall => if c.len() == 0 {
            None
        } else {
            match build_opt_args(n) {
                Some(a) => Some(ScriptExpr::FuncCall { name: copy_text(&c[0].text), args: a }),
                None => None,
            }
        },
        SyntaxRule::BoolLit => Some(ScriptExpr::Bool(same_text(n.text.as_str(), "true"))),
        SyntaxRule::EngNumber => Some(ScriptExpr::EngNumber(copy_text(&n.text))),
        SyntaxRule::ImagNumber => {
            let v = chars_of(n.text.as_str());
            let len = v.len();
            if len > 0 && (v[len - 1] as u32) < 128 {
                Some(ScriptExpr::Imag(n.text.as_str().substring_char(0, len - 1).to_owned()))
            } else {
                None
            }
        },
        SyntaxRule::Number => Some(ScriptExpr::Number(copy_text(&n.text))),
        SyntaxRule::StringLit => {
            let v = chars_of(n.text.as_str());
            let len = v.len();
            if len >= 2 && (v[0] as u32) < 128 && (v[len - 1] as u32) < 128 {
                Some(ScriptExpr::StringLit(n.text.as_str().substring_char(1, len - 1).to_owned()))
            } else {
                None
            }
        },
        SyntaxRule::DynIdent => build_dyn_ident(n.text.as_str()),
        SyntaxRule::Ident => Some(ScriptExpr::Ident(copy_text(&n.text))),
        _ => Some(ScriptExpr::Zero),
    }
}

fn build_chain(n: &SyntaxNode, k: usize) -> (r: Option<ScriptExpr>)
    ensures
        opt_tree(r) == chain_of(*n, k as int),
    decreases n, k,
{
    if k == 0 || k > n.children.len() {
        None
    } else if k == 1 {
        build_expr(&n.children[0])
    } else {
        let l = build_chain(n, k - 2);
        let op = match n.rule {
            SyntaxRule::Comparison => parse_comp_op(n.children[k - 2].text.as_str()),
            SyntaxRule::AddExpr => parse_add_op(n.children[k - 2].text.as_str()),
            _ => parse_mul_op(n.children[k - 2].text.as_str()),
        };
        let r = build_expr(&n.children[k - 1]);
        match (l, op, r) {
            (Some(l), Some(op), Some(r)) => Some(ScriptExpr::BinOp { left: Box::new(l), op, right: Box::new(r) }),
            _ => None,
        }
    }
}

fn build_calls(n: &SyntaxNode, k: usize) -> (r: Option<Vec<ScriptCall>>)
    ensures
        match r {
            Some(v) => calls_of(*n, k as int) == Some(call_trees(&v, v.len() as int)),
            None => calls_of(*n, k as int) is None,
        },
    decreases n, k,
{
    if k <= 1 || k > n.children.len() {
        let v: Vec<ScriptCall> = Vec::new();
        return Some(v);
    }
    let prev = build_calls(n, k - 1);
    let one = build_call(&n.children[k - 1]);
    match (prev, one) {
        (Some(mut v), Some(x)) => {
            let ghost before = v;
            v.push(x);
            proof {
                lemma_call_trees_prefix(&before, &v, before.len() as int);
            }
            Some(v)
        },
        _ => None,
    }
}

fn build_call(m: &SyntaxNode) -> (r: Option<ScriptCall>)
    ensures
        match r {
            Some(x) => call_of(*m) == Some(CallTree { name: x.name@, args: arg_trees(&x.args, x.args.len() as int) }),
            None => call_of(*m) is None,
        },
    decreases m, 2int,
{
    if m.children.len() == 0 {
        None
    } else {
        match build_opt_args(m) {
            Some(a) => Some(ScriptCall { name: copy_text(&m.children[0].text), args: a }),
            None => None,
        }
    }
}

fn build_opt_args(n: &SyntaxNode) -> (r: Option<Vec<ScriptArg>>)
    ensures
        match r {
            Some(v) => opt_args(*n) == Some(arg_trees(&v, v.len() as int)),
            None => opt_args(*n) is None,
        },
    decreases n, 1int,
{
    if n.children.len() >= 2 {
        build_args(&n.children[1], n.children[1].children.len())
    } else {
        let v: Vec<ScriptArg> = Vec::new();
        Some(v)
    }
}

fn build_args(l: &SyntaxNode, k: usize) -> (r: Option<Vec<ScriptArg>>)
    ensures
        match r {
            Some(v) => args_of(*l, k as int) == Some(arg_trees(&v, v.len() as int)),
            None => args_of(*l, k as int) is None,
        },
    decreases l, k,
{
    if k == 0 || k > l.children.len() {
        let v: Vec<ScriptArg> = Vec::new();
        return Some(v);
    }
    let prev = build_args(l, k - 1);
    let one = build_arg(&l.children[k - 1]);
    match (prev, one) {
        (Some(mut v), Some(x)) => {
            let ghost before = v;
            v.push(x);
            proof {
                lemma_arg_trees_prefix(&before, &v, before.len() as int);
            }
            Some(v)
        },
        _ => None,
    }
}

fn build_arg(a: &SyntaxNode) -> (r: Option<ScriptArg>)
    ensures
        match r {
            Some(x) => arg_of(*a) == Some(
                ArgTree {
                    name: match x.name {
                        Some(s) => Some(s@),
                        None => None,
                    },
                    value: x.value.tree(),
                },
            ),
            None => arg_of(*a) is None,
        },
    decreases a, 0int,
{
    let p = &a.children;
    if p.len() >= 2 && p[0].rule == SyntaxRule::Ident {
        match build_expr(&p[1]) {
            Some(v) => Some(ScriptArg { name: Some(copy_text(&p[0].text)), value: v }),
            None => None,
        }
    } else if p.len() >= 1 {
        match build_expr(&p[0]) {
            Some(v) => Some(ScriptArg { name: None, value: v }),
            None => None,
        }
    } else {
        None
    }
}

fn build_body(b: &SyntaxNode) -> (r: Option<ScriptExpr>)
    ensures
        opt_tree(r) == body_of(*b),
    decreases b, 0int,
{
    if b.children.len() == 0 {
        return None;
    }
    let inner = &b.children[0];
    if inner.rule == SyntaxRule::Block {
        if inner.children.len() == 0 || inner.children[0].rule != SyntaxRule::Statement {
            Some(ScriptExpr::Zero)
        } else {
            let st = &inner.children[0];
            if st.children.len() == 0 {
                None
            } else if st.children[0].rule != SyntaxRule::ExprStmt {
                Some(ScriptExpr::Zero)
            } else if st.children[0].children.len() == 0 {
                None
            } else {
                build_expr(&st.children[0].children[0])
            }
        }
    } else {
        build_expr(inner)
    }
}

/// A statement of a script.
#[derive(Debug, PartialEq)]
pub enum ScriptStmt {
    Let { name: String, value: ScriptExpr },
    Assign { name: String, value: ScriptExpr },
    ForRange { var_name: String, start: ScriptExpr, end: ScriptExpr, body: Vec<ScriptStmt> },
    If { condition: ScriptExpr, then_block: Vec<ScriptStmt>, else_block: Option<Vec<ScriptStmt>> },
    Analyze { kind: AnalysisKind, params: Vec<ScriptParam> },
    ExprStmt(ScriptExpr),
}

/// A named parameter of an analysis: `stop: 10m`.
#[derive(Debug, PartialEq)]
pub struct ScriptParam {
    pub name: String,
    pub value: ScriptExpr,
}

/// The mathematical value of a `ScriptStmt`.
pub enum StmtTree {
    Let(Seq<char>, ExprTree),
    Assign(Seq<char>, ExprTree),
    ForRange(Seq<char>, ExprTree, ExprTree, Seq<StmtTree>),
    If(ExprTree, Seq<StmtTree>, Option<Seq<StmtTree>>),
    Analyze(AnalysisKind, Seq<(Seq<char>, ExprTree)>),
    ExprStmt(ExprTree),
}

impl ScriptStmt {
    /// The tree this statement stands for.
    pub open spec fn tree(&self) -> StmtTree
        decreases self, 0int,
    {
        match self {
            ScriptStmt::Let { name, value } => StmtTree::Let(name@, value.tree()),
            ScriptStmt::Assign { name, value } => StmtTree::Assign(name@, value.tree()),
            ScriptStmt::ForRange { var_name, start, end, body } => StmtTree::ForRange(
                var_name@,
                start.tree(),
                end.tree(),
                stmt_trees(body, body.len() as int),
            ),
            ScriptStmt::If { condition, then_block, else_block } => StmtTree::If(
                condition.tree(),
                stmt_trees(then_block, then_block.len() as int),
                match else_block {
                    Some(b) => Some(stmt_trees(b, b.len() as int)),
                    None => None,
                },
            ),
            ScriptStmt::Analyze { kind, params } => StmtTree::Analyze(*kind, param_trees(params, params.len() as int)),
            ScriptStmt::ExprStmt(e) => StmtTree::ExprStmt(e.tree()),
        }
    }
}

/// The trees of the first `k` statements of `v`.
pub open spec fn stmt_trees(v: &Vec<ScriptStmt>, k: int) -> Seq<StmtTree>
    decreases v, k,
{
    if k <= 0 || k > v.len() {
        Seq::empty()
    } else {
        stmt_trees(v, k - 1).push(v[k - 1].tree())
    }
}

/// The names and value trees of the first `k` parameters of `v`.
pub open spec fn param_trees(v: &Vec<ScriptParam>, k: int) -> Seq<(Seq<char>, ExprTree)>
    decreases k,
{
    if k <= 0 || k > v.len() {
        Seq::empty()
    } else {
        param_trees(v, k - 1).push((v[k - 1].name@, v[k - 1].value.tree()))
    }
}

/// The analysis named `s`.
pub open spec fn analysis_of(s: Seq<char>) -> Option<AnalysisKind> {
    if s == analysis_keyword(AnalysisKind::Transient) {
        Some(AnalysisKind::Transient)
    } else if s == analysis_keyword(AnalysisKind::Ac) {
        Some(AnalysisKind::Ac)
    } else if s == analysis_keyword(AnalysisKind::Dc) {
        Some(AnalysisKind::Dc)
    } else {
        None
    }
}

/// The parameters among the first `k` children of a parameter list: each a
/// name then a value.
pub open spec fn params_of(l: SyntaxNode, k: int) -> Option<Seq<(Seq<char>, ExprTree)>>
    decreases k,
{
    if k <= 0 || k > l.children.len() {
        Some(Seq::empty())
    } else {
        let p = l.children[k - 1];
        match params_of(l, k - 1) {
            None => None,
            Some(ps) => if p.children.len() < 2 {
                None
            } else {
                match expr_of(p.children[1]) {
                    Some(v) => Some(ps.push((p.children[0].text@, v))),
                    None => None,
                }
            },
        }
    }
}

/// A statement node: `Some(Some(..))` for a statement, `Some(None)` for one
/// that is left out (a part missing that the reading may go without, or an
/// unknown analysis), `None` where a part that must be there is missing.
pub open spec fn stmt_of(st: SyntaxNode) -> Option<Option<StmtTree>>
    decreases st, 0int,
{
    if st.children.len() == 0 {
        Some(None)
    } else {
        let n = st.children[0];
        let c = n.children;
        match n.rule {
            SyntaxRule::LetStmt | SyntaxRule::AssignStmt => if c.len() < 2 {
                Some(None)
            } else {
                match expr_of(c[1]) {
                    None => None,
                    Some(v) => Some(
                        Some(
                            if n.rule == SyntaxRule::LetStmt {
                                StmtTree::Let(c[0].text@, v)
                            } else {
                                StmtTree::Assign(c[0].text@, v)
                            },
                        ),
                    ),
                }
            },
            SyntaxRule::ForStmt => if c.len() < 2 {
                Some(None)
            } else {
                match expr_of(c[1]) {
                    None => None,
                    Some(a) => if c.len() < 3 {
                        Some(None)
                    } else {
                        match expr_of(c[2]) {
                            None => None,
                            Some(b) => if c.len() < 4 {
                                Some(None)
                            } else {
                                match block_of(c[3], c[3].children.len() as int) {
                                    None => None,
                                    Some(body) => Some(Some(StmtTree::ForRange(c[0].text@, a, b, body))),
                                }
                            },
                        }
                    },
                }
            },
            SyntaxRule::IfStmt => if c.len() < 1 {
                Some(None)
            } else {
                match expr_of(c[0]) {
                    None => None,
                    Some(cond) => if c.len() < 2 {
                        Some(None)
                    } else {
                        match block_of(c[1], c[1].children.len() as int) {
                            None => None,
                            Some(t) => if c.len() < 3 {
                                Some(Some(StmtTree::If(cond, t, None)))
                            } else {
                                match block_of(c[2], c[2].children.len() as int) {
                                    None => None,
                                    Some(e) => Some(Some(StmtTree::If(cond, t, Some(e)))),
                                }
                            },
                        }
                    },
                }
            },
            SyntaxRule::AnalyzeStmt => if c.len() < 1 {
                Some(None)
            } else {
                match analysis_of(c[0].text@) {
                    None => Some(None),
                    Some(kind) => if c.len() >= 2 && c[1].rule == SyntaxRule::SimParams {
                        match params_of(c[1], c[1].children.len() as int) {
                            None => None,
                            Some(ps) => Some(Some(StmtTree::Analyze(kind, ps))),
                        }
                    } else {
                        Some(Some(StmtTree::Analyze(kind, Seq::empty())))
                    },
                }
            },
            SyntaxRule::ExprStmt => if c.len() < 1 {
                Some(None)
            } else {
                match expr_of(c[0]) {
                    None => None,
                    Some(e) => Some(Some(StmtTree::ExprStmt(e))),
                }
            },
            _ => Some(None),
        }
    }
}

/// The statements among the first `k` children of a block (or program)
/// node, leaving out children of other rules and statements left out.
pub open spec fn block_of(b: SyntaxNode, k: int) -> Option<Seq<StmtTree>>
    decreases b, k,
{
    if k <= 0 || k > b.children.len() {
        Some(Seq::empty())
    } else {
        match block_of(b, k - 1) {
            None => None,
            Some(ss) => if b.children[k - 1].rule != SyntaxRule::Statement {
                Some(ss)
            } else {
                match stmt_of(b.children[k - 1]) {
                    None => None,
                    Some(None) => Some(ss),
                    Some(Some(x)) => Some(ss.push(x)),
                }
            },
        }
    }
}

/// An `if` statement keeps the branch order of the text: its condition is
/// the reading of its first part, its then-block the reading of the block
/// written right after the condition, and its else-block, when there is
/// one, the reading of the block written after that.
pub proof fn lemma_if_branch_order(st: SyntaxNode)
    requires
        st.children.len() > 0,
        st.children[0].rule == SyntaxRule::IfStmt,
    ensures
        ({
            let c = st.children[0].children;
            let cond = expr_of(c[0]);
            let t = block_of(c[1], c[1].children.len() as int);
            let e = block_of(c[2], c[2].children.len() as int);
            c.len() >= 3 && cond is Some && t is Some && e is Some ==> stmt_of(st) == Some(
                Some(StmtTree::If(cond.unwrap(), t.unwrap(), Some(e.unwrap()))),
            )
        }),
        ({
            let c = st.children[0].children;
            let cond = expr_of(c[0]);
            let t = block_of(c[1], c[1].children.len() as int);
            c.len() == 2 && cond is Some && t is Some ==> stmt_of(st) == Some(
                Some(StmtTree::If(cond.unwrap(), t.unwrap(), None)),
            )
        }),
{
    let n = st.children[0];
    let c = n.children;
    reveal_with_fuel(stmt_of, 2);
    if c.len() >= 2 {
        if let (Some(cond), Some(t)) = (expr_of(c[0]), block_of(c[1], c[1].children.len() as int)) {
            if c.len() >= 3 {
                if let Some(e) = block_of(c[2], c[2].children.len() as int) {
                    assert(stmt_of(st) == Some(Some(StmtTree::If(cond, t, Some(e)))));
                }
            } else {
                assert(stmt_of(st) == Some(Some(StmtTree::If(cond, t, None))));
            }
        }
    }
}

proof fn lemma_stmt_trees_prefix(a: &Vec<ScriptStmt>, b: &Vec<ScriptStmt>, k: int)
    requires
        0 <= k <= a.len(),
        k <= b.len(),
        forall|i: int| 0 <= i < k ==> a[i] == b[i],
    ensures
        stmt_trees(a, k) == stmt_trees(b, k),
    decreases k,
{
    if k > 0 {
        lemma_stmt_trees_prefix(a, b, k - 1);
    }
}

proof fn lemma_param_trees_prefix(a: &Vec<ScriptParam>, b: &Vec<ScriptParam>, k: int)
    requires
        0 <= k <= a.len(),
        k <= b.len(),
        forall|i: int| 0 <= i < k ==> a[i] == b[i],
    ensures
        param_trees(a, k) == param_trees(b, k),
    decreases k,
{
    if k > 0 {
        lemma_param_trees_prefix(a, b, k - 1);
    }
}

fn analysis_named(s: &str) -> (r: Option<AnalysisKind>)
    ensures
        r == analysis_of(s@),
{
    let r = analysis_kind_of(s);
    proof {
        if s@ == analysis_keyword(AnalysisKind::Transient) {
            assert(r == Some(AnalysisKind::Transient));
        } else if s@ == analysis_keyword(AnalysisKind::Ac) {
            assert(r == Some(AnalysisKind::Ac));
        } else if s@ == analysis_keyword(AnalysisKind::Dc) {
            assert(r == Some(AnalysisKind::Dc));
        } else {
            assert(r is None) by {
                if r is Some {
                    assert(s@ == analysis_keyword(r->0));
                }
            }
        }
    }
    r
}

fn build_params(l: &SyntaxNode, k: usize) -> (r: Option<Vec<ScriptParam>>)
    ensures
        match r {
            Some(v) => params_of(*l, k as int) == Some(param_trees(&v, v.len() as int)),
            None => params_of(*l, k as int) is None,
        },
    decreases k,
{
    if k == 0 || k > l.children.len() {
        let v: Vec<ScriptParam> = Vec::new();
        return Some(v);
    }
    let p = &l.children[k - 1];
    match build_params(l, k - 1) {
        None => None,
        Some(mut v) => if p.children.len() < 2 {
            None
        } else {
            match build_expr(&p.children[1]) {
                Some(x) => {
                    let ghost before = v;
                    v.push(ScriptParam { name: copy_text(&p.children[0].text), value: x });
                    proof {
                        lemma_param_trees_prefix(&before, &v, before.len() as int);
                    }
                    Some(v)
                },
                None => None,
            }
        },
    }
}

/// Reads a statement node: `Some(Some(..))` for a statement, `Some(None)`
/// for one left out, `None` where a part that must be there is missing.
pub fn build_stmt(st: &SyntaxNode) -> (r: Option<Option<ScriptStmt>>)
    ensures
        match r {
            None => stmt_of(*st) is None,
            Some(None) => stmt_of(*st) == Some(None::<StmtTree>),
            Some(Some(x)) => stmt_of(*st) == Some(Some(x.tree())),
        },
    decreases st, 0int,
{
    if st.children.len() == 0 {
        return Some(None);
    }
    let n = &st.children[0];
    let c = &n.children;
    match n.rule {
        SyntaxRule::LetStmt | SyntaxRule::AssignStmt => if c.len() < 2 {
            Some(None)
        } else {
            match build_expr(&c[1]) {
                None => None,
                Some(v) => {
                    let name = copy_text(&c[0].text);
                    Some(
                        Some(
                            if n.rule == SyntaxRule::LetStmt {
                                ScriptStmt::Let { name, value: v }
                            } else {
                                ScriptStmt::Assign { name, value: v }
                            },
                        ),
                    )
                },
            }
        },
        SyntaxRule::ForStmt => if c.len() < 2 {
            Some(None)
        } else {
            match build_expr(&c[1]) {
                None => None,
                Some(a) => if c.len() < 3 {
                    Some(None)
                } else {
                    match build_expr(&c[2]) {
                        None => None,
                        Some(b) => if c.len() < 4 {
                            Some(None)
                        } else {
                            match build_block(&c[3], c[3].children.len()) {
                                None => None,
                                Some(body) => Some(
                                    Some(
                                        ScriptStmt::ForRange {
                                            var_name: copy_text(&c[0].text),
                                            start: a,
                                            end: b,
                                            body,
                                        },
                                    ),
                                ),
                            }
                        },
                    }
                },
            }
        },
        SyntaxRule::IfStmt => if c.len() < 1 {
            Some(None)
        } else {
            match build_expr(&c[0]) {
                None => None,
                Some(cond) => if c.len() < 2 {
                    Some(None)
                } else {
                    match build_block(&c[1], c[1].children.len()) {
                        None => None,
                        Some(t) => if c.len() < 3 {
                            Some(Some(ScriptStmt::If { condition: cond, then_block: t, else_block: None }))
                        } else {
                            match build_block(&c[2], c[2].children.len()) {
                                None => None,
                                Some(e) => Some(
                                    Some(ScriptStmt::If { condition: cond, then_block: t, else_block: Some(e) }),
                                ),
                            }
                        },
                    }
                },
            }
        },
        SyntaxRule::AnalyzeStmt => if c.len() < 1 {
            Some(None)
        } else {
            match analysis_named(c[0].text.as_str()) {
                None => Some(None),
                Some(kind) => if c.len() >= 2 && c[1].rule == SyntaxRule::SimParams {
                    match build_params(&c[1], c[1].children.len()) {
                        None => None,
                        Some(ps) => Some(Some(ScriptStmt::Analyze { kind, params: ps })),
                    }
                } else {
                    let ps: Vec<ScriptParam> = Vec::new();
                    Some(Some(ScriptStmt::Analyze { kind, params: ps }))
                },
            }
        },
        SyntaxRule::ExprStmt => if c.len() < 1 {
            Some(None)
        } else {
            match build_expr(&c[0]) {
                None => None,
                Some(e) => Some(Some(ScriptStmt::ExprStmt(e))),
            }
        },
        _ => Some(None),
    }
}

/// Reads the statements among the first `k` children of a block or program
/// node; `None` where a statement lacks a part that must be there.
pub fn build_block(b: &SyntaxNode, k: usize) -> (r: Option<Vec<ScriptStmt>>)
    ensures
        match r {
            Some(v) => block_of(*b, k as int) == Some(stmt_trees(&v, v.len() as int)),
            None => block_of(*b, k as int) is None,
        },
    decreases b, k,
{
    if k == 0 || k > b.children.len() {
        let v: Vec<ScriptStmt> = Vec::new();
        return Some(v);
    }
    match build_block(b, k - 1) {
        None => None,
        Some(mut v) => if b.children[k - 1].rule != SyntaxRule::Statement {
            Some(v)
        } else {
            match build_stmt(&b.children[k - 1]) {
                None => None,
                Some(None) => Some(v),
                Some(Some(x)) => {
                    let ghost before = v;
                    v.push(x);
                    proof {
                        lemma_stmt_trees_prefix(&before, &v, before.len() as int);
                    }
                    Some(v)
                },
            }
        },
    }
}

/// Reads a whole program node: its statements in order.
pub fn build_program(p: &SyntaxNode) -> (r: Option<Vec<ScriptStmt>>)
    ensures
        match r {
            Some(v) => block_of(*p, p.children.len() as int) == Some(stmt_trees(&v, v.len() as int)),
            None => block_of(*p, p.children.len() as int) is None,
        },
{
    build_block(p, p.children.len())
}

} // verus!
