//! Reading the time functions of functional sources: numbers with SI unit
//! letters, the time `t`, `pi`, `+ - * / ^` split at the first operator
//! outside parentheses, the functions `sin cos tan exp sqrt abs log log10`,
//! comparisons, and the two conditional forms `c ? a : b` and
//! `if c then a else b`. The tree keeps number text; its value is floating
//! point and is computed by the caller.
use vstd::prelude::*;
use crate::lexical::{chars_of, find_between, first_of, float_between, float_literal, trim, trim_back, trim_bounds, trim_front};
use crate::text::{has_prefix, same_text, starts_with};

verus! {

/// What `char::is_numeric` returns for `c`: whether its Unicode general
/// category is one of those for numbers (`Nd`, `Nl`, `No`).
pub uninterp spec fn numeric_char(c: char) -> bool;

/// What `char::is_alphabetic` returns for `c` (the Unicode `Alphabetic`
/// property).
pub uninterp spec fn alphabetic_char(c: char) -> bool;

/// An ASCII letter.
pub open spec fn ascii_letter(c: char) -> bool {
    ('a' <= c <= 'z') || ('A' <= c <= 'Z')
}

/// Whether `c` is numeric: among ASCII characters the digits alone, beyond
/// ASCII what `char::is_numeric` says.
pub open spec fn numeric(c: char) -> bool {
    if (c as u32) < 128 {
        '0' <= c <= '9'
    } else {
        numeric_char(c)
    }
}

/// Whether `c` is alphabetic: among ASCII characters the letters alone,
/// beyond ASCII what `char::is_alphabetic` says.
pub open spec fn alphabetic(c: char) -> bool {
    if (c as u32) < 128 {
        ascii_letter(c)
    } else {
        alphabetic_char(c)
    }
}

/// `char::is_numeric`. Its result is taken to be `numeric_char(c)`, a fixed
/// function of `c`; of the ASCII characters the digits are numeric and no
/// other (letters, punctuation, space and controls are in none of the number
/// categories). Which characters beyond ASCII are numeric is not stated.
#[verifier::external_body]
fn is_numeric(c: char) -> (r: bool)
    ensures
        r == numeric_char(c),
        (c as u32) < 128 ==> (r <==> '0' <= c <= '9'),
{
    c.is_numeric()
}

/// `char::is_alphabetic`. Its result is taken to be `alphabetic_char(c)`, a
/// fixed function of `c`; of the ASCII characters the letters are
/// alphabetic and no other (digits, punctuation, space and controls lack the
/// property). Which characters beyond ASCII are alphabetic is not stated.
#[verifier::external_body]
fn is_alphabetic(c: char) -> (r: bool)
    ensures
        r == alphabetic_char(c),
        (c as u32) < 128 ==> (r <==> ascii_letter(c)),
{
    c.is_alphabetic()
}

/// The SI letters a number may end in.
#[derive(Debug, Clone, Copy, PartialEq, Eq, Structural)]
pub enum SiUnit {
    One,
    Pico,
    Nano,
    Micro,
    Milli,
    Kilo,
    Mega,
    Giga,
}

/// The arithmetic operators, `^` being the power.
#[derive(Debug, Clone, Copy, PartialEq, Eq, Structural)]
pub enum ArithOp {
    Add,
    Sub,
    Mul,
    Div,
    Pow,
}

/// The functions a source expression may call.
#[derive(Debug, Clone, Copy, PartialEq, Eq, Structural)]
pub enum MathFn {
    Sin,
    Cos,
    Tan,
    Exp,
    Sqrt,
    Abs,
    Log,
    Log10,
}

/// The comparisons of a condition.
#[derive(Debug, Clone, Copy, PartialEq, Eq, Structural)]
pub enum CmpOp {
    Eq,
    Ne,
    Ge,
    Le,
    Gt,
    Lt,
}

/// A source expression; a comparison stands only as the condition of a
/// choice.
#[derive(Debug, PartialEq)]
pub enum SourceExpr {
    /// A number as written, and its unit letter.
    Literal { digits: String, unit: SiUnit },
    /// The time.
    Time,
    Arith { op: ArithOp, left: Box<SourceExpr>, right: Box<SourceExpr> },
    Call { func: MathFn, arg: Box<SourceExpr> },
    Compare { op: CmpOp, left: Box<SourceExpr>, right: Box<SourceExpr> },
    /// `then_val` where `cond` holds, else `else_val`.
    Choose { cond: Box<SourceExpr>, then_val: Box<SourceExpr>, else_val: Box<SourceExpr> },
}

/// The mathematical value of a `SourceExpr`.
pub enum SourceTree {
    Literal(Seq<char>, SiUnit),
    Time,
    Arith(ArithOp, Box<SourceTree>, Box<SourceTree>),
    Call(MathFn, Box<SourceTree>),
    Compare(CmpOp, Box<SourceTree>, Box<SourceTree>),
    Choose(Box<SourceTree>, Box<SourceTree>, Box<SourceTree>),
}

impl SourceExpr {
    /// The tree this expression stands for.
    pub open spec fn tree(&self) -> SourceTree
        decreases self,
    {
        match self {
            SourceExpr::Literal { digits, unit } => SourceTree::Literal(digits@, *unit),
            SourceExpr::Time => SourceTree::Time,
            SourceExpr::Arith { op, left, right } => SourceTree::Arith(
                *op,
                Box::new(left.tree()),
                Box::new(right.tree()),
            ),
            SourceExpr::Call { func, arg } => SourceTree::Call(*func, Box::new(arg.tree())),
            SourceExpr::Compare { op, left, right } => SourceTree::Compare(
                *op,
                Box::new(left.tree()),
                Box::new(right.tree()),
            ),
            SourceExpr::Choose { cond, then_val, else_val } => SourceTree::Choose(
                Box::new(cond.tree()),
                Box::new(then_val.tree()),
                Box::new(else_val.tree()),
            ),
        }
    }
}

/// The tree of a reading's result; the error text as it is.
pub open spec fn result_tree(r: Result<SourceExpr, String>) -> Result<SourceTree, Seq<char>> {
    match r {
        Ok(e) => Ok(e.tree()),
        Err(m) => Err(m@),
    }
}

/// The unit written `s` (empty for none).
pub open spec fn unit_of(s: Seq<char>) -> Option<SiUnit> {
    if s.len() == 0 {
        Some(SiUnit::One)
    } else if s.len() != 1 {
        None
    } else if s[0] == 'p' {
        Some(SiUnit::Pico)
    } else if s[0] == 'n' {
        Some(SiUnit::Nano)
    } else if s[0] == 'u' || s[0] == 'µ' {
        Some(SiUnit::Micro)
    } else if s[0] == 'm' {
        Some(SiUnit::Milli)
    } else if s[0] == 'k' {
        Some(SiUnit::Kilo)
    } else if s[0] == 'M' {
        Some(SiUnit::Mega)
    } else if s[0] == 'G' {
        Some(SiUnit::Giga)
    } else {
        None
    }
}

/// A character that may stand in the numeric part of a number.
pub open spec fn number_char(c: char) -> bool {
    numeric(c) || c == '.' || c == '-' || c == '+' || c == 'e' || c == 'E'
}

/// The index of the first character of `s` at or after `k` that cannot
/// stand in a number, or `s.len()`.
pub open spec fn unit_start(s: Seq<char>, k: int) -> int
    decreases s.len() - k,
{
    if k < 0 || k >= s.len() {
        s.len() as int
    } else if !number_char(s[k]) {
        k
    } else {
        unit_start(s, k + 1)
    }
}

/// A number with an optional unit letter: its numeric text (a float as
/// `f64` reads it) and its unit.
pub open spec fn number_of(s: Seq<char>) -> Option<(Seq<char>, SiUnit)> {
    let t = trim(s);
    let u = unit_start(t, 0);
    let num = trim(t.subrange(0, u));
    let unit = trim(t.subrange(u, t.len() as int));
    if t.len() == 0 || num.len() == 0 || !float_literal(num) {
        None
    } else {
        match unit_of(unit) {
            Some(x) => Some((num, x)),
            None => None,
        }
    }
}

/// The digits of `pi` as `f64` prints it.
pub open spec fn pi_text() -> Seq<char> {
    seq!['3', '.', '1', '4', '1', '5', '9', '2', '6', '5', '3', '5', '8', '9', '7', '9', '3']
}

/// `s` with every `pi`, from the left, replaced by the digits of `pi`.
pub open spec fn replace_pi(s: Seq<char>) -> Seq<char>
    decreases s.len(),
{
    if s.len() < 2 {
        s
    } else if s[0] == 'p' && s[1] == 'i' {
        pi_text() + replace_pi(s.subrange(2, s.len() as int))
    } else {
        seq![s[0]] + replace_pi(s.subrange(1, s.len() as int))
    }
}

/// `s` holds no `pi`.
pub open spec fn no_pi(s: Seq<char>) -> bool {
    forall|i: int| 0 <= i < s.len() - 1 ==> !(#[trigger] s[i] == 'p' && s[i + 1] == 'i')
}

/// How many of the first `k` characters of `s` are `c`.
pub open spec fn count_to(s: Seq<char>, k: int, c: char) -> nat
    decreases k,
{
    if k <= 0 || k > s.len() {
        0
    } else {
        count_to(s, k - 1, c) + if s[k - 1] == c {
            1nat
        } else {
            0nat
        }
    }
}

/// Before index `k` of `s`, as many `(` as `)`.
pub open spec fn balanced_to(s: Seq<char>, k: int) -> bool {
    count_to(s, k, '(') == count_to(s, k, ')')
}

/// The first index at or after `k` outside parentheses holding `+`, or `-`
/// not at the start; `s.len()` if there is none.
pub open spec fn add_split(s: Seq<char>, k: int) -> int
    decreases s.len() - k,
{
    if k < 0 || k >= s.len() {
        s.len() as int
    } else if balanced_to(s, k) && (s[k] == '+' || (s[k] == '-' && k > 0)) {
        k
    } else {
        add_split(s, k + 1)
    }
}

/// The first index at or after `k` outside parentheses holding `*`, `/` or
/// `^`; `s.len()` if there is none.
pub open spec fn mul_split(s: Seq<char>, k: int) -> int
    decreases s.len() - k,
{
    if k < 0 || k >= s.len() {
        s.len() as int
    } else if balanced_to(s, k) && (s[k] == '*' || s[k] == '/' || s[k] == '^') {
        k
    } else {
        mul_split(s, k + 1)
    }
}

/// The index of the last `c` in the first `k` characters of `s`, or `-1`.
pub open spec fn last_of(s: Seq<char>, k: int, c: char) -> int
    decreases k,
{
    if k <= 0 || k > s.len() {
        -1
    } else if s[k - 1] == c {
        k - 1
    } else {
        last_of(s, k - 1, c)
    }
}

/// A function name: letters and underscores, at least one.
pub open spec fn name_like(s: Seq<char>) -> bool {
    s.len() > 0 && forall|i: int| 0 <= i < s.len() ==> alphabetic(#[trigger] s[i]) || s[i] == '_'
}

/// The function called `s`.
pub open spec fn math_fn_of(s: Seq<char>) -> Option<MathFn> {
    if s == "sin"@ {
        Some(MathFn::Sin)
    } else if s == "cos"@ {
        Some(MathFn::Cos)
    } else if s == "tan"@ {
        Some(MathFn::Tan)
    } else if s == "exp"@ {
        Some(MathFn::Exp)
    } else if s == "sqrt"@ {
        Some(MathFn::Sqrt)
    } else if s == "abs"@ {
        Some(MathFn::Abs)
    } else if s == "log"@ {
        Some(MathFn::Log)
    } else if s == "log10"@ {
        Some(MathFn::Log10)
    } else {
        None
    }
}

/// The measure by which the reading of an expression ends: the length of
/// the trimmed text once `pi` is written out.
pub open spec fn weight(s: Seq<char>) -> nat {
    replace_pi(trim(s)).len()
}

proof fn lemma_no_pi_sub(s: Seq<char>, a: int, b: int)
    requires
        no_pi(s),
        0 <= a <= b <= s.len(),
    ensures
        no_pi(s.subrange(a, b)),
{
    let t = s.subrange(a, b);
    assert forall|i: int| 0 <= i < t.len() - 1 implies !(#[trigger] t[i] == 'p' && t[i + 1] == 'i') by {
        assert(t[i] == s[a + i] && t[i + 1] == s[a + i + 1]);
    }
}

proof fn lemma_replace_no_pi(s: Seq<char>)
    requires
        no_pi(s),
    ensures
        replace_pi(s) == s,
    decreases s.len(),
{
    if s.len() >= 2 {
        lemma_no_pi_sub(s, 1, s.len() as int);
        lemma_replace_no_pi(s.subrange(1, s.len() as int));
        assert(seq![s[0]] + s.subrange(1, s.len() as int) =~= s);
    }
}

proof fn lemma_replace_gives_no_pi(s: Seq<char>)
    ensures
        no_pi(replace_pi(s)),
    decreases s.len(),
{
    if s.len() >= 2 {
        if s[0] == 'p' && s[1] == 'i' {
            let rest = s.subrange(2, s.len() as int);
            lemma_replace_gives_no_pi(rest);
            let r = replace_pi(rest);
            let w = pi_text() + r;
            assert forall|i: int| 0 <= i < w.len() - 1 implies !(#[trigger] w[i] == 'p' && w[i + 1] == 'i') by {
                if i >= 17 {
                    assert(w[i] == r[i - 17] && w[i + 1] == r[i - 16]);
                }
            }
        } else {
            let rest = s.subrange(1, s.len() as int);
            lemma_replace_gives_no_pi(rest);
            let r = replace_pi(rest);
            let w = seq![s[0]] + r;
            if rest.len() >= 2 {
                assert(r.len() > 0);
            }
            assert forall|i: int| 0 <= i < w.len() - 1 implies !(#[trigger] w[i] == 'p' && w[i + 1] == 'i') by {
                if i >= 1 {
                    assert(w[i] == r[i - 1] && w[i + 1] == r[i]);
                } else {
                    assert(w[1] == r[0]);
                }
            }
        }
    }
}

proof fn lemma_trim_no_pi(s: Seq<char>)
    requires
        no_pi(s),
    ensures
        no_pi(trim(s)),
        trim(s).len() <= s.len(),
{
    lemma_trim_front_no_pi(s);
    lemma_trim_back_no_pi(trim_front(s));
}

proof fn lemma_trim_front_no_pi(s: Seq<char>)
    requires
        no_pi(s),
    ensures
        no_pi(trim_front(s)),
        trim_front(s).len() <= s.len(),
    decreases s.len(),
{
    if s.len() > 0 && crate::lexical::is_space(s[0]) {
        lemma_no_pi_sub(s, 1, s.len() as int);
        assert(s.drop_first() =~= s.subrange(1, s.len() as int));
        lemma_trim_front_no_pi(s.drop_first());
    }
}

proof fn lemma_trim_back_no_pi(s: Seq<char>)
    requires
        no_pi(s),
    ensures
        no_pi(trim_back(s)),
        trim_back(s).len() <= s.len(),
    decreases s.len(),
{
    if s.len() > 0 && crate::lexical::is_space(s.last()) {
        lemma_no_pi_sub(s, 0, s.len() - 1);
        assert(s.drop_last() =~= s.subrange(0, s.len() - 1));
        lemma_trim_back_no_pi(s.drop_last());
    }
}

/// A piece `a..b` of the text with `pi` written out, shorter than it,
/// weighs less than the text.
pub proof fn lemma_piece_lighter(s: Seq<char>, a: int, b: int)
    requires
        0 <= a <= b <= replace_pi(trim(s)).len(),
        b - a < replace_pi(trim(s)).len(),
    ensures
        weight(trim(replace_pi(trim(s)).subrange(a, b))) < weight(s),
{
    let w = replace_pi(trim(s));
    lemma_replace_gives_no_pi(trim(s));
    lemma_no_pi_sub(w, a, b);
    let x = trim(w.subrange(a, b));
    lemma_trim_no_pi(w.subrange(a, b));
    lemma_trim_no_pi(x);
    lemma_replace_no_pi(trim(x));
}

/// The split points found from `k` lie in `k..=s.len()`.
pub proof fn lemma_split_bounds(s: Seq<char>, k: int)
    requires
        0 <= k <= s.len(),
    ensures
        k <= add_split(s, k) <= s.len(),
        k <= mul_split(s, k) <= s.len(),
        k <= first_of(s, k, '(', '(') <= s.len(),
    decreases s.len() - k,
{
    if k < s.len() {
        lemma_split_bounds(s, k + 1);
    }
}

/// The last `c` before `k` is before `k`, and is a `c`.
pub proof fn lemma_last_bounds(s: Seq<char>, k: int, c: char)
    ensures
        -1 <= last_of(s, k, c),
        k >= 0 ==> last_of(s, k, c) < k,
        last_of(s, k, c) >= 0 ==> s[last_of(s, k, c)] == c,
    decreases k,
{
    if 0 < k <= s.len() {
        lemma_last_bounds(s, k - 1, c);
    }
}

/// The piece `a..b` of `w`, trimmed.
pub open spec fn piece(w: Seq<char>, a: int, b: int) -> Seq<char> {
    trim(w.subrange(a, b))
}

/// How an expression without a condition reads.
#[verifier::opaque]
pub open spec fn simple_of(s: Seq<char>) -> Result<SourceTree, Seq<char>>
    decreases weight(s),
{
    let t = trim(s);
    let w = replace_pi(t);
    let n = w.len() as int;
    let a = add_split(w, 0);
    let m = mul_split(w, 0);
    let p = first_of(w, 0, '(', '(');
    let q = last_of(w, n, ')');
    let name = trim(w.subrange(0, p));
    proof {
        lemma_split_bounds(w, 0);
        lemma_last_bounds(w, n, ')');
    }
    if let Some((digits, unit)) = number_of(t) {
        Ok(SourceTree::Literal(digits, unit))
    } else if t == "t"@ {
        Ok(SourceTree::Time)
    } else if a < n {
        proof {
            lemma_piece_lighter(s, 0, a);
            lemma_piece_lighter(s, a + 1, n);
        }
        match simple_of(piece(w, 0, a)) {
            Err(e) => Err(e),
            Ok(l) => match simple_of(piece(w, a + 1, n)) {
                Err(e) => Err(e),
                Ok(r) => Ok(
                    SourceTree::Arith(
                        if w[a] == '+' {
                            ArithOp::Add
                        } else {
                            ArithOp::Sub
                        },
                        Box::new(l),
                        Box::new(r),
                    ),
                ),
            },
        }
    } else if m < n {
        proof {
            lemma_piece_lighter(s, 0, m);
            lemma_piece_lighter(s, m + 1, n);
        }
        match simple_of(piece(w, 0, m)) {
            Err(e) => Err(e),
            Ok(l) => match simple_of(piece(w, m + 1, n)) {
                Err(e) => Err(e),
                Ok(r) => Ok(
                    SourceTree::Arith(
                        if w[m] == '*' {
                            ArithOp::Mul
                        } else if w[m] == '/' {
                            ArithOp::Div
                        } else {
                            ArithOp::Pow
                        },
                        Box::new(l),
                        Box::new(r),
                    ),
                ),
            },
        }
    } else if p < n && name_like(name) && p < q && {
        proof {
            lemma_piece_lighter(s, p + 1, q);
        }
        simple_of(piece(w, p + 1, q)) is Ok
    } {
        proof {
            lemma_piece_lighter(s, p + 1, q);
        }
        match math_fn_of(name) {
            Some(f) => Ok(SourceTree::Call(f, Box::new(simple_of(piece(w, p + 1, q))->Ok_0))),
            None => Err("Unknown function: "@ + name),
        }
    } else {
        Err("Cannot parse expression: '"@ + w + "'"@)
    }
}

/// The first index at or after `from` where `p` occurs in `s`, or `s.len()`.
pub open spec fn find_text(s: Seq<char>, p: Seq<char>, from: int) -> int
    decreases s.len() - from,
{
    if from < 0 || from >= s.len() || from + p.len() > s.len() {
        s.len() as int
    } else if s.subrange(from, from + p.len()) == p {
        from
    } else {
        find_text(s, p, from + 1)
    }
}

/// The last index below `k` where `p` occurs in `s`, or `-1`.
pub open spec fn rfind_text(s: Seq<char>, p: Seq<char>, k: int) -> int
    decreases k,
{
    if k <= 0 {
        -1
    } else if k - 1 + p.len() <= s.len() && s.subrange(k - 1, k - 1 + p.len()) == p {
        k - 1
    } else {
        rfind_text(s, p, k - 1)
    }
}

/// The comparison `op` of the two sides of `s` around index `pos` (the
/// operator being `width` characters long).
#[verifier::opaque]
pub open spec fn compare_at(s: Seq<char>, pos: int, width: int, op: CmpOp) -> Result<SourceTree, Seq<char>> {
    match simple_of(trim(s.subrange(0, pos))) {
        Err(e) => Err(e),
        Ok(l) => match simple_of(trim(s.subrange(pos + width, s.len() as int))) {
            Err(e) => Err(e),
            Ok(r) => Ok(SourceTree::Compare(op, Box::new(l), Box::new(r))),
        },
    }
}

/// How a condition reads: at the first `==`, else the first `!=`, `>=`,
/// `<=`, `>`, `<`, in that order.
pub open spec fn comparison_of(s: Seq<char>) -> Result<SourceTree, Seq<char>> {
    let n = s.len() as int;
    if find_text(s, "=="@, 0) < n {
        compare_at(s, find_text(s, "=="@, 0), 2, CmpOp::Eq)
    } else if find_text(s, "!="@, 0) < n {
        compare_at(s, find_text(s, "!="@, 0), 2, CmpOp::Ne)
    } else if find_text(s, ">="@, 0) < n {
        compare_at(s, find_text(s, ">="@, 0), 2, CmpOp::Ge)
    } else if find_text(s, "<="@, 0) < n {
        compare_at(s, find_text(s, "<="@, 0), 2, CmpOp::Le)
    } else if first_of(s, 0, '>', '>') < n {
        compare_at(s, first_of(s, 0, '>', '>'), 1, CmpOp::Gt)
    } else if first_of(s, 0, '<', '<') < n {
        compare_at(s, first_of(s, 0, '<', '<'), 1, CmpOp::Lt)
    } else {
        Err("No comparison operator found"@)
    }
}

/// How comparison `op` is written.
pub open spec fn comparison_text(op: CmpOp) -> Seq<char> {
    match op {
        CmpOp::Eq => seq!['=', '='],
        CmpOp::Ne => seq!['!', '='],
        CmpOp::Ge => seq!['>', '='],
        CmpOp::Le => seq!['<', '='],
        CmpOp::Gt => seq!['>'],
        CmpOp::Lt => seq!['<'],
    }
}

proof fn lemma_find_text_hit(s: Seq<char>, p: Seq<char>, from: int)
    requires
        0 <= from,
        find_text(s, p, from) < s.len(),
    ensures
        from <= find_text(s, p, from),
        find_text(s, p, from) + p.len() <= s.len(),
        s.subrange(find_text(s, p, from), find_text(s, p, from) + p.len()) == p,
    decreases s.len() - from,
{
    if from < s.len() && from + p.len() <= s.len() && s.subrange(from, from + p.len()) != p {
        lemma_find_text_hit(s, p, from + 1);
    }
}

proof fn lemma_first_of_hit(s: Seq<char>, from: int, c: char)
    requires
        0 <= from,
        first_of(s, from, c, c) < s.len(),
    ensures
        from <= first_of(s, from, c, c),
        s[first_of(s, from, c, c)] == c,
    decreases s.len() - from,
{
    if from < s.len() && s[from] != c {
        lemma_first_of_hit(s, from + 1, c);
    }
}

/// A condition that reads reads as a comparison whose operator is written
/// in the text at some place, the text before that place read as its left
/// side and the text after it as its right side.
pub proof fn lemma_comparison_as_written(s: Seq<char>)
    ensures
        comparison_of(s) matches Ok(t) ==> (t matches SourceTree::Compare(op, l, r) && exists|pos: int|
            0 <= pos && pos + comparison_text(op).len() <= s.len() && #[trigger] s.subrange(
                pos,
                pos + comparison_text(op).len(),
            ) == comparison_text(op) && simple_of(trim(s.subrange(0, pos))) == Ok::<SourceTree, Seq<char>>(*l) && simple_of(
                trim(s.subrange(pos + comparison_text(op).len(), s.len() as int)),
            ) == Ok::<SourceTree, Seq<char>>(*r)),
{
    reveal(compare_at);
    reveal_strlit("==");
    reveal_strlit("!=");
    reveal_strlit(">=");
    reveal_strlit("<=");
    assert("=="@ =~= comparison_text(CmpOp::Eq));
    assert("!="@ =~= comparison_text(CmpOp::Ne));
    assert(">="@ =~= comparison_text(CmpOp::Ge));
    assert("<="@ =~= comparison_text(CmpOp::Le));
    let n = s.len() as int;
    if comparison_of(s) is Ok {
        let pos = if find_text(s, "=="@, 0) < n {
            lemma_find_text_hit(s, "=="@, 0);
            find_text(s, "=="@, 0)
        } else if find_text(s, "!="@, 0) < n {
            lemma_find_text_hit(s, "!="@, 0);
            find_text(s, "!="@, 0)
        } else if find_text(s, ">="@, 0) < n {
            lemma_find_text_hit(s, ">="@, 0);
            find_text(s, ">="@, 0)
        } else if find_text(s, "<="@, 0) < n {
            lemma_find_text_hit(s, "<="@, 0);
            find_text(s, "<="@, 0)
        } else if first_of(s, 0, '>', '>') < n {
            lemma_first_of_hit(s, 0, '>');
            assert(s.subrange(first_of(s, 0, '>', '>'), first_of(s, 0, '>', '>') + 1) =~= seq!['>']);
            first_of(s, 0, '>', '>')
        } else {
            lemma_first_of_hit(s, 0, '<');
            assert(s.subrange(first_of(s, 0, '<', '<'), first_of(s, 0, '<', '<') + 1) =~= seq!['<']);
            first_of(s, 0, '<', '<')
        };
        let t = comparison_of(s)->Ok_0;
        let op = t->Compare_0;
        assert(s.subrange(pos, pos + comparison_text(op).len()) == comparison_text(op));
    }
}

/// `cond ? a : b`, split at the first `?` and the first `:` after it; `None`
/// when `s` is not of that form or a part does not read.
pub open spec fn ternary_of(s: Seq<char>) -> Option<SourceTree> {
    let n = s.len() as int;
    let q = first_of(s, 0, '?', '?');
    let c = first_of(s, q, ':', ':');
    if q >= n || c >= n {
        None
    } else {
        match (
            comparison_of(trim(s.subrange(0, q))),
            simple_of(trim(s.subrange(q + 1, c))),
            simple_of(trim(s.subrange(c + 1, n))),
        ) {
            (Ok(a), Ok(b), Ok(d)) => Some(SourceTree::Choose(Box::new(a), Box::new(b), Box::new(d))),
            _ => None,
        }
    }
}

/// `if cond then a else b`, split at the first ` then ` and the last
/// ` else ` after it.
pub open spec fn if_then_else_of(s: Seq<char>) -> Result<SourceTree, Seq<char>> {
    let rest = s.subrange(3, s.len() as int);
    let tp = find_text(rest, " then "@, 0);
    let after = rest.subrange(tp + 6, rest.len() as int);
    let ep = rfind_text(after, " else "@, after.len() as int);
    if !starts_with(s, "if "@) {
        Err("Expected 'if'"@)
    } else if tp >= rest.len() {
        Err("Missing 'then' in if statement"@)
    } else if ep < 0 {
        Err("Missing 'else' in if statement"@)
    } else {
        match comparison_of(trim(rest.subrange(0, tp))) {
            Err(e) => Err(e),
            Ok(c) => match simple_of(trim(after.subrange(0, ep))) {
                Err(e) => Err(e),
                Ok(a) => match simple_of(trim(after.subrange(ep + 6, after.len() as int))) {
                    Err(e) => Err(e),
                    Ok(b) => Ok(SourceTree::Choose(Box::new(c), Box::new(a), Box::new(b))),
                },
            },
        }
    }
}

/// How the time function of a functional source reads: as `c ? a : b` if
/// it can, else as `if c then a else b` when it starts with `if `, else as
/// an expression without a condition.
pub open spec fn source_expr_of(input: Seq<char>) -> Result<SourceTree, Seq<char>> {
    let t = trim(input);
    match ternary_of(t) {
        Some(x) => Ok(x),
        None => if starts_with(t, "if "@) {
            if_then_else_of(t)
        } else {
            simple_of(t)
        },
    }
}

fn unit_between(v: &Vec<char>, a: usize, b: usize) -> (r: Option<SiUnit>)
    requires
        a <= b <= v@.len(),
    ensures
        r == unit_of(v@.subrange(a as int, b as int)),
{
    if a == b {
        return Some(SiUnit::One);
    }
    if b - a != 1 {
        return None;
    }
    let c = v[a];
    assert(v@.subrange(a as int, b as int)[0] == c);
    if c == 'p' {
        Some(SiUnit::Pico)
    } else if c == 'n' {
        Some(SiUnit::Nano)
    } else if c == 'u' || c == 'µ' {
        Some(SiUnit::Micro)
    } else if c == 'm' {
        Some(SiUnit::Milli)
    } else if c == 'k' {
        Some(SiUnit::Kilo)
    } else if c == 'M' {
        Some(SiUnit::Mega)
    } else if c == 'G' {
        Some(SiUnit::Giga)
    } else {
        None
    }
}

/// Reads a number with an optional unit letter: its numeric text and its
/// unit.
pub fn parse_number(s: &str) -> (r: Option<(String, SiUnit)>)
    ensures
        match r {
            Some((d, u)) => number_of(s@) == Some((d@, u)),
            None => number_of(s@) is None,
        },
{
    let v = chars_of(s);
    assert(v@.subrange(0, v@.len() as int) =~= v@);
    let (a, b) = trim_bounds(&v, 0, v.len());
    let ghost t = v@.subrange(a as int, b as int);
    if a == b {
        return None;
    }
    let mut u = a;
    while u < b && (is_numeric(v[u]) || v[u] == '.' || v[u] == '-' || v[u] == '+' || v[u] == 'e' || v[u]
        == 'E')
        invariant
            a <= u <= b <= v@.len(),
            t == v@.subrange(a as int, b as int),
            unit_start(t, 0) == unit_start(t, u - a),
        decreases b - u,
    {
        assert(t[u - a] == v@[u as int]);
        u = u + 1;
    }
    if u < b {
        assert(t[u - a] == v@[u as int]);
    }
    assert(unit_start(t, 0) == u - a);
    let (na, nb) = trim_bounds(&v, a, u);
    let (ua, ub) = trim_bounds(&v, u, b);
    assert(t.subrange(0, u - a) =~= v@.subrange(a as int, u as int));
    assert(t.subrange(u - a, t.len() as int) =~= v@.subrange(u as int, b as int));
    if na == nb || !float_between(&v, na, nb) {
        return None;
    }
    match unit_between(&v, ua, ub) {
        Some(unit) => Some((s.substring_char(na, nb).to_owned(), unit)),
        None => None,
    }
}

/// `t` with every `pi` written out.
fn replace_pi_in(t: &str) -> (r: String)
    ensures
        r@ == replace_pi(t@),
{
    let v = chars_of(t);
    let n = v.len();
    let mut out = String::new();
    let mut i: usize = 0;
    assert(t@.subrange(0, n as int) =~= t@);
    while i < n
        invariant
            v@ == t@,
            n == t@.len(),
            i <= n,
            replace_pi(t@) == out@ + replace_pi(t@.subrange(i as int, n as int)),
        decreases n - i,
    {
        let ghost x = t@.subrange(i as int, n as int);
        if n - i < 2 {
            out.append(t.substring_char(i, n));
            proof {
                assert(t@.subrange(n as int, n as int) =~= Seq::<char>::empty());
                assert(out@ + Seq::<char>::empty() =~= out@);
            }
            i = n;
        } else if v[i] == 'p' && v[i + 1] == 'i' {
            let ghost before = out@;
            let lit = "3.141592653589793";
            proof {
                reveal_strlit("3.141592653589793");
                assert(lit@ =~= pi_text());
                assert(x[0] == v@[i as int] && x[1] == v@[i + 1]);
                assert(x.subrange(2, x.len() as int) =~= t@.subrange(i + 2, n as int));
            }
            out.append(lit);
            proof {
                assert(before + (pi_text() + replace_pi(t@.subrange(i + 2, n as int))) =~= out@ + replace_pi(
                    t@.subrange(i + 2, n as int),
                ));
            }
            i = i + 2;
        } else {
            let ghost before = out@;
            let one = t.substring_char(i, i + 1);
            proof {
                assert(x[0] == v@[i as int] && x[1] == v@[i + 1]);
                assert(x.subrange(1, x.len() as int) =~= t@.subrange(i + 1, n as int));
                assert(one@ =~= seq![x[0]]);
            }
            out.append(one);
            proof {
                assert(before + (seq![x[0]] + replace_pi(t@.subrange(i + 1, n as int))) =~= out@ + replace_pi(
                    t@.subrange(i + 1, n as int),
                ));
            }
            i = i + 1;
        }
    }
    out
}

/// The first `+` or `-` (not at the start) outside parentheses in `v`.
fn add_split_of(v: &Vec<char>) -> (r: usize)
    ensures
        r == add_split(v@, 0),
{
    let n = v.len();
    let mut i: usize = 0;
    let mut opens: usize = 0;
    let mut closes: usize = 0;
    while i < n
        invariant
            n == v@.len(),
            i <= n,
            opens <= i,
            closes <= i,
            opens == count_to(v@, i as int, '('),
            closes == count_to(v@, i as int, ')'),
            add_split(v@, 0) == add_split(v@, i as int),
        decreases n - i,
    {
        if opens == closes && (v[i] == '+' || (v[i] == '-' && i > 0)) {
            return i;
        }
        if v[i] == '(' {
            opens = opens + 1;
        } else if v[i] == ')' {
            closes = closes + 1;
        }
        i = i + 1;
    }
    n
}

/// The first `*`, `/` or `^` outside parentheses in `v`.
fn mul_split_of(v: &Vec<char>) -> (r: usize)
    ensures
        r == mul_split(v@, 0),
{
    let n = v.len();
    let mut i: usize = 0;
    let mut opens: usize = 0;
    let mut closes: usize = 0;
    while i < n
        invariant
            n == v@.len(),
            i <= n,
            opens <= i,
            closes <= i,
            opens == count_to(v@, i as int, '('),
            closes == count_to(v@, i as int, ')'),
            mul_split(v@, 0) == mul_split(v@, i as int),
        decreases n - i,
    {
        if opens == closes && (v[i] == '*' || v[i] == '/' || v[i] == '^') {
            return i;
        }
        if v[i] == '(' {
            opens = opens + 1;
        } else if v[i] == ')' {
            closes = closes + 1;
        }
        i = i + 1;
    }
    n
}

/// The position just after the last `)` in `v`, or 0 when there is none.
fn after_last_close(v: &Vec<char>) -> (r: usize)
    ensures
        r as int - 1 == last_of(v@, v@.len() as int, ')'),
        r <= v@.len(),
{
    let mut j = v.len();
    while j > 0 && v[j - 1] != ')'
        invariant
            j <= v@.len(),
            last_of(v@, v@.len() as int, ')') == last_of(v@, j as int, ')'),
        decreases j,
    {
        j = j - 1;
    }
    j
}

/// Whether `v[a..b]` is a function name.
fn name_like_between(v: &Vec<char>, a: usize, b: usize) -> (r: bool)
    requires
        a <= b <= v@.len(),
    ensures
        r == name_like(v@.subrange(a as int, b as int)),
{
    let ghost s = v@.subrange(a as int, b as int);
    if a == b {
        return false;
    }
    let mut i = a;
    while i < b
        invariant
            a <= i <= b <= v@.len(),
            s == v@.subrange(a as int, b as int),
            forall|k: int| 0 <= k < i - a ==> alphabetic(#[trigger] s[k]) || s[k] == '_',
        decreases b - i,
    {
        let c = v[i];
        assert(s[i - a] == c);
        if !(is_alphabetic(c) || c == '_') {
            return false;
        }
        i = i + 1;
    }
    true
}

fn math_fn_named(s: &str) -> (r: Option<MathFn>)
    ensures
        r == math_fn_of(s@),
{
    if same_text(s, "sin") {
        Some(MathFn::Sin)
    } else if same_text(s, "cos") {
        Some(MathFn::Cos)
    } else if same_text(s, "tan") {
        Some(MathFn::Tan)
    } else if same_text(s, "exp") {
        Some(MathFn::Exp)
    } else if same_text(s, "sqrt") {
        Some(MathFn::Sqrt)
    } else if same_text(s, "abs") {
        Some(MathFn::Abs)
    } else if same_text(s, "log") {
        Some(MathFn::Log)
    } else if same_text(s, "log10") {
        Some(MathFn::Log10)
    } else {
        None
    }
}

/// `prefix`, then `middle`, then `suffix`.
fn joined_text(prefix: &str, middle: &str, suffix: &str) -> (r: String)
    ensures
        r@ == prefix@ + middle@ + suffix@,
{
    let mut e = String::from_str(prefix);
    e.append(middle);
    e.append(suffix);
    e
}

/// Reads an expression without a condition: a number with an optional unit
/// letter, `t`, a sum or difference split at its first `+` or `-` outside
/// parentheses, else a product, quotient or power split at its first `*`,
/// `/` or `^` outside parentheses, else a call of a known function; `pi`
/// reads as its digits.
pub fn parse_simple(s: &str) -> (r: Result<SourceExpr, String>)
    ensures
        result_tree(r) == simple_of(s@),
    decreases weight(s@),
{
    proof {
        reveal(simple_of);
    }
    let v0 = chars_of(s);
    assert(v0@.subrange(0, v0@.len() as int) =~= v0@);
    let (ta, tb) = trim_bounds(&v0, 0, v0.len());
    let t = s.substring_char(ta, tb);
    assert(t@ == trim(s@));
    match parse_number(t) {
        Some((digits, unit)) => {
            return Ok(SourceExpr::Literal { digits, unit });
        },
        None => {},
    }
    if same_text(t, "t") {
        return Ok(SourceExpr::Time);
    }
    let w = replace_pi_in(t);
    let ws = w.as_str();
    let v = chars_of(ws);
    let n = v.len();
    let ghost wv = v@;
    proof {
        lemma_split_bounds(wv, 0);
        lemma_last_bounds(wv, n as int, ')');
    }
    let a = add_split_of(&v);
    if a < n {
        proof {
            lemma_piece_lighter(s@, 0, a as int);
            lemma_piece_lighter(s@, a + 1, n as int);
        }
        let (la, lb) = trim_bounds(&v, 0, a);
        let (ra, rb) = trim_bounds(&v, a + 1, n);
        let l = match parse_simple(ws.substring_char(la, lb)) {
            Ok(x) => x,
            Err(e) => {
                return Err(e);
            },
        };
        let r = match parse_simple(ws.substring_char(ra, rb)) {
            Ok(x) => x,
            Err(e) => {
                return Err(e);
            },
        };
        let op = if v[a] == '+' {
            ArithOp::Add
        } else {
            ArithOp::Sub
        };
        return Ok(SourceExpr::Arith { op, left: Box::new(l), right: Box::new(r) });
    }
    let m = mul_split_of(&v);
    if m < n {
        proof {
            lemma_piece_lighter(s@, 0, m as int);
            lemma_piece_lighter(s@, m + 1, n as int);
        }
        let (la, lb) = trim_bounds(&v, 0, m);
        let (ra, rb) = trim_bounds(&v, m + 1, n);
        let l = match parse_simple(ws.substring_char(la, lb)) {
            Ok(x) => x,
            Err(e) => {
                return Err(e);
            },
        };
        let r = match parse_simple(ws.substring_char(ra, rb)) {
            Ok(x) => x,
            Err(e) => {
                return Err(e);
            },
        };
        let op = if v[m] == '*' {
            ArithOp::Mul
        } else if v[m] == '/' {
            ArithOp::Div
        } else {
            ArithOp::Pow
        };
        return Ok(SourceExpr::Arith { op, left: Box::new(l), right: Box::new(r) });
    }
    let p = find_between(&v, 0, n, '(', '(');
    assert(wv.subrange(0, n as int) =~= wv);
    if p < n {
        let (na, nb) = trim_bounds(&v, 0, p);
        let q1 = after_last_close(&v);
        if name_like_between(&v, na, nb) && p + 1 < q1 {
            let q = q1 - 1;
            proof {
                lemma_piece_lighter(s@, p + 1, q as int);
            }
            let (aa, ab) = trim_bounds(&v, p + 1, q);
            match parse_simple(ws.substring_char(aa, ab)) {
                Ok(x) => {
                    let name = ws.substring_char(na, nb);
                    return match math_fn_named(name) {
                        Some(f) => Ok(SourceExpr::Call { func: f, arg: Box::new(x) }),
                        None => {
                            let mut e = String::from_str("Unknown function: ");
                            e.append(name);
                            Err(e)
                        },
                    };
                },
                Err(_) => {},
            }
        }
    }
    Err(joined_text("Cannot parse expression: '", ws, "'"))
}

fn occurs_at(v: &Vec<char>, p: &Vec<char>, i: usize) -> (r: bool)
    requires
        i + p@.len() <= v@.len(),
    ensures
        r == (v@.subrange(i as int, i + p@.len()) == p@),
{
    let n = v.len();
    let mut k: usize = 0;
    while k < p.len()
        invariant
            n == v@.len(),
            i + p@.len() <= v@.len(),
            k <= p@.len(),
            forall|j: int| 0 <= j < k ==> v@[i + j] == p@[j],
        decreases p@.len() - k,
    {
        if v[i + k] != p[k] {
            assert(v@.subrange(i as int, i + p@.len())[k as int] == v@[i + k]);
            return false;
        }
        k = k + 1;
    }
    assert(v@.subrange(i as int, i + p@.len()) =~= p@);
    true
}

/// The first index of `c` in `v` at or after `from`, or `v.len()`.
fn first_from(v: &Vec<char>, from: usize, c: char) -> (r: usize)
    requires
        from <= v@.len(),
    ensures
        r == first_of(v@, from as int, c, c),
        from <= r <= v@.len(),
        r < v@.len() ==> v@[r as int] == c,
{
    let mut i = from;
    while i < v.len() && v[i] != c
        invariant
            from <= i <= v@.len(),
            first_of(v@, from as int, c, c) == first_of(v@, i as int, c, c),
        decreases v@.len() - i,
    {
        i = i + 1;
    }
    i
}

/// The first index of `p` in `v`, or `v.len()`.
fn find_text_in(v: &Vec<char>, p: &Vec<char>) -> (r: usize)
    ensures
        r == find_text(v@, p@, 0),
        r <= v@.len(),
        r < v@.len() ==> r + p@.len() <= v@.len(),
{
    let n = v.len();
    let mut i: usize = 0;
    while i < n && p.len() <= n - i && !occurs_at(v, p, i)
        invariant
            n == v@.len(),
            i <= n,
            find_text(v@, p@, 0) == find_text(v@, p@, i as int),
        decreases n - i,
    {
        i = i + 1;
    }
    if i < n && p.len() <= n - i {
        i
    } else {
        n
    }
}

/// One past the last index of `p` in `v`, or 0.
fn rfind_text_in(v: &Vec<char>, p: &Vec<char>) -> (r: usize)
    ensures
        r as int - 1 == rfind_text(v@, p@, v@.len() as int),
        r <= v@.len(),
{
    let mut k = v.len();
    while k > 0 && !(p.len() <= v.len() - (k - 1) && occurs_at(v, p, k - 1))
        invariant
            k <= v@.len(),
            rfind_text(v@, p@, v@.len() as int) == rfind_text(v@, p@, k as int),
        decreases k,
    {
        k = k - 1;
    }
    k
}

fn compare_at_exec(s: &str, v: &Vec<char>, pos: usize, width: usize, op: CmpOp) -> (r: Result<SourceExpr, String>)
    requires
        v@ == s@,
        pos + width <= v@.len(),
    ensures
        result_tree(r) == compare_at(s@, pos as int, width as int, op),
{
    proof {
        reveal(compare_at);
    }
    let n = v.len();
    let (la, lb) = trim_bounds(v, 0, pos);
    let (ra, rb) = trim_bounds(v, pos + width, v.len());
    let l = match parse_simple(s.substring_char(la, lb)) {
        Ok(x) => x,
        Err(e) => {
            return Err(e);
        },
    };
    let r = match parse_simple(s.substring_char(ra, rb)) {
        Ok(x) => x,
        Err(e) => {
            return Err(e);
        },
    };
    Ok(SourceExpr::Compare { op, left: Box::new(l), right: Box::new(r) })
}

/// Reads a condition: a comparison split at the first `==`, else the first
/// `!=`, `>=`, `<=`, `>`, `<`.
pub fn parse_comparison(s: &str) -> (r: Result<SourceExpr, String>)
    ensures
        result_tree(r) == comparison_of(s@),
{
    let v = chars_of(s);
    let n = v.len();
    assert(v@.subrange(0, n as int) =~= v@);
    proof {
        reveal_strlit("==");
        reveal_strlit("!=");
        reveal_strlit(">=");
        reveal_strlit("<=");
    }
    let eq = find_text_in(&v, &chars_of("=="));
    if eq < n {
        return compare_at_exec(s, &v, eq, 2, CmpOp::Eq);
    }
    let ne = find_text_in(&v, &chars_of("!="));
    if ne < n {
        return compare_at_exec(s, &v, ne, 2, CmpOp::Ne);
    }
    let ge = find_text_in(&v, &chars_of(">="));
    if ge < n {
        return compare_at_exec(s, &v, ge, 2, CmpOp::Ge);
    }
    let le = find_text_in(&v, &chars_of("<="));
    if le < n {
        return compare_at_exec(s, &v, le, 2, CmpOp::Le);
    }
    let gt = first_from(&v, 0, '>');
    if gt < n {
        return compare_at_exec(s, &v, gt, 1, CmpOp::Gt);
    }
    let lt = first_from(&v, 0, '<');
    if lt < n {
        return compare_at_exec(s, &v, lt, 1, CmpOp::Lt);
    }
    Err(String::from_str("No comparison operator found"))
}

/// Reads `cond ? a : b`; `None` when `s` is not of that form or a part does
/// not read.
pub fn parse_ternary(s: &str) -> (r: Option<SourceExpr>)
    ensures
        match r {
            Some(e) => ternary_of(s@) == Some(e.tree()),
            None => ternary_of(s@) is None,
        },
{
    let v = chars_of(s);
    let n = v.len();
    assert(v@.subrange(0, n as int) =~= v@);
    let q = first_from(&v, 0, '?');
    if q >= n {
        return None;
    }
    let c = first_from(&v, q, ':');
    if c >= n {
        return None;
    }
    let (ca, cb) = trim_bounds(&v, 0, q);
    let (ta, tb) = trim_bounds(&v, q + 1, c);
    let (fa, fb) = trim_bounds(&v, c + 1, n);
    let cond = parse_comparison(s.substring_char(ca, cb));
    let a = parse_simple(s.substring_char(ta, tb));
    let b = parse_simple(s.substring_char(fa, fb));
    match (cond, a, b) {
        (Ok(x), Ok(y), Ok(z)) => Some(SourceExpr::Choose { cond: Box::new(x), then_val: Box::new(y), else_val: Box::new(z) }),
        _ => None,
    }
}

/// Reads `if cond then a else b`, split at the first ` then ` and the last
/// ` else ` after it.
pub fn parse_if_then_else(s: &str) -> (r: Result<SourceExpr, String>)
    ensures
        result_tree(r) == if_then_else_of(s@),
{
    if !has_prefix(s, "if ") {
        return Err(String::from_str("Expected 'if'"));
    }
    proof {
        reveal_strlit("if ");
    }
    let n0 = s.unicode_len();
    let rest = s.substring_char(3, n0);
    let rv = chars_of(rest);
    let rn = rv.len();
    let then_pat = chars_of(" then ");
    proof {
        reveal_strlit(" then ");
        reveal_strlit(" else ");
    }
    let tp = find_text_in(&rv, &then_pat);
    if tp >= rn {
        return Err(String::from_str("Missing 'then' in if statement"));
    }
    proof {
        lemma_find_text_fits(rv@, then_pat@, 0);
    }
    let after = rest.substring_char(tp + 6, rn);
    let av = chars_of(after);
    let an = av.len();
    let ep1 = rfind_text_in(&av, &chars_of(" else "));
    if ep1 == 0 {
        return Err(String::from_str("Missing 'else' in if statement"));
    }
    let ep = ep1 - 1;
    proof {
        lemma_rfind_text_fits(av@, " else "@, an as int);
    }
    let (ca, cb) = trim_bounds(&rv, 0, tp);
    let (ta, tb) = trim_bounds(&av, 0, ep);
    let (fa, fb) = trim_bounds(&av, ep + 6, an);
    let cond = match parse_comparison(rest.substring_char(ca, cb)) {
        Ok(x) => x,
        Err(e) => {
            return Err(e);
        },
    };
    let a = match parse_simple(after.substring_char(ta, tb)) {
        Ok(x) => x,
        Err(e) => {
            return Err(e);
        },
    };
    let b = match parse_simple(after.substring_char(fa, fb)) {
        Ok(x) => x,
        Err(e) => {
            return Err(e);
        },
    };
    Ok(SourceExpr::Choose { cond: Box::new(cond), then_val: Box::new(a), else_val: Box::new(b) })
}

proof fn lemma_find_text_fits(s: Seq<char>, p: Seq<char>, from: int)
    requires
        0 <= from,
        find_text(s, p, from) < s.len(),
    ensures
        find_text(s, p, from) + p.len() <= s.len(),
        from <= find_text(s, p, from),
    decreases s.len() - from,
{
    if from < s.len() && from + p.len() <= s.len() && s.subrange(from, from + p.len()) != p {
        lemma_find_text_fits(s, p, from + 1);
    }
}

proof fn lemma_rfind_text_fits(s: Seq<char>, p: Seq<char>, k: int)
    requires
        rfind_text(s, p, k) >= 0,
    ensures
        rfind_text(s, p, k) + p.len() <= s.len(),
        rfind_text(s, p, k) < k,
    decreases k,
{
    if k > 0 && !(k - 1 + p.len() <= s.len() && s.subrange(k - 1, k - 1 + p.len()) == p) {
        lemma_rfind_text_fits(s, p, k - 1);
    }
}

/// Reads the time function of a functional source: `c ? a : b` if it reads
/// so, else `if c then a else b` when the text starts with `if `, else an
/// expression without a condition.
pub fn parse_source_expr(input: &str) -> (r: Result<SourceExpr, String>)
    ensures
        result_tree(r) == source_expr_of(input@),
{
    let v = chars_of(input);
    assert(v@.subrange(0, v@.len() as int) =~= v@);
    let (a, b) = trim_bounds(&v, 0, v.len());
    let t = input.substring_char(a, b);
    match parse_ternary(t) {
        Some(x) => Ok(x),
        None => if has_prefix(t, "if ") {
            parse_if_then_else(t)
        } else {
            parse_simple(t)
        },
    }
}

} // verus!
