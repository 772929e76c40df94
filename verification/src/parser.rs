//! Reading the keywords and operator symbols of the script language.
use vstd::prelude::*;
use crate::ast::{
    AnalysisKind, BinOpKind, CompCtorType, is_additive, is_comparison, is_multiplicative,
    lemma_op_symbols_distinct, op_symbol,
};
use crate::text::{ends_with, has_suffix, same_text};

verus! {

proof fn lemma_all_op_symbols_distinct()
    ensures
        forall|a: BinOpKind, b: BinOpKind| #[trigger] op_symbol(a) == #[trigger] op_symbol(b) ==> a == b,
{
    assert forall|a: BinOpKind, b: BinOpKind| #[trigger] op_symbol(a) == #[trigger] op_symbol(b) implies a
        == b by {
        lemma_op_symbols_distinct(a, b);
    }
}

/// The comparison operator written `s`, trying `>=`, `<=`, `!=`, `==`, `>`, `<` in turn.
pub open spec fn comp_op_spec(s: Seq<char>) -> Option<BinOpKind> {
    if s == op_symbol(BinOpKind::Ge) {
        Some(BinOpKind::Ge)
    } else if s == op_symbol(BinOpKind::Le) {
        Some(BinOpKind::Le)
    } else if s == op_symbol(BinOpKind::Ne) {
        Some(BinOpKind::Ne)
    } else if s == op_symbol(BinOpKind::Eq) {
        Some(BinOpKind::Eq)
    } else if s == op_symbol(BinOpKind::Gt) {
        Some(BinOpKind::Gt)
    } else if s == op_symbol(BinOpKind::Lt) {
        Some(BinOpKind::Lt)
    } else {
        None
    }
}

/// The additive operator written `s`.
pub open spec fn add_op_spec(s: Seq<char>) -> Option<BinOpKind> {
    if s == op_symbol(BinOpKind::Add) {
        Some(BinOpKind::Add)
    } else if s == op_symbol(BinOpKind::Sub) {
        Some(BinOpKind::Sub)
    } else {
        None
    }
}

/// The multiplicative operator written `s`.
pub open spec fn mul_op_spec(s: Seq<char>) -> Option<BinOpKind> {
    if s == op_symbol(BinOpKind::Mul) {
        Some(BinOpKind::Mul)
    } else if s == op_symbol(BinOpKind::Div) {
        Some(BinOpKind::Div)
    } else {
        None
    }
}

/// Reading the symbol of an operator in its precedence class gives the
/// operator back, and no other class reads it.
pub proof fn lemma_op_symbols_read_back(op: BinOpKind)
    ensures
        comp_op_spec(op_symbol(op)) == (if is_comparison(op) {
            Some(op)
        } else {
            None
        }),
        add_op_spec(op_symbol(op)) == (if is_additive(op) {
            Some(op)
        } else {
            None
        }),
        mul_op_spec(op_symbol(op)) == (if is_multiplicative(op) {
            Some(op)
        } else {
            None
        }),
{
    lemma_all_op_symbols_distinct();
}

/// The language has no modulo: `%` reads as no operator of any class.
pub proof fn lemma_no_modulo()
    ensures
        comp_op_spec("%"@) is None,
        add_op_spec("%"@) is None,
        mul_op_spec("%"@) is None,
{
    reveal_strlit("%");
    reveal_strlit("+");
    reveal_strlit("-");
    reveal_strlit("*");
    reveal_strlit("/");
    reveal_strlit(">");
    reveal_strlit("<");
    reveal_strlit(">=");
    reveal_strlit("<=");
    reveal_strlit("==");
    reveal_strlit("!=");
    assert("%"@[0] != ">"@[0] && "%"@[0] != "<"@[0] && "%"@[0] != "+"@[0] && "%"@[0] != "-"@[0]);
    assert("%"@[0] != "*"@[0] && "%"@[0] != "/"@[0]);
    assert("%"@.len() != ">="@.len() && "%"@.len() != "<="@.len());
    assert("%"@.len() != "=="@.len() && "%"@.len() != "!="@.len());
}

/// Reads a comparison operator: `>=`, `<=`, `!=`, `==`, `>` or `<`.
pub fn parse_comp_op(s: &str) -> (r: Option<BinOpKind>)
    ensures
        r == comp_op_spec(s@),
{
    if same_text(s, ">=") {
        Some(BinOpKind::Ge)
    } else if same_text(s, "<=") {
        Some(BinOpKind::Le)
    } else if same_text(s, "!=") {
        Some(BinOpKind::Ne)
    } else if same_text(s, "==") {
        Some(BinOpKind::Eq)
    } else if same_text(s, ">") {
        Some(BinOpKind::Gt)
    } else if same_text(s, "<") {
        Some(BinOpKind::Lt)
    } else {
        None
    }
}

/// Reads an additive operator: `+` or `-`.
pub fn parse_add_op(s: &str) -> (r: Option<BinOpKind>)
    ensures
        r == add_op_spec(s@),
{
    if same_text(s, "+") {
        Some(BinOpKind::Add)
    } else if same_text(s, "-") {
        Some(BinOpKind::Sub)
    } else {
        None
    }
}

/// Reads a multiplicative operator: `*` or `/` (the language has no modulo).
pub fn parse_mul_op(s: &str) -> (r: Option<BinOpKind>)
    ensures
        r == mul_op_spec(s@),
{
    if same_text(s, "*") {
        Some(BinOpKind::Mul)
    } else if same_text(s, "/") {
        Some(BinOpKind::Div)
    } else {
        None
    }
}

/// The word that names analysis kind `k` in `analyze.<word>(...)`.
pub open spec fn analysis_keyword(k: AnalysisKind) -> Seq<char> {
    match k {
        AnalysisKind::Transient => "transient"@,
        AnalysisKind::Ac => "ac"@,
        AnalysisKind::Dc => "dc"@,
    }
}

/// Reads the analysis named in an `analyze` statement; other words name none.
pub fn analysis_kind_of(s: &str) -> (r: Option<AnalysisKind>)
    ensures
        forall|k: AnalysisKind| r == Some(k) <==> s@ == #[trigger] analysis_keyword(k),
{
    proof {
        reveal_strlit("transient");
        reveal_strlit("ac");
        reveal_strlit("dc");
        assert("ac"@[0] != "dc"@[0]);
    }
    if same_text(s, "transient") {
        Some(AnalysisKind::Transient)
    } else if same_text(s, "ac") {
        Some(AnalysisKind::Ac)
    } else if same_text(s, "dc") {
        Some(AnalysisKind::Dc)
    } else {
        None
    }
}

/// The constructor name of component type `c`.
pub open spec fn ctor_keyword(c: CompCtorType) -> Seq<char> {
    match c {
        CompCtorType::Resistor => "Resistor"@,
        CompCtorType::Capacitor => "Capacitor"@,
        CompCtorType::Inductor => "Inductor"@,
        CompCtorType::VSource => "VSource"@,
        CompCtorType::ISource => "ISource"@,
        CompCtorType::Diode => "Diode"@,
        CompCtorType::StepSource => "StepSource"@,
        CompCtorType::SineSource => "SineSource"@,
        CompCtorType::VCVS => "VCVS"@,
        CompCtorType::BJT => "BJT"@,
        CompCtorType::MOSFET => "MOSFET"@,
        CompCtorType::FuncVSource => "FuncVSource"@,
    }
}

proof fn lemma_ctor_keywords_distinct()
    ensures
        forall|a: CompCtorType, b: CompCtorType|
            #[trigger] ctor_keyword(a) == #[trigger] ctor_keyword(b) ==> a == b,
{
    reveal_strlit("Resistor");
    reveal_strlit("Capacitor");
    reveal_strlit("Inductor");
    reveal_strlit("VSource");
    reveal_strlit("ISource");
    reveal_strlit("Diode");
    reveal_strlit("StepSource");
    reveal_strlit("SineSource");
    reveal_strlit("VCVS");
    reveal_strlit("BJT");
    reveal_strlit("MOSFET");
    reveal_strlit("FuncVSource");
    assert forall|a: CompCtorType, b: CompCtorType|
        #[trigger] ctor_keyword(a) == #[trigger] ctor_keyword(b) implies a == b by {
        if a != b {
            let ka = ctor_keyword(a);
            let kb = ctor_keyword(b);
            if ka.len() == kb.len() {
                assert(ka[0] != kb[0] || ka[1] != kb[1]);
            }
        }
    }
}

/// The component type whose constructor name is `s`; an unknown name reads as `Resistor`.
pub open spec fn ctor_spec(s: Seq<char>) -> CompCtorType {
    if s == ctor_keyword(CompCtorType::Resistor) {
        CompCtorType::Resistor
    } else if s == ctor_keyword(CompCtorType::Capacitor) {
        CompCtorType::Capacitor
    } else if s == ctor_keyword(CompCtorType::Inductor) {
        CompCtorType::Inductor
    } else if s == ctor_keyword(CompCtorType::VSource) {
        CompCtorType::VSource
    } else if s == ctor_keyword(CompCtorType::ISource) {
        CompCtorType::ISource
    } else if s == ctor_keyword(CompCtorType::Diode) {
        CompCtorType::Diode
    } else if s == ctor_keyword(CompCtorType::StepSource) {
        CompCtorType::StepSource
    } else if s == ctor_keyword(CompCtorType::SineSource) {
        CompCtorType::SineSource
    } else if s == ctor_keyword(CompCtorType::VCVS) {
        CompCtorType::VCVS
    } else if s == ctor_keyword(CompCtorType::BJT) {
        CompCtorType::BJT
    } else if s == ctor_keyword(CompCtorType::MOSFET) {
        CompCtorType::MOSFET
    } else if s == ctor_keyword(CompCtorType::FuncVSource) {
        CompCtorType::FuncVSource
    } else {
        CompCtorType::Resistor
    }
}

/// Reading the constructor name of a component type gives that type back.
pub proof fn lemma_ctor_read_back(c: CompCtorType)
    ensures
        ctor_spec(ctor_keyword(c)) == c,
{
    lemma_ctor_keywords_distinct();
}

/// Reads a component constructor name; an unknown name reads as `Resistor`.
pub fn component_ctor_of(s: &str) -> (r: CompCtorType)
    ensures
        r == ctor_spec(s@),
{
    if same_text(s, "Resistor") {
        CompCtorType::Resistor
    } else if same_text(s, "Capacitor") {
        CompCtorType::Capacitor
    } else if same_text(s, "Inductor") {
        CompCtorType::Inductor
    } else if same_text(s, "VSource") {
        CompCtorType::VSource
    } else if same_text(s, "ISource") {
        CompCtorType::ISource
    } else if same_text(s, "Diode") {
        CompCtorType::Diode
    } else if same_text(s, "StepSource") {
        CompCtorType::StepSource
    } else if same_text(s, "SineSource") {
        CompCtorType::SineSource
    } else if same_text(s, "VCVS") {
        CompCtorType::VCVS
    } else if same_text(s, "BJT") {
        CompCtorType::BJT
    } else if same_text(s, "MOSFET") {
        CompCtorType::MOSFET
    } else if same_text(s, "FuncVSource") {
        CompCtorType::FuncVSource
    } else {
        CompCtorType::Resistor
    }
}

/// The engineering suffixes a number literal may carry.
#[derive(Debug, Clone, Copy, PartialEq, Eq, Structural)]
pub enum EngSuffix {
    /// `Meg`, 10^6
    Meg,
    /// `meg`, 10^6
    MegLower,
    /// `kHz`, 10^3
    KiloHertz,
    /// `Hz`, 1
    Hertz,
    /// `k`, 10^3
    Kilo,
    /// `K`, 10^3
    KiloUpper,
    /// `G`, 10^9
    Giga,
    /// `M`, 10^6
    Mega,
    /// `T`, 10^12
    Tera,
    /// `m`, 10^-3
    Milli,
    /// `u`, 10^-6
    Micro,
    /// `n`, 10^-9
    Nano,
    /// `p`, 10^-12
    Pico,
    /// `f`, 10^-15
    Femto,
    /// `V`, 1
    Volt,
    /// `A`, 1
    Ampere,
}

/// How suffix `x` is written.
pub open spec fn suffix_text(x: EngSuffix) -> Seq<char> {
    match x {
        EngSuffix::Meg => "Meg"@,
        EngSuffix::MegLower => "meg"@,
        EngSuffix::KiloHertz => "kHz"@,
        EngSuffix::Hertz => "Hz"@,
        EngSuffix::Kilo => "k"@,
        EngSuffix::KiloUpper => "K"@,
        EngSuffix::Giga => "G"@,
        EngSuffix::Mega => "M"@,
        EngSuffix::Tera => "T"@,
        EngSuffix::Milli => "m"@,
        EngSuffix::Micro => "u"@,
        EngSuffix::Nano => "n"@,
        EngSuffix::Pico => "p"@,
        EngSuffix::Femto => "f"@,
        EngSuffix::Volt => "V"@,
        EngSuffix::Ampere => "A"@,
    }
}

/// The power of ten that suffix `x` scales by.
pub open spec fn suffix_exponent(x: EngSuffix) -> int {
    match x {
        EngSuffix::Meg | EngSuffix::MegLower | EngSuffix::Mega => 6,
        EngSuffix::KiloHertz | EngSuffix::Kilo | EngSuffix::KiloUpper => 3,
        EngSuffix::Hertz | EngSuffix::Volt | EngSuffix::Ampere => 0,
        EngSuffix::Giga => 9,
        EngSuffix::Tera => 12,
        EngSuffix::Milli => -3,
        EngSuffix::Micro => -6,
        EngSuffix::Nano => -9,
        EngSuffix::Pico => -12,
        EngSuffix::Femto => -15,
    }
}

/// The suffix of a literal: the first of `Meg meg kHz Hz k K G M T m u n p
/// f V A` that ends `s`.
pub open spec fn eng_suffix_spec(s: Seq<char>) -> Option<EngSuffix> {
    if ends_with(s, "Meg"@) {
        Some(EngSuffix::Meg)
    } else if ends_with(s, "meg"@) {
        Some(EngSuffix::MegLower)
    } else if ends_with(s, "kHz"@) {
        Some(EngSuffix::KiloHertz)
    } else if ends_with(s, "Hz"@) {
        Some(EngSuffix::Hertz)
    } else if ends_with(s, "k"@) {
        Some(EngSuffix::Kilo)
    } else if ends_with(s, "K"@) {
        Some(EngSuffix::KiloUpper)
    } else if ends_with(s, "G"@) {
        Some(EngSuffix::Giga)
    } else if ends_with(s, "M"@) {
        Some(EngSuffix::Mega)
    } else if ends_with(s, "T"@) {
        Some(EngSuffix::Tera)
    } else if ends_with(s, "m"@) {
        Some(EngSuffix::Milli)
    } else if ends_with(s, "u"@) {
        Some(EngSuffix::Micro)
    } else if ends_with(s, "n"@) {
        Some(EngSuffix::Nano)
    } else if ends_with(s, "p"@) {
        Some(EngSuffix::Pico)
    } else if ends_with(s, "f"@) {
        Some(EngSuffix::Femto)
    } else if ends_with(s, "V"@) {
        Some(EngSuffix::Volt)
    } else if ends_with(s, "A"@) {
        Some(EngSuffix::Ampere)
    } else {
        None
    }
}

/// A literal that ends in any suffix of the table reads with a suffix, and
/// the suffix it reads with is one that the literal ends in.
pub proof fn lemma_eng_suffix_found(s: Seq<char>, x: EngSuffix)
    ensures
        ends_with(s, suffix_text(x)) ==> eng_suffix_spec(s) is Some,
        eng_suffix_spec(s) matches Some(y) ==> ends_with(s, suffix_text(y)),
{
}

/// A literal whose last character is `u` reads with the micro suffix.
pub proof fn lemma_micro_suffix(s: Seq<char>)
    requires
        s.len() > 0,
        s.last() == 'u',
    ensures
        eng_suffix_spec(s) == Some(EngSuffix::Micro),
{
    reveal_strlit("Meg");
    reveal_strlit("meg");
    reveal_strlit("kHz");
    reveal_strlit("Hz");
    reveal_strlit("k");
    reveal_strlit("K");
    reveal_strlit("G");
    reveal_strlit("M");
    reveal_strlit("T");
    reveal_strlit("m");
    reveal_strlit("u");
    assert(s.skip(s.len() - 1) =~= "u"@);
    lemma_last_char_excludes(s, "Meg"@);
    lemma_last_char_excludes(s, "meg"@);
    lemma_last_char_excludes(s, "kHz"@);
    lemma_last_char_excludes(s, "Hz"@);
    lemma_last_char_excludes(s, "k"@);
    lemma_last_char_excludes(s, "K"@);
    lemma_last_char_excludes(s, "G"@);
    lemma_last_char_excludes(s, "M"@);
    lemma_last_char_excludes(s, "T"@);
    lemma_last_char_excludes(s, "m"@);
}

proof fn lemma_last_char_excludes(s: Seq<char>, t: Seq<char>)
    requires
        s.len() > 0,
        t.len() > 0,
        s.last() != t.last(),
    ensures
        !ends_with(s, t),
{
    if ends_with(s, t) {
        assert(s.skip(s.len() - t.len())[t.len() - 1] == s.last());
    }
}

impl EngSuffix {
    pub fn text(self) -> (r: &'static str)
        ensures
            r@ == suffix_text(self),
    {
        match self {
            EngSuffix::Meg => "Meg",
            EngSuffix::MegLower => "meg",
            EngSuffix::KiloHertz => "kHz",
            EngSuffix::Hertz => "Hz",
            EngSuffix::Kilo => "k",
            EngSuffix::KiloUpper => "K",
            EngSuffix::Giga => "G",
            EngSuffix::Mega => "M",
            EngSuffix::Tera => "T",
            EngSuffix::Milli => "m",
            EngSuffix::Micro => "u",
            EngSuffix::Nano => "n",
            EngSuffix::Pico => "p",
            EngSuffix::Femto => "f",
            EngSuffix::Volt => "V",
            EngSuffix::Ampere => "A",
        }
    }

    pub fn exponent(self) -> (r: i32)
        ensures
            r == suffix_exponent(self),
    {
        match self {
            EngSuffix::Meg | EngSuffix::MegLower | EngSuffix::Mega => 6,
            EngSuffix::KiloHertz | EngSuffix::Kilo | EngSuffix::KiloUpper => 3,
            EngSuffix::Hertz | EngSuffix::Volt | EngSuffix::Ampere => 0,
            EngSuffix::Giga => 9,
            EngSuffix::Tera => 12,
            EngSuffix::Milli => -3,
            EngSuffix::Micro => -6,
            EngSuffix::Nano => -9,
            EngSuffix::Pico => -12,
            EngSuffix::Femto => -15,
        }
    }
}

/// The engineering suffix that ends the literal `s`, tried in the order
/// `Meg meg kHz Hz k K G M T m u n p f V A`; the literal's number is what
/// precedes it.
pub fn eng_suffix(s: &str) -> (r: Option<EngSuffix>)
    ensures
        r == eng_suffix_spec(s@),
        r matches Some(x) ==> ends_with(s@, suffix_text(x)),
{
    if has_suffix(s, "Meg") {
        Some(EngSuffix::Meg)
    } else if has_suffix(s, "meg") {
        Some(EngSuffix::MegLower)
    } else if has_suffix(s, "kHz") {
        Some(EngSuffix::KiloHertz)
    } else if has_suffix(s, "Hz") {
        Some(EngSuffix::Hertz)
    } else if has_suffix(s, "k") {
        Some(EngSuffix::Kilo)
    } else if has_suffix(s, "K") {
        Some(EngSuffix::KiloUpper)
    } else if has_suffix(s, "G") {
        Some(EngSuffix::Giga)
    } else if has_suffix(s, "M") {
        Some(EngSuffix::Mega)
    } else if has_suffix(s, "T") {
        Some(EngSuffix::Tera)
    } else if has_suffix(s, "m") {
        Some(EngSuffix::Milli)
    } else if has_suffix(s, "u") {
        Some(EngSuffix::Micro)
    } else if has_suffix(s, "n") {
        Some(EngSuffix::Nano)
    } else if has_suffix(s, "p") {
        Some(EngSuffix::Pico)
    } else if has_suffix(s, "f") {
        Some(EngSuffix::Femto)
    } else if has_suffix(s, "V") {
        Some(EngSuffix::Volt)
    } else if has_suffix(s, "A") {
        Some(EngSuffix::Ampere)
    } else {
        None
    }
}

} // verus!
