//! The interpreter engine: a classifier for raw words, a statement parser
//! that dispatches on the first word (procedure definition, `Exit`,
//! `If`/`Then`/`Else`, or plain postfix expression), and a postfix evaluator
//! with variable binding and procedure invocation.
//!
//! All numeric values are natural numbers. Underflow, overflow past
//! `usize::MAX`, and division or remainder by zero are reported as
//! [`SyntaxParseError::ArithmeticFault`]; procedure recursion deeper than the
//! engine's recursion budget is reported as
//! [`SyntaxParseError::RecursionLimitExceeded`]. Both conditions end only the
//! current statement, never the session.

use vstd::prelude::*;
use vstd::string::*;
use vstd::utf8::is_ascii_chars;
use crate::text::{
    all_digits, digits_value, parse_usize, split_acc, split_spaces, str_eq, tokenize, trim_left_spec,
    trim_right_spec, trim_spec, words_of,
};

verus! {

/// `Tokens` consists of all possible kinds of token in the language.
pub enum Tokens {
    Literal(Literal),
    Variable(Variable),
    Proc(Proc),
    Keyword,
    Symbol(String),
}

/// A literal natural number.
pub struct Literal {
    pub value: usize,
}

/// A named binding; `value` is filled in only at lookup or bind time.
pub struct Variable {
    pub name: String,
    pub value: Option<usize>,
}

/// A parameter of a procedure, bound only for the duration of one call.
pub struct Parameter {
    pub name: String,
    pub value: Option<usize>,
}

/// A token of a stored procedure body. Names are kept as variable
/// placeholders and resolved against the procedure table at call time.
pub enum BodyTok {
    Literal(Literal),
    Variable(Variable),
    Symbol(String),
}

/// A user-defined procedure: its name, ordered parameters, and body in
/// source order.
pub struct Proc {
    pub name: String,
    pub param: Vec<Parameter>,
    pub expr: Vec<BodyTok>,
}

/// Errors of parsing and evaluation. Each ends only the current statement.
#[derive(Debug, PartialEq, Eq, Structural, Clone, Copy)]
pub enum SyntaxParseError {
    InvalidLiteral,
    InvalidVariableName,
    InvalidProcName,
    ProcNameAlreadyExists,
    InvalidProcDefStatement,
    EmptyLine,
    ProcNotFound,
    InvalidExprStatement,
    InvalidNumberOfArguments,
    VarNameAlreadyExists,
    /// Natural-number underflow, overflow past `usize::MAX`, or division or
    /// remainder by zero.
    ArithmeticFault,
    /// Procedure calls nested deeper than the engine's recursion budget.
    RecursionLimitExceeded,
}

/// Mathematical view of a variable or parameter.
pub ghost struct VarV {
    pub name: Seq<char>,
    pub value: Option<usize>,
}

/// Mathematical view of a body token.
pub ghost enum BTokV {
    Lit { value: usize },
    Var { var: VarV },
    Sym { text: Seq<char> },
}

/// Mathematical view of a procedure.
pub ghost struct ProcV {
    pub name: Seq<char>,
    pub params: Seq<VarV>,
    pub body: Seq<BTokV>,
}

/// Mathematical view of a token.
pub ghost enum TokV {
    Lit { value: usize },
    Var { var: VarV },
    ProcT { proc: ProcV },
    Kw,
    Sym { text: Seq<char> },
}

impl View for Variable {
    type V = VarV;

    open spec fn view(&self) -> VarV {
        VarV { name: self.name@, value: self.value }
    }
}

impl DeepView for Variable {
    type V = VarV;

    open spec fn deep_view(&self) -> VarV {
        self@
    }
}

impl View for Parameter {
    type V = VarV;

    open spec fn view(&self) -> VarV {
        VarV { name: self.name@, value: self.value }
    }
}

impl DeepView for Parameter {
    type V = VarV;

    open spec fn deep_view(&self) -> VarV {
        self@
    }
}

impl View for BodyTok {
    type V = BTokV;

    open spec fn view(&self) -> BTokV {
        match self {
            BodyTok::Literal(l) => BTokV::Lit { value: l.value },
            BodyTok::Variable(v) => BTokV::Var { var: v@ },
            BodyTok::Symbol(s) => BTokV::Sym { text: s@ },
        }
    }
}

impl DeepView for BodyTok {
    type V = BTokV;

    open spec fn deep_view(&self) -> BTokV {
        self@
    }
}

impl View for Proc {
    type V = ProcV;

    open spec fn view(&self) -> ProcV {
        ProcV { name: self.name@, params: self.param.deep_view(), body: self.expr.deep_view() }
    }
}

impl DeepView for Proc {
    type V = ProcV;

    open spec fn deep_view(&self) -> ProcV {
        self@
    }
}

impl View for Tokens {
    type V = TokV;

    open spec fn view(&self) -> TokV {
        match self {
            Tokens::Literal(l) => TokV::Lit { value: l.value },
            Tokens::Variable(v) => TokV::Var { var: v@ },
            Tokens::Proc(p) => TokV::ProcT { proc: p@ },
            Tokens::Keyword => TokV::Kw,
            Tokens::Symbol(s) => TokV::Sym { text: s@ },
        }
    }
}

impl DeepView for Tokens {
    type V = TokV;

    open spec fn deep_view(&self) -> TokV {
        self@
    }
}

/// The fixed-form symbols, by kind. `NoSym` marks a word that is not a
/// symbol; `Arrow` (`=>`) and `Ge` (`>=`) are recognized by the evaluator's
/// operator table but are not members of the classifier's symbol set.
#[derive(PartialEq, Eq, Structural, Clone, Copy, Debug)]
pub enum SymKind {
    Add,
    Sub,
    Mul,
    Div,
    Mod,
    Assign,
    Arrow,
    EqSym,
    NeSym,
    GtSym,
    GeSym,
    LtSym,
    LeSym,
    AndSym,
    OrSym,
    NotSym,
    NoSym,
}

/// Which symbol a word denotes.
pub open spec fn sym_kind(s: Seq<char>) -> SymKind {
    if s == seq!['+'] {
        SymKind::Add
    } else if s == seq!['-'] {
        SymKind::Sub
    } else if s == seq!['*'] {
        SymKind::Mul
    } else if s == seq!['/'] {
        SymKind::Div
    } else if s == seq!['%'] {
        SymKind::Mod
    } else if s == seq!['='] {
        SymKind::Assign
    } else if s == seq!['=', '>'] {
        SymKind::Arrow
    } else if s == seq!['=', '='] {
        SymKind::EqSym
    } else if s == seq!['!', '='] {
        SymKind::NeSym
    } else if s == seq!['>'] {
        SymKind::GtSym
    } else if s == seq!['>', '='] {
        SymKind::GeSym
    } else if s == seq!['<'] {
        SymKind::LtSym
    } else if s == seq!['<', '='] {
        SymKind::LeSym
    } else if s == seq!['&', '&'] {
        SymKind::AndSym
    } else if s == seq!['|', '|'] {
        SymKind::OrSym
    } else if s == seq!['!'] {
        SymKind::NotSym
    } else {
        SymKind::NoSym
    }
}

/// Member of the classifier's closed symbol set: a recognized symbol other
/// than the arrow, which only delimits a procedure definition.
pub open spec fn is_expr_symbol(s: Seq<char>) -> bool {
    sym_kind(s) != SymKind::NoSym && sym_kind(s) != SymKind::Arrow && sym_kind(s) != SymKind::GeSym
}

pub open spec fn kw_def() -> Seq<char> {
    seq!['D', 'e', 'f']
}

pub open spec fn kw_as() -> Seq<char> {
    seq!['A', 's']
}

pub open spec fn kw_exit() -> Seq<char> {
    seq!['E', 'x', 'i', 't']
}

pub open spec fn kw_if() -> Seq<char> {
    seq!['I', 'f']
}

pub open spec fn kw_then() -> Seq<char> {
    seq!['T', 'h', 'e', 'n']
}

pub open spec fn kw_else() -> Seq<char> {
    seq!['E', 'l', 's', 'e']
}

pub open spec fn arrow_sym() -> Seq<char> {
    seq!['=', '>']
}

/// A word usable as a variable or procedure name: non-empty ASCII.
pub open spec fn valid_name(s: Seq<char>) -> bool {
    is_ascii_chars(s) && s.len() > 0
}

/// Classify a word as a symbol, by kind.
pub fn classify_symbol(w: &str) -> (k: SymKind)
    ensures
        k == sym_kind(w@),
{
    let n = w.unicode_len();
    if n == 1 {
        let c = w.get_char(0);
        proof {
            assert(w@ =~= seq![w@[0]]);
        }
        if c == '+' {
            SymKind::Add
        } else if c == '-' {
            SymKind::Sub
        } else if c == '*' {
            SymKind::Mul
        } else if c == '/' {
            SymKind::Div
        } else if c == '%' {
            SymKind::Mod
        } else if c == '=' {
            SymKind::Assign
        } else if c == '>' {
            SymKind::GtSym
        } else if c == '<' {
            SymKind::LtSym
        } else if c == '!' {
            SymKind::NotSym
        } else {
            SymKind::NoSym
        }
    } else if n == 2 {
        let c0 = w.get_char(0);
        let c1 = w.get_char(1);
        proof {
            assert(w@ =~= seq![w@[0], w@[1]]);
        }
        if c0 == '=' && c1 == '>' {
            SymKind::Arrow
        } else if c0 == '=' && c1 == '=' {
            SymKind::EqSym
        } else if c0 == '!' && c1 == '=' {
            SymKind::NeSym
        } else if c0 == '>' && c1 == '=' {
            SymKind::GeSym
        } else if c0 == '<' && c1 == '=' {
            SymKind::LeSym
        } else if c0 == '&' && c1 == '&' {
            SymKind::AndSym
        } else if c0 == '|' && c1 == '|' {
            SymKind::OrSym
        } else {
            SymKind::NoSym
        }
    } else {
        SymKind::NoSym
    }
}

impl Literal {
    /// Whether every character of the word is an ASCII digit.
    pub fn is_literal(token: &str) -> (r: bool)
        ensures
            r == all_digits(token@),
    {
        let n = token.unicode_len();
        let mut i: usize = 0;
        while i < n
            invariant
                0 <= i <= n,
                n == token@.len(),
                forall|j: int| 0 <= j < i ==> crate::text::is_digit(token@[j]),
            decreases n - i,
        {
            if !crate::text::is_digit_char(token.get_char(i)) {
                return false;
            }
            i += 1;
        }
        true
    }
}

impl Proc {
    /// Whether the word may name a procedure: non-empty ASCII.
    pub fn is_valid_proc_name(token: &str) -> (r: bool)
        ensures
            r == valid_name(token@),
    {
        token.is_ascii() && !token.is_empty()
    }
}

impl Variable {
    /// Whether the word may name a variable: non-empty ASCII.
    pub fn is_valid_var_name(token: &str) -> (r: bool)
        ensures
            r == valid_name(token@),
    {
        token.is_ascii() && !token.is_empty()
    }
}

/// The binding for a name: the most recently bound variable with that name,
/// if any.
pub open spec fn var_lookup(vars: Seq<VarV>, name: Seq<char>) -> Option<VarV>
    decreases vars.len(),
{
    if vars.len() == 0 {
        None
    } else if vars.last().name == name {
        Some(vars.last())
    } else {
        var_lookup(vars.drop_last(), name)
    }
}

/// The procedure registered under a name: the first defined one, if any.
pub open spec fn proc_lookup(procs: Seq<ProcV>, name: Seq<char>) -> Option<ProcV>
    decreases procs.len(),
{
    if procs.len() == 0 {
        None
    } else if procs[0].name == name {
        Some(procs[0])
    } else {
        proc_lookup(procs.drop_first(), name)
    }
}

/// What the classifier makes of a raw word, given the current procedure
/// table and variable bindings: a symbol, a literal, a variable (bound if
/// the name is already bound), or a reference to a registered procedure.
pub open spec fn spec_classify(procs: Seq<ProcV>, vars: Seq<VarV>, w: Seq<char>) -> Result<
    TokV,
    SyntaxParseError,
> {
    if is_expr_symbol(w) {
        Ok(TokV::Sym { text: w })
    } else if all_digits(w) {
        if w.len() > 0 && digits_value(w) <= usize::MAX {
            Ok(TokV::Lit { value: digits_value(w) as usize })
        } else {
            Err(SyntaxParseError::InvalidLiteral)
        }
    } else if valid_name(w) {
        match proc_lookup(procs, w) {
            Some(p) => Ok(TokV::ProcT { proc: p }),
            None => Ok(
                TokV::Var {
                    var: match var_lookup(vars, w) {
                        Some(v) => v,
                        None => VarV { name: w, value: None },
                    },
                },
            ),
        }
    } else {
        Err(SyntaxParseError::ProcNotFound)
    }
}

/// What the classifier makes of a word of a procedure body. Names stay
/// variable placeholders, to be resolved against the procedure table at
/// call time.
pub open spec fn spec_classify_body(vars: Seq<VarV>, w: Seq<char>) -> Result<
    BTokV,
    SyntaxParseError,
> {
    if is_expr_symbol(w) {
        Ok(BTokV::Sym { text: w })
    } else if all_digits(w) {
        if w.len() > 0 && digits_value(w) <= usize::MAX {
            Ok(BTokV::Lit { value: digits_value(w) as usize })
        } else {
            Err(SyntaxParseError::InvalidLiteral)
        }
    } else if valid_name(w) {
        Ok(
            BTokV::Var {
                var: match var_lookup(vars, w) {
                    Some(v) => v,
                    None => VarV { name: w, value: None },
                },
            },
        )
    } else {
        Err(SyntaxParseError::ProcNotFound)
    }
}

/// Resolve a token to a value for use as an operand: a literal is its
/// value, a variable is looked up among the bound variables, anything else
/// is malformed.
pub open spec fn resolve_operand(vars: Seq<VarV>, t: TokV) -> Result<usize, SyntaxParseError> {
    match t {
        TokV::Lit { value } => Ok(value),
        TokV::Var { var } => match var_lookup(vars, var.name) {
            Some(sv) => match sv.value {
                Some(x) => Ok(x),
                None => Err(SyntaxParseError::InvalidVariableName),
            },
            None => Err(SyntaxParseError::InvalidVariableName),
        },
        _ => Err(SyntaxParseError::InvalidExprStatement),
    }
}

/// Resolve a token to a value, falling back on the binding the token itself
/// carries when the name has no current binding. Used by assignment sources
/// and negation operands.
pub open spec fn resolve_fallback(vars: Seq<VarV>, t: TokV) -> Result<usize, SyntaxParseError> {
    match t {
        TokV::Lit { value } => Ok(value),
        TokV::Var { var } => {
            let folded = match var_lookup(vars, var.name) {
                Some(sv) => sv.value,
                None => var.value,
            };
            match folded {
                Some(x) => Ok(x),
                None => Err(SyntaxParseError::InvalidVariableName),
            }
        },
        _ => Err(SyntaxParseError::InvalidExprStatement),
    }
}

/// The result of a binary symbol on `a` (popped first) and `b` (popped
/// second): `a+b`, `a-b`, `a*b`, `a/b`, `a%b`; comparisons answer for the
/// earlier operand `b` against the later `a` (`>` yields 1 when `b > a`);
/// `&&` and `||` treat zero as false. Underflow, overflow and zero divisors
/// are arithmetic faults.
pub open spec fn spec_binop(k: SymKind, a: usize, b: usize) -> Result<usize, SyntaxParseError> {
    match k {
        SymKind::Add => if a + b <= usize::MAX {
            Ok((a + b) as usize)
        } else {
            Err(SyntaxParseError::ArithmeticFault)
        },
        SymKind::Sub => if a >= b {
            Ok((a - b) as usize)
        } else {
            Err(SyntaxParseError::ArithmeticFault)
        },
        SymKind::Mul => if a * b <= usize::MAX {
            Ok((a * b) as usize)
        } else {
            Err(SyntaxParseError::ArithmeticFault)
        },
        SymKind::Div => if b == 0 {
            Err(SyntaxParseError::ArithmeticFault)
        } else {
            Ok(((a as int) / (b as int)) as usize)
        },
        SymKind::Mod => if b == 0 {
            Err(SyntaxParseError::ArithmeticFault)
        } else {
            Ok(((a as int) % (b as int)) as usize)
        },
        SymKind::EqSym => Ok(if b == a {
            1
        } else {
            0
        }),
        SymKind::NeSym => Ok(if b != a {
            1
        } else {
            0
        }),
        SymKind::GtSym => Ok(if b > a {
            1
        } else {
            0
        }),
        SymKind::GeSym => Ok(if b >= a {
            1
        } else {
            0
        }),
        SymKind::LtSym => Ok(if b < a {
            1
        } else {
            0
        }),
        SymKind::LeSym => Ok(if b <= a {
            1
        } else {
            0
        }),
        SymKind::AndSym => Ok(if a > 0 && b > 0 {
            1
        } else {
            0
        }),
        SymKind::OrSym => Ok(if a == 0 && b == 0 {
            0
        } else {
            1
        }),
        _ => Err(SyntaxParseError::InvalidExprStatement),
    }
}

/// Outcome of applying a symbol to the working stack.
pub ghost struct SymOut {
    pub res: Result<usize, SyntaxParseError>,
    pub vars: Seq<VarV>,
    pub storage: Seq<TokV>,
}

/// What a symbol does to the working stack and the variable bindings.
/// Assignment pops a fresh variable and a value and binds them; negation
/// pops one operand; every other symbol pops two operands and applies
/// [`spec_binop`]. Operands are popped before they are examined, so a
/// failed application still consumes them.
pub open spec fn spec_sym_eval(vars: Seq<VarV>, storage: Seq<TokV>, sym: Seq<char>) -> SymOut {
    let k = sym_kind(sym);
    if k == SymKind::Assign {
        if storage.len() < 2 {
            SymOut { res: Err(SyntaxParseError::InvalidNumberOfArguments), vars, storage }
        } else {
            let a = storage.last();
            let b = storage[storage.len() - 2];
            let s2 = storage.drop_last().drop_last();
            match a {
                TokV::Var { var } => {
                    if var_lookup(vars, var.name) is Some {
                        SymOut {
                            res: Err(SyntaxParseError::VarNameAlreadyExists),
                            vars,
                            storage: s2,
                        }
                    } else {
                        match resolve_fallback(vars, b) {
                            Ok(bv) => SymOut {
                                res: Ok(bv),
                                vars: vars.push(VarV { name: var.name, value: Some(bv) }),
                                storage: s2,
                            },
                            Err(e) => SymOut { res: Err(e), vars, storage: s2 },
                        }
                    }
                },
                _ => SymOut { res: Err(SyntaxParseError::InvalidExprStatement), vars, storage: s2 },
            }
        }
    } else if k == SymKind::NotSym {
        if storage.len() < 1 {
            SymOut { res: Err(SyntaxParseError::InvalidNumberOfArguments), vars, storage }
        } else {
            let a = storage.last();
            let s2 = storage.drop_last();
            match resolve_fallback(vars, a) {
                Ok(av) => SymOut {
                    res: Ok(
                        if av == 0 {
                            1
                        } else {
                            0
                        },
                    ),
                    vars,
                    storage: s2,
                },
                Err(e) => SymOut { res: Err(e), vars, storage: s2 },
            }
        }
    } else {
        if storage.len() < 2 {
            SymOut { res: Err(SyntaxParseError::InvalidNumberOfArguments), vars, storage }
        } else {
            let a = storage.last();
            let b = storage[storage.len() - 2];
            let s2 = storage.drop_last().drop_last();
            match resolve_operand(vars, a) {
                Err(e) => SymOut { res: Err(e), vars, storage: s2 },
                Ok(av) => match resolve_operand(vars, b) {
                    Err(e) => SymOut { res: Err(e), vars, storage: s2 },
                    Ok(bv) => SymOut { res: spec_binop(k, av, bv), vars, storage: s2 },
                },
            }
        }
    }
}

/// A body token as seen at call time: a name registered in the procedure
/// table becomes a procedure reference, every other token stands as stored.
pub open spec fn body_tok_at_call(procs: Seq<ProcV>, b: BTokV) -> TokV {
    match b {
        BTokV::Lit { value } => TokV::Lit { value },
        BTokV::Sym { text } => TokV::Sym { text },
        BTokV::Var { var } => match proc_lookup(procs, var.name) {
            Some(p) => TokV::ProcT { proc: p },
            None => TokV::Var { var },
        },
    }
}

/// Outcome of binding call arguments: the bound parameters, and the working
/// stack with the consumed arguments popped.
pub ghost struct BindOut {
    pub res: Result<Seq<VarV>, SyntaxParseError>,
    pub storage: Seq<TokV>,
}

/// Pop one argument for each parameter from `i` on, resolving each against
/// the caller's bindings, and bind them in declaration order.
pub open spec fn spec_bind_args(
    vars: Seq<VarV>,
    storage: Seq<TokV>,
    params: Seq<VarV>,
    i: int,
    bound: Seq<VarV>,
) -> BindOut
    decreases params.len() - i,
{
    if i < 0 || i >= params.len() {
        BindOut { res: Ok(bound), storage }
    } else {
        let t = storage.last();
        let s2 = storage.drop_last();
        match resolve_operand(vars, t) {
            Err(e) => BindOut { res: Err(e), storage: s2 },
            Ok(v) => spec_bind_args(
                vars,
                s2,
                params,
                i + 1,
                bound.push(VarV { name: params[i].name, value: Some(v) }),
            ),
        }
    }
}

/// Outcome of one evaluator pass: the result, the bindings, what is left of
/// the statement stack and the working stack, and the procedure signatures
/// reported along the way.
pub ghost struct RunOut {
    pub res: Result<usize, SyntaxParseError>,
    pub vars: Seq<VarV>,
    pub global: Seq<TokV>,
    pub storage: Seq<TokV>,
    pub reports: Seq<ProcV>,
}

/// Outcome of one procedure invocation.
pub ghost struct ProcOut {
    pub res: Result<usize, SyntaxParseError>,
    pub storage: Seq<TokV>,
    pub reports: Seq<ProcV>,
}

/// The evaluator's main loop over the statement stack, drained from the
/// tail. `length` is the token count of the whole statement: a single-token
/// statement yields its literal or binding directly, and a procedure
/// reference in a statement of fewer than two tokens reports its signature
/// and yields zero. At the end, a working stack holding more than one
/// leftover token, or a statement that never produced a value, is a
/// malformed expression.
pub open spec fn spec_run_loop(
    procs: Seq<ProcV>,
    vars: Seq<VarV>,
    global: Seq<TokV>,
    storage: Seq<TokV>,
    length: int,
    result: usize,
    produced: bool,
    fuel: nat,
) -> RunOut
    decreases fuel, global.len(), 1int,
{
    if global.len() == 0 {
        if length > 0 && storage.len() > 1 {
            RunOut {
                res: Err(SyntaxParseError::InvalidExprStatement),
                vars,
                global,
                storage,
                reports: seq![],
            }
        } else if length > 0 && !produced {
            RunOut {
                res: Err(SyntaxParseError::InvalidExprStatement),
                vars,
                global,
                storage,
                reports: seq![],
            }
        } else {
            RunOut { res: Ok(result), vars, global, storage, reports: seq![] }
        }
    } else {
        let t = global.last();
        let g2 = global.drop_last();
        match t {
            TokV::Lit { value } => if length == 1 {
                spec_run_loop(procs, vars, g2, storage, length, value, true, fuel)
            } else {
                spec_run_loop(procs, vars, g2, storage.push(t), length, result, produced, fuel)
            },
            TokV::Kw => spec_run_loop(procs, vars, g2, storage, length, result, produced, fuel),
            TokV::Sym { text } => {
                let so = spec_sym_eval(vars, storage, text);
                match so.res {
                    Err(e) => RunOut {
                        res: Err(e),
                        vars: so.vars,
                        global: g2,
                        storage: so.storage,
                        reports: seq![],
                    },
                    Ok(v) => spec_run_loop(
                        procs,
                        so.vars,
                        g2,
                        so.storage.push(TokV::Lit { value: v }),
                        length,
                        v,
                        true,
                        fuel,
                    ),
                }
            },
            TokV::Var { var } => if length == 1 {
                match var_lookup(vars, var.name) {
                    Some(sv) => match sv.value {
                        Some(x) => spec_run_loop(
                            procs,
                            vars,
                            g2,
                            storage.push(t),
                            length,
                            x,
                            true,
                            fuel,
                        ),
                        None => RunOut {
                            res: Err(SyntaxParseError::InvalidVariableName),
                            vars,
                            global: g2,
                            storage,
                            reports: seq![],
                        },
                    },
                    None => RunOut {
                        res: Err(SyntaxParseError::InvalidVariableName),
                        vars,
                        global: g2,
                        storage,
                        reports: seq![],
                    },
                }
            } else {
                spec_run_loop(procs, vars, g2, storage.push(t), length, result, produced, fuel)
            },
            TokV::ProcT { proc } => if length < 2 {
                RunOut { res: Ok(0), vars, global: g2, storage, reports: seq![proc] }
            } else {
                let po = spec_run_proc(procs, vars, storage, proc, fuel);
                match po.res {
                    Err(e) => RunOut {
                        res: Err(e),
                        vars,
                        global: g2,
                        storage: po.storage,
                        reports: po.reports,
                    },
                    Ok(v) => {
                        let rest = spec_run_loop(
                            procs,
                            vars,
                            g2,
                            po.storage.push(TokV::Lit { value: v }),
                            length,
                            v,
                            true,
                            fuel,
                        );
                        RunOut {
                            res: rest.res,
                            vars: rest.vars,
                            global: rest.global,
                            storage: rest.storage,
                            reports: po.reports + rest.reports,
                        }
                    },
                }
            },
        }
    }
}

/// One procedure invocation: pop and resolve one argument per parameter,
/// then run the body, classified against the current procedure table, in a
/// fresh context holding only the bound parameters and a copy of the table.
/// Each call consumes one unit of recursion budget.
pub open spec fn spec_run_proc(
    procs: Seq<ProcV>,
    vars: Seq<VarV>,
    storage: Seq<TokV>,
    p: ProcV,
    fuel: nat,
) -> ProcOut
    decreases fuel, 0int, 0int,
{
    if storage.len() < p.params.len() {
        ProcOut { res: Err(SyntaxParseError::InvalidNumberOfArguments), storage, reports: seq![] }
    } else {
        let bo = spec_bind_args(vars, storage, p.params, 0, seq![]);
        match bo.res {
            Err(e) => ProcOut { res: Err(e), storage: bo.storage, reports: seq![] },
            Ok(bound) => {
                if fuel == 0 {
                    ProcOut {
                        res: Err(SyntaxParseError::RecursionLimitExceeded),
                        storage: bo.storage,
                        reports: seq![],
                    }
                } else {
                    let g = p.body.map_values(|b: BTokV| body_tok_at_call(procs, b)).reverse();
                    let out = spec_run_loop(
                        procs,
                        bound,
                        g,
                        seq![],
                        g.len() as int,
                        0,
                        false,
                        (fuel - 1) as nat,
                    );
                    ProcOut { res: out.res, storage: bo.storage, reports: out.reports }
                }
            },
        }
    }
}

/// One full evaluator pass over a statement stack.
pub open spec fn spec_run_stmt(
    procs: Seq<ProcV>,
    vars: Seq<VarV>,
    global: Seq<TokV>,
    storage: Seq<TokV>,
    fuel: nat,
) -> RunOut {
    spec_run_loop(procs, vars, global, storage, global.len() as int, 0, false, fuel)
}

/// Copy a variable.
fn var_dup(v: &Variable) -> (r: Variable)
    ensures
        r@ == v@,
{
    Variable { name: v.name.clone(), value: v.value }
}

/// Copy a parameter.
fn param_dup(p: &Parameter) -> (r: Parameter)
    ensures
        r@ == p@,
{
    Parameter { name: p.name.clone(), value: p.value }
}

/// Copy a body token.
fn body_tok_dup(b: &BodyTok) -> (r: BodyTok)
    ensures
        r@ == b@,
{
    match b {
        BodyTok::Literal(l) => BodyTok::Literal(Literal { value: l.value }),
        BodyTok::Variable(v) => BodyTok::Variable(var_dup(v)),
        BodyTok::Symbol(s) => BodyTok::Symbol(s.clone()),
    }
}

/// Copy a procedure, body and all.
fn proc_dup(p: &Proc) -> (r: Proc)
    ensures
        r@ == p@,
{
    let mut param: Vec<Parameter> = Vec::new();
    let mut i: usize = 0;
    while i < p.param.len()
        invariant
            0 <= i <= p.param.len(),
            param.deep_view() =~= p.param.deep_view().take(i as int),
        decreases p.param.len() - i,
    {
        proof {
            assert(param.deep_view().len() == i as int);
        }
        param.push(param_dup(&p.param[i]));
        proof {
            assert(param.deep_view() =~= p.param.deep_view().take(i as int + 1));
        }
        i += 1;
    }
    let mut expr: Vec<BodyTok> = Vec::new();
    let mut j: usize = 0;
    while j < p.expr.len()
        invariant
            0 <= j <= p.expr.len(),
            expr.deep_view() =~= p.expr.deep_view().take(j as int),
        decreases p.expr.len() - j,
    {
        proof {
            assert(expr.deep_view().len() == j as int);
        }
        expr.push(body_tok_dup(&p.expr[j]));
        proof {
            assert(expr.deep_view() =~= p.expr.deep_view().take(j as int + 1));
        }
        j += 1;
    }
    proof {
        assert(param.deep_view() =~= p.param.deep_view());
        assert(expr.deep_view() =~= p.expr.deep_view());
    }
    Proc { name: p.name.clone(), param, expr }
}

/// Copy the whole procedure table.
fn procs_dup(procs: &Vec<Proc>) -> (r: Vec<Proc>)
    ensures
        r.deep_view() == procs.deep_view(),
{
    let mut r: Vec<Proc> = Vec::new();
    let mut i: usize = 0;
    while i < procs.len()
        invariant
            0 <= i <= procs.len(),
            r.deep_view() =~= procs.deep_view().take(i as int),
        decreases procs.len() - i,
    {
        proof {
            assert(r.deep_view().len() == i as int);
        }
        r.push(proc_dup(&procs[i]));
        proof {
            assert(r.deep_view() =~= procs.deep_view().take(i as int + 1));
        }
        i += 1;
    }
    proof {
        assert(r.deep_view() =~= procs.deep_view());
    }
    r
}

/// Look a name up among the bound variables; the most recent binding wins.
fn lookup_var(vars: &Vec<Variable>, name: &str) -> (r: Option<Variable>)
    ensures
        match var_lookup(vars.deep_view(), name@) {
            Some(vv) => r matches Some(v) && v@ == vv,
            None => r is None,
        },
{
    let mut i: usize = vars.len();
    proof {
        assert(vars.deep_view().take(vars.len() as int) =~= vars.deep_view());
    }
    while i > 0
        invariant
            0 <= i <= vars.len(),
            var_lookup(vars.deep_view(), name@) == var_lookup(
                vars.deep_view().take(i as int),
                name@,
            ),
        decreases i,
    {
        i -= 1;
        proof {
            assert(vars.deep_view().take(i as int + 1).last() == vars.deep_view()[i as int]);
            assert(vars.deep_view().take(i as int + 1).drop_last() =~= vars.deep_view().take(
                i as int,
            ));
        }
        if str_eq(vars[i].name.as_str(), name) {
            return Some(var_dup(&vars[i]));
        }
    }
    None
}

/// Look a name up in the procedure table; the first definition wins.
fn lookup_proc(procs: &Vec<Proc>, name: &str) -> (r: Option<Proc>)
    ensures
        match proc_lookup(procs.deep_view(), name@) {
            Some(pv) => r matches Some(p) && p@ == pv,
            None => r is None,
        },
{
    let mut i: usize = 0;
    proof {
        assert(procs.deep_view().skip(0) =~= procs.deep_view());
    }
    while i < procs.len()
        invariant
            0 <= i <= procs.len(),
            proc_lookup(procs.deep_view(), name@) == proc_lookup(
                procs.deep_view().skip(i as int),
                name@,
            ),
        decreases procs.len() - i,
    {
        proof {
            assert(procs.deep_view().skip(i as int)[0] == procs.deep_view()[i as int]);
            assert(procs.deep_view().skip(i as int).drop_first() =~= procs.deep_view().skip(
                i as int + 1,
            ));
        }
        if str_eq(procs[i].name.as_str(), name) {
            return Some(proc_dup(&procs[i]));
        }
        i += 1;
    }
    proof {
        assert(procs.deep_view().skip(procs.len() as int) =~= Seq::<ProcV>::empty());
    }
    None
}

/// Classify one raw word against the current procedure table and variable
/// bindings.
fn classify_word(procs: &Vec<Proc>, vars: &Vec<Variable>, w: &str) -> (r: Result<
    Tokens,
    SyntaxParseError,
>)
    ensures
        match r {
            Ok(t) => spec_classify(procs.deep_view(), vars.deep_view(), w@) == Ok::<
                TokV,
                SyntaxParseError,
            >(t@),
            Err(e) => spec_classify(procs.deep_view(), vars.deep_view(), w@) == Err::<
                TokV,
                SyntaxParseError,
            >(e),
        },
{
    let k = classify_symbol(w);
    if !(matches!(k, SymKind::NoSym) || matches!(k, SymKind::Arrow) || matches!(k, SymKind::GeSym)) {
        return Ok(Tokens::Symbol(w.to_owned()));
    }
    if Literal::is_literal(w) {
        return match parse_usize(w) {
            Some(v) => Ok(Tokens::Literal(Literal { value: v })),
            None => Err(SyntaxParseError::InvalidLiteral),
        };
    }
    if Variable::is_valid_var_name(w) {
        return match lookup_proc(procs, w) {
            Some(p) => Ok(Tokens::Proc(p)),
            None => match lookup_var(vars, w) {
                Some(v) => Ok(Tokens::Variable(v)),
                None => Ok(Tokens::Variable(Variable { name: w.to_owned(), value: None })),
            },
        };
    }
    Err(SyntaxParseError::ProcNotFound)
}

/// Classify one word of a procedure body; names stay placeholders.
fn classify_body_word(vars: &Vec<Variable>, w: &str) -> (r: Result<BodyTok, SyntaxParseError>)
    ensures
        match r {
            Ok(t) => spec_classify_body(vars.deep_view(), w@) == Ok::<BTokV, SyntaxParseError>(t@),
            Err(e) => spec_classify_body(vars.deep_view(), w@) == Err::<BTokV, SyntaxParseError>(e),
        },
{
    let k = classify_symbol(w);
    if !(matches!(k, SymKind::NoSym) || matches!(k, SymKind::Arrow) || matches!(k, SymKind::GeSym)) {
        return Ok(BodyTok::Symbol(w.to_owned()));
    }
    if Literal::is_literal(w) {
        return match parse_usize(w) {
            Some(v) => Ok(BodyTok::Literal(Literal { value: v })),
            None => Err(SyntaxParseError::InvalidLiteral),
        };
    }
    if Variable::is_valid_var_name(w) {
        return match lookup_var(vars, w) {
            Some(v) => Ok(BodyTok::Variable(v)),
            None => Ok(BodyTok::Variable(Variable { name: w.to_owned(), value: None })),
        };
    }
    Err(SyntaxParseError::ProcNotFound)
}

/// The words before the first occurrence of `d`, or all of them if it never
/// occurs.
pub open spec fn take_until(ws: Seq<Seq<char>>, d: Seq<char>) -> Seq<Seq<char>>
    decreases ws.len(),
{
    if ws.len() == 0 {
        seq![]
    } else if ws[0] == d {
        seq![]
    } else {
        seq![ws[0]] + take_until(ws.drop_first(), d)
    }
}

/// The words after the first occurrence of `d`, or none if it never occurs.
pub open spec fn drop_until(ws: Seq<Seq<char>>, d: Seq<char>) -> Seq<Seq<char>>
    decreases ws.len(),
{
    if ws.len() == 0 {
        seq![]
    } else if ws[0] == d {
        ws.drop_first()
    } else {
        drop_until(ws.drop_first(), d)
    }
}

proof fn lemma_take_until_len(ws: Seq<Seq<char>>, d: Seq<char>)
    ensures
        take_until(ws, d).len() <= ws.len(),
        drop_until(ws, d).len() <= ws.len(),
    decreases ws.len(),
{
    if ws.len() > 0 && ws[0] != d {
        lemma_take_until_len(ws.drop_first(), d);
    }
}

proof fn lemma_until_at(ws: Seq<Seq<char>>, d: Seq<char>, k: int)
    requires
        0 <= k <= ws.len(),
        forall|j: int| 0 <= j < k ==> ws[j] != d,
        k < ws.len() ==> ws[k] == d,
    ensures
        take_until(ws, d) == ws.take(k),
        drop_until(ws, d) == (if k < ws.len() {
            ws.skip(k + 1)
        } else {
            Seq::<Seq<char>>::empty()
        }),
    decreases k,
{
    if k == 0 {
        assert(ws.take(0) =~~= Seq::<Seq<char>>::empty());
        if ws.len() > 0 {
            assert(ws.skip(1) =~~= ws.drop_first());
        }
    } else {
        lemma_until_at(ws.drop_first(), d, k - 1);
        assert(seq![ws[0]] + ws.drop_first().take(k - 1) =~~= ws.take(k));
        if k < ws.len() {
            assert(ws.drop_first().skip(k) =~~= ws.skip(k + 1));
        }
    }
}

/// Tokens of a plain expression statement, classified word by word from the
/// last word backward, so that the resulting statement stack holds the first
/// word on top. The error of the last failing word wins.
pub open spec fn spec_parse_expr(procs: Seq<ProcV>, vars: Seq<VarV>, words: Seq<Seq<char>>) -> Result<
    Seq<TokV>,
    SyntaxParseError,
>
    decreases words.len(),
{
    if words.len() == 0 {
        Ok(seq![])
    } else {
        match spec_classify(procs, vars, words.last()) {
            Err(e) => Err(e),
            Ok(t) => match spec_parse_expr(procs, vars, words.drop_last()) {
                Err(e) => Err(e),
                Ok(s) => Ok(seq![t] + s),
            },
        }
    }
}

/// Tokens of a stored procedure body, classified word by word in source
/// order.
pub open spec fn spec_parse_body(
    vars: Seq<VarV>,
    words: Seq<Seq<char>>,
    i: int,
    acc: Seq<BTokV>,
) -> Result<Seq<BTokV>, SyntaxParseError>
    decreases words.len() - i,
{
    if i < 0 || i >= words.len() {
        Ok(acc)
    } else {
        match spec_classify_body(vars, words[i]) {
            Err(e) => Err(e),
            Ok(t) => spec_parse_body(vars, words, i + 1, acc.push(t)),
        }
    }
}

/// Parameter names collected up to the arrow, and where the body starts.
pub ghost struct ParamsOut {
    pub params: Seq<VarV>,
    pub body_start: int,
}

/// Collect parameter names until the arrow. Running out of words before the
/// arrow, or an arrow with no body after it, is a malformed definition; a
/// word that cannot name a variable is an invalid name.
pub open spec fn spec_collect_params(words: Seq<Seq<char>>, i: int, acc: Seq<VarV>) -> Result<
    ParamsOut,
    SyntaxParseError,
>
    decreases words.len() - i,
{
    if i < 0 || i >= words.len() {
        Err(SyntaxParseError::InvalidProcDefStatement)
    } else if words[i] == arrow_sym() {
        if i + 1 >= words.len() {
            Err(SyntaxParseError::InvalidProcDefStatement)
        } else {
            Ok(ParamsOut { params: acc, body_start: i + 1 })
        }
    } else if !valid_name(words[i]) {
        Err(SyntaxParseError::InvalidVariableName)
    } else {
        spec_collect_params(words, i + 1, acc.push(VarV { name: words[i], value: None }))
    }
}

/// What a procedure definition statement (`Def <name> As <param>* =>
/// <body...>`) defines: the name must be fresh and valid, `As` must follow
/// it, the parameters run to the arrow, and the rest is the body.
pub open spec fn spec_parse_proc(procs: Seq<ProcV>, vars: Seq<VarV>, words: Seq<Seq<char>>) -> Result<
    ProcV,
    SyntaxParseError,
> {
    if words.len() < 2 {
        Err(SyntaxParseError::InvalidProcDefStatement)
    } else {
        let name = words[1];
        if !valid_name(name) {
            Err(SyntaxParseError::InvalidProcName)
        } else if proc_lookup(procs, name) is Some || var_lookup(vars, name) is Some {
            Err(SyntaxParseError::ProcNameAlreadyExists)
        } else if words.len() < 3 {
            Err(SyntaxParseError::InvalidProcDefStatement)
        } else if words[2] != kw_as() {
            Err(SyntaxParseError::InvalidProcDefStatement)
        } else {
            match spec_collect_params(words, 3, seq![]) {
                Err(e) => Err(e),
                Ok(ps) => match spec_parse_body(vars, words, ps.body_start, seq![]) {
                    Err(e) => Err(e),
                    Ok(body) => Ok(ProcV { name, params: ps.params, body }),
                },
            }
        }
    }
}

/// Outcome of parsing (and, for conditionals, partially evaluating) one
/// statement.
pub ghost struct ParseOut {
    pub res: Result<(), SyntaxParseError>,
    pub procs: Seq<ProcV>,
    pub vars: Seq<VarV>,
    pub global: Seq<TokV>,
    pub storage: Seq<TokV>,
    pub reports: Seq<ProcV>,
    pub exit: bool,
}

/// Dispatch one statement on its first word: empty lines are no-ops, `Def`
/// registers a procedure, `Exit` requests the end of the session, `If`
/// evaluates its condition at once and dispatches the chosen branch through
/// the full statement grammar, and anything opening with a literal or a name
/// becomes the statement stack of a plain expression. A failed statement
/// registers nothing: the procedure is pushed only after the whole
/// definition parses.
pub open spec fn spec_parse(
    procs: Seq<ProcV>,
    vars: Seq<VarV>,
    global: Seq<TokV>,
    storage: Seq<TokV>,
    words: Seq<Seq<char>>,
    fuel: nat,
) -> ParseOut
    decreases words.len(),
    via spec_parse_dec
{
    if words.len() == 0 || words[0].len() == 0 {
        ParseOut { res: Ok(()), procs, vars, global, storage, reports: seq![], exit: false }
    } else if words[0] == kw_def() {
        match spec_parse_proc(procs, vars, words) {
            Ok(p) => ParseOut {
                res: Ok(()),
                procs: procs.push(p),
                vars,
                global,
                storage,
                reports: seq![],
                exit: false,
            },
            Err(e) => ParseOut {
                res: Err(e),
                procs,
                vars,
                global,
                storage,
                reports: seq![],
                exit: false,
            },
        }
    } else if words[0] == kw_exit() {
        ParseOut { res: Ok(()), procs, vars, global, storage, reports: seq![], exit: true }
    } else if words[0] == kw_if() {
        let rest = words.skip(1);
        let cond = take_until(rest, kw_then());
        let after = drop_until(rest, kw_then());
        let if_words = take_until(after, kw_else());
        let else_words = drop_until(after, kw_else());
        match spec_parse_expr(procs, vars, cond) {
            Err(e) => ParseOut {
                res: Err(e),
                procs,
                vars,
                global,
                storage,
                reports: seq![],
                exit: false,
            },
            Ok(toks) => {
                let ro = spec_run_stmt(procs, vars, toks, storage, fuel);
                match ro.res {
                    Err(e) => ParseOut {
                        res: Err(e),
                        procs,
                        vars: ro.vars,
                        global: ro.global,
                        storage: ro.storage,
                        reports: ro.reports,
                        exit: false,
                    },
                    Ok(c) => {
                        let branch = if c > 0 {
                            if_words
                        } else {
                            else_words
                        };
                        let po = spec_parse(procs, ro.vars, ro.global, seq![], branch, fuel);
                        ParseOut {
                            res: po.res,
                            procs: po.procs,
                            vars: po.vars,
                            global: po.global,
                            storage: po.storage,
                            reports: ro.reports + po.reports,
                            exit: po.exit,
                        }
                    },
                }
            },
        }
    } else if all_digits(words[0]) || valid_name(words[0]) {
        match spec_parse_expr(procs, vars, words) {
            Ok(toks) => ParseOut {
                res: Ok(()),
                procs,
                vars,
                global: toks,
                storage,
                reports: seq![],
                exit: false,
            },
            Err(e) => ParseOut {
                res: Err(e),
                procs,
                vars,
                global,
                storage,
                reports: seq![],
                exit: false,
            },
        }
    } else {
        ParseOut {
            res: Err(SyntaxParseError::InvalidExprStatement),
            procs,
            vars,
            global,
            storage,
            reports: seq![],
            exit: false,
        }
    }
}

#[via_fn]
proof fn spec_parse_dec(
    procs: Seq<ProcV>,
    vars: Seq<VarV>,
    global: Seq<TokV>,
    storage: Seq<TokV>,
    words: Seq<Seq<char>>,
    fuel: nat,
) {
    lemma_take_until_len(words.skip(1), kw_then());
    lemma_take_until_len(drop_until(words.skip(1), kw_then()), kw_else());
}

/// Session state: bound variables and registered procedures live for the
/// session, the statement stack and working stack for one statement.
/// `reports` collects procedure signatures to print, and `exit_requested`
/// records that an `Exit` statement was read; both stand in for the
/// original's direct terminal output and process exit.
pub struct Engine {
    pub variable_stack: Vec<Variable>,
    pub proc_stack: Vec<Proc>,
    pub global_stack: Vec<Tokens>,
    pub expr_storage: Vec<Tokens>,
    pub reports: Vec<Proc>,
    pub exit_requested: bool,
}

/// Mathematical view of the whole session state.
pub ghost struct EngineV {
    pub vars: Seq<VarV>,
    pub procs: Seq<ProcV>,
    pub global: Seq<TokV>,
    pub storage: Seq<TokV>,
    pub reports: Seq<ProcV>,
    pub exit: bool,
}

impl View for Engine {
    type V = EngineV;

    open spec fn view(&self) -> EngineV {
        EngineV {
            vars: self.variable_stack.deep_view(),
            procs: self.proc_stack.deep_view(),
            global: self.global_stack.deep_view(),
            storage: self.expr_storage.deep_view(),
            reports: self.reports.deep_view(),
            exit: self.exit_requested,
        }
    }
}

/// Resolve a token as an operand against the current bindings.
fn resolve_operand_exec(vars: &Vec<Variable>, t: &Tokens) -> (r: Result<usize, SyntaxParseError>)
    ensures
        r == resolve_operand(vars.deep_view(), t@),
{
    match t {
        Tokens::Literal(l) => Ok(l.value),
        Tokens::Variable(v) => match lookup_var(vars, v.name.as_str()) {
            Some(sv) => match sv.value {
                Some(x) => Ok(x),
                None => Err(SyntaxParseError::InvalidVariableName),
            },
            None => Err(SyntaxParseError::InvalidVariableName),
        },
        _ => Err(SyntaxParseError::InvalidExprStatement),
    }
}

/// Resolve a token as an operand, falling back on the binding the token
/// itself carries.
fn resolve_fallback_exec(vars: &Vec<Variable>, t: &Tokens) -> (r: Result<usize, SyntaxParseError>)
    ensures
        r == resolve_fallback(vars.deep_view(), t@),
{
    match t {
        Tokens::Literal(l) => Ok(l.value),
        Tokens::Variable(v) => {
            let folded: Option<usize> = match lookup_var(vars, v.name.as_str()) {
                Some(sv) => sv.value,
                None => v.value,
            };
            match folded {
                Some(x) => Ok(x),
                None => Err(SyntaxParseError::InvalidVariableName),
            }
        },
        _ => Err(SyntaxParseError::InvalidExprStatement),
    }
}

/// A body token as classified at call time.
fn body_tok_call(procs: &Vec<Proc>, b: &BodyTok) -> (t: Tokens)
    ensures
        t@ == body_tok_at_call(procs.deep_view(), b@),
{
    match b {
        BodyTok::Literal(l) => Tokens::Literal(Literal { value: l.value }),
        BodyTok::Symbol(s) => Tokens::Symbol(s.clone()),
        BodyTok::Variable(v) => match lookup_proc(procs, v.name.as_str()) {
            Some(p) => Tokens::Proc(p),
            None => Tokens::Variable(var_dup(v)),
        },
    }
}

impl Engine {
    /// Apply a binary arithmetic, comparison or logical symbol to the two
    /// most recent operands on the working stack.
    fn sym_eval_ari_log_op(&mut self, sym: String) -> (r: Result<usize, SyntaxParseError>)
        requires
            sym_kind(sym@) != SymKind::Assign,
            sym_kind(sym@) != SymKind::NotSym,
        ensures
            ({
                let so = spec_sym_eval(
                    old(self).variable_stack.deep_view(),
                    old(self).expr_storage.deep_view(),
                    sym@,
                );
                &&& r == so.res
                &&& final(self).variable_stack.deep_view() == so.vars
                &&& final(self).expr_storage.deep_view() == so.storage
                &&& final(self).proc_stack == old(self).proc_stack
                &&& final(self).global_stack == old(self).global_stack
                &&& final(self).reports == old(self).reports
                &&& final(self).exit_requested == old(self).exit_requested
            }),
    {
        let ghost s0 = self.expr_storage.deep_view();
        if self.expr_storage.len() < 2 {
            return Err(SyntaxParseError::InvalidNumberOfArguments);
        }
        let a = self.expr_storage.pop().unwrap();
        let b = self.expr_storage.pop().unwrap();
        proof {
            assert(a@ == s0.last());
            assert(b@ == s0[s0.len() - 2]);
            assert(self.expr_storage.deep_view() =~= s0.drop_last().drop_last());
        }
        let av = match resolve_operand_exec(&self.variable_stack, &a) {
            Ok(v) => v,
            Err(e) => {
                return Err(e);
            },
        };
        let bv = match resolve_operand_exec(&self.variable_stack, &b) {
            Ok(v) => v,
            Err(e) => {
                return Err(e);
            },
        };
        let k = classify_symbol(sym.as_str());
        match k {
            SymKind::Add => match av.checked_add(bv) {
                Some(v) => Ok(v),
                None => Err(SyntaxParseError::ArithmeticFault),
            },
            SymKind::Sub => match av.checked_sub(bv) {
                Some(v) => Ok(v),
                None => Err(SyntaxParseError::ArithmeticFault),
            },
            SymKind::Mul => match av.checked_mul(bv) {
                Some(v) => Ok(v),
                None => Err(SyntaxParseError::ArithmeticFault),
            },
            SymKind::Div => if bv == 0 {
                Err(SyntaxParseError::ArithmeticFault)
            } else {
                Ok(av / bv)
            },
            SymKind::Mod => if bv == 0 {
                Err(SyntaxParseError::ArithmeticFault)
            } else {
                Ok(av % bv)
            },
            SymKind::EqSym => Ok(
                if bv == av {
                    1
                } else {
                    0
                },
            ),
            SymKind::NeSym => Ok(
                if bv != av {
                    1
                } else {
                    0
                },
            ),
            SymKind::GtSym => Ok(
                if bv > av {
                    1
                } else {
                    0
                },
            ),
            SymKind::GeSym => Ok(
                if bv >= av {
                    1
                } else {
                    0
                },
            ),
            SymKind::LtSym => Ok(
                if bv < av {
                    1
                } else {
                    0
                },
            ),
            SymKind::LeSym => Ok(
                if bv <= av {
                    1
                } else {
                    0
                },
            ),
            SymKind::AndSym => Ok(
                if av > 0 && bv > 0 {
                    1
                } else {
                    0
                },
            ),
            SymKind::OrSym => Ok(
                if av == 0 && bv == 0 {
                    0
                } else {
                    1
                },
            ),
            _ => Err(SyntaxParseError::InvalidExprStatement),
        }
    }

    /// Apply a symbol: assignment binds a fresh variable, negation flips one
    /// operand, every other symbol is binary.
    fn sym_eval(&mut self, sym: String) -> (r: Result<usize, SyntaxParseError>)
        ensures
            ({
                let so = spec_sym_eval(
                    old(self).variable_stack.deep_view(),
                    old(self).expr_storage.deep_view(),
                    sym@,
                );
                &&& r == so.res
                &&& final(self).variable_stack.deep_view() == so.vars
                &&& final(self).expr_storage.deep_view() == so.storage
                &&& final(self).proc_stack == old(self).proc_stack
                &&& final(self).global_stack == old(self).global_stack
                &&& final(self).reports == old(self).reports
                &&& final(self).exit_requested == old(self).exit_requested
            }),
    {
        let ghost s0 = self.expr_storage.deep_view();
        let ghost v0 = self.variable_stack.deep_view();
        let k = classify_symbol(sym.as_str());
        if matches!(k, SymKind::Assign) {
            if self.expr_storage.len() < 2 {
                return Err(SyntaxParseError::InvalidNumberOfArguments);
            }
            let a = self.expr_storage.pop().unwrap();
            let b = self.expr_storage.pop().unwrap();
            proof {
                assert(a@ == s0.last());
                assert(b@ == s0[s0.len() - 2]);
                assert(self.expr_storage.deep_view() =~= s0.drop_last().drop_last());
            }
            let var = match a {
                Tokens::Variable(v) => {
                    if lookup_var(&self.variable_stack, v.name.as_str()).is_some() {
                        return Err(SyntaxParseError::VarNameAlreadyExists);
                    }
                    v
                },
                _ => {
                    return Err(SyntaxParseError::InvalidExprStatement);
                },
            };
            let b1 = match resolve_fallback_exec(&self.variable_stack, &b) {
                Ok(x) => x,
                Err(e) => {
                    return Err(e);
                },
            };
            let ghost vars_before = self.variable_stack.deep_view();
            self.variable_stack.push(Variable { name: var.name, value: Some(b1) });
            proof {
                assert(self.variable_stack.deep_view() =~= vars_before.push(
                    VarV { name: var.name@, value: Some(b1) },
                ));
            }
            Ok(b1)
        } else if matches!(k, SymKind::NotSym) {
            if self.expr_storage.len() < 1 {
                return Err(SyntaxParseError::InvalidNumberOfArguments);
            }
            let a = self.expr_storage.pop().unwrap();
            proof {
                assert(a@ == s0.last());
                assert(self.expr_storage.deep_view() =~= s0.drop_last());
            }
            let av = match resolve_fallback_exec(&self.variable_stack, &a) {
                Ok(x) => x,
                Err(e) => {
                    return Err(e);
                },
            };
            let res: usize = if av == 0 {
                1
            } else {
                0
            };
            Ok(res)
        } else {
            self.sym_eval_ari_log_op(sym)
        }
    }
}

/// A run outcome with earlier signature reports put in front.
pub open spec fn with_reports(o: RunOut, pre: Seq<ProcV>) -> RunOut {
    RunOut { res: o.res, vars: o.vars, global: o.global, storage: o.storage, reports: pre + o.reports }
}

impl Engine {
    /// Drain the statement stack, evaluating postfix: literals and variables
    /// are operands, symbols apply to the most recent operands, and a
    /// procedure reference either reports its signature (when the statement
    /// is too short to call it) or is invoked.
    fn run(&mut self, fuel: u64) -> (r: Result<usize, SyntaxParseError>)
        ensures
            ({
                let out = spec_run_stmt(
                    old(self)@.procs,
                    old(self)@.vars,
                    old(self)@.global,
                    old(self)@.storage,
                    fuel as nat,
                );
                &&& r == out.res
                &&& final(self)@.vars == out.vars
                &&& final(self)@.global == out.global
                &&& final(self)@.storage == out.storage
                &&& final(self)@.reports == old(self)@.reports + out.reports
                &&& final(self).proc_stack == old(self).proc_stack
                &&& final(self).exit_requested == old(self).exit_requested
            }),
        decreases fuel, 1int,
    {
        let ghost out = spec_run_stmt(
            old(self)@.procs,
            old(self)@.vars,
            old(self)@.global,
            old(self)@.storage,
            fuel as nat,
        );
        let length = self.global_stack.len();
        let mut result: usize = 0;
        let mut produced: bool = false;
        let ghost mut racc: Seq<ProcV> = seq![];
        proof {
            let first = spec_run_loop(
                old(self)@.procs,
                old(self)@.vars,
                old(self)@.global,
                old(self)@.storage,
                length as int,
                0,
                false,
                fuel as nat,
            );
            assert(racc + first.reports =~= first.reports);
            assert(old(self)@.reports + racc =~= old(self)@.reports);
        }
        while self.global_stack.len() > 0
            invariant
                self.proc_stack == old(self).proc_stack,
                self.exit_requested == old(self).exit_requested,
                length == old(self)@.global.len(),
                self.reports.deep_view() == old(self)@.reports + racc,
                out == spec_run_stmt(
                    old(self)@.procs,
                    old(self)@.vars,
                    old(self)@.global,
                    old(self)@.storage,
                    fuel as nat,
                ),
                out == with_reports(
                    spec_run_loop(
                        old(self)@.procs,
                        self@.vars,
                        self@.global,
                        self@.storage,
                        length as int,
                        result,
                        produced,
                        fuel as nat,
                    ),
                    racc,
                ),
            decreases self.global_stack.len(),
        {
            let ghost vpre = self@.vars;
            let ghost gpre = self@.global;
            let ghost spre = self@.storage;
            let token = self.global_stack.pop().unwrap();
            proof {
                assert(token@ == gpre.last());
                assert(self.global_stack.deep_view() =~= gpre.drop_last());
            }
            match token {
                Tokens::Literal(l) => {
                    if length == 1 {
                        result = l.value;
                        produced = true;
                    } else {
                        self.expr_storage.push(Tokens::Literal(l));
                        proof {
                            assert(self@.storage =~= spre.push(TokV::Lit { value: l.value }));
                        }
                    }
                },
                Tokens::Symbol(s) => {
                    let ghost text = s@;
                    let sr = self.sym_eval(s);
                    proof {
                        let so = spec_sym_eval(vpre, spre, text);
                        assert(self@.vars == so.vars);
                    }
                    match sr {
                        Ok(v) => {
                            result = v;
                            produced = true;
                            self.expr_storage.push(Tokens::Literal(Literal { value: v }));
                            proof {
                                let so = spec_sym_eval(vpre, spre, text);
                                assert(self@.storage =~= so.storage.push(TokV::Lit { value: v }));
                            }
                        },
                        Err(e) => {
                            proof {
                                assert(racc + Seq::<ProcV>::empty() =~= racc);
                            }
                            return Err(e);
                        },
                    }
                },
                Tokens::Variable(v) => {
                    if length == 1 {
                        match lookup_var(&self.variable_stack, v.name.as_str()) {
                            Some(sv) => match sv.value {
                                Some(x) => {
                                    result = x;
                                    produced = true;
                                },
                                None => {
                                    proof {
                                        assert(racc + Seq::<ProcV>::empty() =~= racc);
                                    }
                                    return Err(SyntaxParseError::InvalidVariableName);
                                },
                            },
                            None => {
                                proof {
                                    assert(racc + Seq::<ProcV>::empty() =~= racc);
                                }
                                return Err(SyntaxParseError::InvalidVariableName);
                            },
                        }
                    }
                    let ghost vv = v@;
                    self.expr_storage.push(Tokens::Variable(v));
                    proof {
                        assert(self@.storage =~= spre.push(TokV::Var { var: vv }));
                    }
                },
                Tokens::Proc(p) => {
                    if length < 2 {
                        let ghost pv = p@;
                        let ghost racc0 = racc;
                        self.reports.push(p);
                        proof {
                            racc = racc0.push(pv);
                            assert(self.reports.deep_view() =~= (old(self)@.reports + racc0).push(
                                pv,
                            ));
                            assert((old(self)@.reports + racc0).push(pv) =~= old(self)@.reports
                                + racc0.push(pv));
                            assert(racc0 + seq![pv] =~= racc0.push(pv));
                        }
                        return Ok(0);
                    } else {
                        let ghost pv = p@;
                        let ghost racc0 = racc;
                        let pr = self.run_proc(p, fuel);
                        let ghost po = spec_run_proc(
                            old(self)@.procs,
                            vpre,
                            spre,
                            pv,
                            fuel as nat,
                        );
                        proof {
                            racc = racc0 + po.reports;
                            assert((old(self)@.reports + racc0) + po.reports =~= old(self)@.reports
                                + (racc0 + po.reports));
                        }
                        match pr {
                            Ok(v) => {
                                result = v;
                                produced = true;
                                self.expr_storage.push(Tokens::Literal(Literal { value: v }));
                                proof {
                                    assert(self@.storage =~= po.storage.push(
                                        TokV::Lit { value: v },
                                    ));
                                    let rest = spec_run_loop(
                                        old(self)@.procs,
                                        self@.vars,
                                        self@.global,
                                        self@.storage,
                                        length as int,
                                        result,
                                        produced,
                                        fuel as nat,
                                    );
                                    assert((racc0 + (po.reports + rest.reports)) =~= ((racc0
                                        + po.reports) + rest.reports));
                                }
                            },
                            Err(e) => {
                                return Err(e);
                            },
                        }
                    }
                },
                Tokens::Keyword => {},
            }
        }
        if length > 0 && self.expr_storage.len() > 1 {
            proof {
                assert(racc + Seq::<ProcV>::empty() =~= racc);
            }
            return Err(SyntaxParseError::InvalidExprStatement);
        }
        if length > 0 && !produced {
            proof {
                assert(racc + Seq::<ProcV>::empty() =~= racc);
            }
            return Err(SyntaxParseError::InvalidExprStatement);
        }
        proof {
            assert(racc + Seq::<ProcV>::empty() =~= racc);
        }
        Ok(result)
    }

    /// Invoke a procedure: pop and resolve one argument per parameter, then
    /// run the body, classified against the current procedure table, in a
    /// fresh context holding only the bound parameters and a copy of the
    /// table. Each call consumes one unit of recursion budget.
    fn run_proc(&mut self, p: Proc, fuel: u64) -> (r: Result<usize, SyntaxParseError>)
        ensures
            ({
                let po = spec_run_proc(
                    old(self)@.procs,
                    old(self)@.vars,
                    old(self)@.storage,
                    p@,
                    fuel as nat,
                );
                &&& r == po.res
                &&& final(self)@.storage == po.storage
                &&& final(self)@.reports == old(self)@.reports + po.reports
                &&& final(self).variable_stack == old(self).variable_stack
                &&& final(self).proc_stack == old(self).proc_stack
                &&& final(self).global_stack == old(self).global_stack
                &&& final(self).exit_requested == old(self).exit_requested
            }),
        decreases fuel, 0int,
    {
        let ghost po = spec_run_proc(
            old(self)@.procs,
            old(self)@.vars,
            old(self)@.storage,
            p@,
            fuel as nat,
        );
        if self.expr_storage.len() < p.param.len() {
            proof {
                assert(old(self)@.reports + Seq::<ProcV>::empty() =~= old(self)@.reports);
            }
            return Err(SyntaxParseError::InvalidNumberOfArguments);
        }
        let ghost s0 = self.expr_storage.deep_view();
        let mut bound: Vec<Variable> = Vec::new();
        let mut i: usize = 0;
        proof {
            assert(bound.deep_view() =~= Seq::<VarV>::empty());
        }
        while i < p.param.len()
            invariant
                0 <= i <= p.param.len(),
                p@.params.len() == p.param.len(),
                self.variable_stack == old(self).variable_stack,
                self.proc_stack == old(self).proc_stack,
                self.global_stack == old(self).global_stack,
                self.reports == old(self).reports,
                self.exit_requested == old(self).exit_requested,
                self@.storage.len() == s0.len() - i,
                s0.len() >= p.param.len(),
                s0 == old(self)@.storage,
                spec_bind_args(old(self)@.vars, s0, p@.params, 0, seq![]) == spec_bind_args(
                    old(self)@.vars,
                    self@.storage,
                    p@.params,
                    i as int,
                    bound.deep_view(),
                ),
            decreases p.param.len() - i,
        {
            let ghost spre = self@.storage;
            let t = self.expr_storage.pop().unwrap();
            proof {
                assert(t@ == spre.last());
                assert(self@.storage =~= spre.drop_last());
            }
            let val = match resolve_operand_exec(&self.variable_stack, &t) {
                Ok(v) => v,
                Err(e) => {
                    proof {
                        assert(old(self)@.reports + Seq::<ProcV>::empty() =~= old(self)@.reports);
                    }
                    return Err(e);
                },
            };
            let ghost bpre = bound.deep_view();
            let nm = p.param[i].name.clone();
            bound.push(Variable { name: nm, value: Some(val) });
            proof {
                assert(p@.params[i as int] == p.param@[i as int]@);
                assert(bound.deep_view() =~= bpre.push(
                    VarV { name: p.param@[i as int].name@, value: Some(val) },
                ));
            }
            i += 1;
        }
        if fuel == 0 {
            proof {
                assert(old(self)@.reports + Seq::<ProcV>::empty() =~= old(self)@.reports);
            }
            return Err(SyntaxParseError::RecursionLimitExceeded);
        }
        let ghost gspec = p@.body.map_values(
            |b: BTokV| body_tok_at_call(old(self)@.procs, b),
        ).reverse();
        let mut g: Vec<Tokens> = Vec::new();
        let mut j: usize = p.expr.len();
        proof {
            assert(g.deep_view() =~= gspec.take(0));
        }
        while j > 0
            invariant
                0 <= j <= p.expr.len(),
                p@.body.len() == p.expr.len(),
                gspec == p@.body.map_values(
                    |b: BTokV| body_tok_at_call(old(self)@.procs, b),
                ).reverse(),
                gspec.len() == p.expr.len(),
                self.variable_stack == old(self).variable_stack,
                self.proc_stack == old(self).proc_stack,
                self.global_stack == old(self).global_stack,
                self.reports == old(self).reports,
                self.exit_requested == old(self).exit_requested,
                g.deep_view() =~= gspec.take((p.expr.len() - j) as int),
            decreases j,
        {
            j -= 1;
            let ghost gpre = g.deep_view();
            let t = body_tok_call(&self.proc_stack, &p.expr[j]);
            g.push(t);
            proof {
                assert(p@.body[j as int] == p.expr@[j as int]@);
                assert(g.deep_view() =~= gpre.push(
                    body_tok_at_call(old(self)@.procs, p@.body[j as int]),
                ));
                assert(gspec[(p.expr.len() - 1 - j) as int] == body_tok_at_call(
                    old(self)@.procs,
                    p@.body[j as int],
                ));
                assert(g.deep_view() =~= gspec.take((p.expr.len() - j) as int));
            }
        }
        proof {
            assert(g.deep_view() =~= gspec);
        }
        let procs2 = procs_dup(&self.proc_stack);
        let mut nested = Engine {
            variable_stack: bound,
            proc_stack: procs2,
            global_stack: g,
            expr_storage: Vec::new(),
            reports: Vec::new(),
            exit_requested: false,
        };
        proof {
            assert(nested@.storage =~= Seq::<TokV>::empty());
            assert(nested@.reports =~= Seq::<ProcV>::empty());
        }
        let res = nested.run(fuel - 1);
        proof {
            let nout = spec_run_stmt(
                old(self)@.procs,
                nested@.vars,
                gspec,
                Seq::<TokV>::empty(),
                (fuel - 1) as nat,
            );
            assert(Seq::<ProcV>::empty() + nout.reports =~= nout.reports);
        }
        self.reports.append(&mut nested.reports);
        proof {
            assert(self.reports.deep_view() =~= old(self)@.reports + po.reports);
        }
        res
    }
}

/// The statement's first word is `Def`.
fn word_is_def(w: &str) -> (r: bool)
    ensures
        r == (w@ == kw_def()),
{
    proof {
        reveal_strlit("Def");
        assert("Def"@ =~= kw_def());
    }
    str_eq(w, "Def")
}

/// The word is the keyword `As`.
fn word_is_as(w: &str) -> (r: bool)
    ensures
        r == (w@ == kw_as()),
{
    proof {
        reveal_strlit("As");
        assert("As"@ =~= kw_as());
    }
    str_eq(w, "As")
}

/// The statement's first word is `Exit`.
fn word_is_exit(w: &str) -> (r: bool)
    ensures
        r == (w@ == kw_exit()),
{
    proof {
        reveal_strlit("Exit");
        assert("Exit"@ =~= kw_exit());
    }
    str_eq(w, "Exit")
}

/// The statement's first word is `If`.
fn word_is_if(w: &str) -> (r: bool)
    ensures
        r == (w@ == kw_if()),
{
    proof {
        reveal_strlit("If");
        assert("If"@ =~= kw_if());
    }
    str_eq(w, "If")
}

/// The word is the delimiter `Then`.
fn word_is_then(w: &str) -> (r: bool)
    ensures
        r == (w@ == kw_then()),
{
    proof {
        reveal_strlit("Then");
        assert("Then"@ =~= kw_then());
    }
    str_eq(w, "Then")
}

/// The word is the delimiter `Else`.
fn word_is_else(w: &str) -> (r: bool)
    ensures
        r == (w@ == kw_else()),
{
    proof {
        reveal_strlit("Else");
        assert("Else"@ =~= kw_else());
    }
    str_eq(w, "Else")
}

/// The word is the arrow `=>` of a procedure definition.
fn word_is_arrow(w: &str) -> (r: bool)
    ensures
        r == (w@ == arrow_sym()),
{
    proof {
        reveal_strlit("=>");
        assert("=>"@ =~= arrow_sym());
    }
    str_eq(w, "=>")
}

/// Copy a range of words.
fn copy_words(ws: &Vec<String>, from: usize, to: usize) -> (r: Vec<String>)
    requires
        from <= to <= ws@.len(),
    ensures
        r.deep_view() == ws.deep_view().subrange(from as int, to as int),
{
    let mut r: Vec<String> = Vec::new();
    let mut j: usize = from;
    proof {
        assert(r.deep_view() =~~= ws.deep_view().subrange(from as int, from as int));
    }
    while j < to
        invariant
            from <= j <= to <= ws@.len(),
            r.deep_view() =~~= ws.deep_view().subrange(from as int, j as int),
        decreases to - j,
    {
        let ghost dv0 = r.deep_view();
        r.push(ws[j].clone());
        proof {
            assert(r.deep_view() =~~= dv0.push(ws.deep_view()[j as int]));
            assert(r.deep_view() =~~= ws.deep_view().subrange(from as int, j as int + 1));
        }
        j += 1;
    }
    r
}

impl Engine {
    /// Classify every word of a plain expression statement, from the last
    /// word backward, into a fresh statement stack; on success it replaces
    /// the current one.
    #[verifier::loop_isolation(false)]
    fn syntax_parse_expr(&mut self, statement: Vec<String>) -> (r: Result<(), SyntaxParseError>)
        ensures
            ({
                let pr = spec_parse_expr(
                    old(self)@.procs,
                    old(self)@.vars,
                    statement.deep_view(),
                );
                &&& (match pr {
                    Ok(toks) => r == Ok::<(), SyntaxParseError>(()) && final(self)@.global == toks,
                    Err(e) => r == Err::<(), SyntaxParseError>(e) && final(self).global_stack
                        == old(self).global_stack,
                })
                &&& final(self).variable_stack == old(self).variable_stack
                &&& final(self).proc_stack == old(self).proc_stack
                &&& final(self).expr_storage == old(self).expr_storage
                &&& final(self).reports == old(self).reports
                &&& final(self).exit_requested == old(self).exit_requested
            }),
    {
        let ghost words0 = statement.deep_view();
        let mut statement = statement;
        let mut stack: Vec<Tokens> = Vec::new();
        proof {
            assert(stack.deep_view() =~= Seq::<TokV>::empty());
            if spec_parse_expr(self@.procs, self@.vars, words0) is Ok {
                assert(stack.deep_view() + spec_parse_expr(self@.procs, self@.vars, words0)->Ok_0
                    =~= spec_parse_expr(self@.procs, self@.vars, words0)->Ok_0);
            }
        }
        while statement.len() > 0
            invariant
                self == old(self),
                (match spec_parse_expr(old(self)@.procs, old(self)@.vars, words0) {
                    Ok(toks) => spec_parse_expr(
                        old(self)@.procs,
                        old(self)@.vars,
                        statement.deep_view(),
                    ) matches Ok(s) && toks == stack.deep_view() + s,
                    Err(e) => spec_parse_expr(
                        old(self)@.procs,
                        old(self)@.vars,
                        statement.deep_view(),
                    ) == Err::<Seq<TokV>, SyntaxParseError>(e),
                }),
            decreases statement.len(),
        {
            let ghost wpre = statement.deep_view();
            let w = statement.pop().unwrap();
            proof {
                assert(w@ == wpre.last());
                assert(statement.deep_view() =~~= wpre.drop_last());
            }
            match classify_word(&self.proc_stack, &self.variable_stack, w.as_str()) {
                Ok(t) => {
                    let ghost spre = stack.deep_view();
                    stack.push(t);
                    proof {
                        assert(stack.deep_view() =~= spre.push(t@));
                        let pr2 = spec_parse_expr(
                            old(self)@.procs,
                            old(self)@.vars,
                            statement.deep_view(),
                        );
                        if pr2 is Ok {
                            assert(spre + (seq![t@] + pr2->Ok_0) =~= spre.push(t@) + pr2->Ok_0);
                        }
                    }
                },
                Err(e) => {
                    return Err(e);
                },
            }
        }
        proof {
            let pr2 = spec_parse_expr(old(self)@.procs, old(self)@.vars, statement.deep_view());
            if pr2 is Ok {
                assert(stack.deep_view() + pr2->Ok_0 =~= stack.deep_view());
            }
        }
        self.global_stack = stack;
        Ok(())
    }

    /// Classify the words of a procedure body, from `from` on, in source
    /// order; names stay placeholders to be resolved at call time.
    #[verifier::loop_isolation(false)]
    fn parse_proc_body(&self, statement: &Vec<String>, from: usize) -> (r: Result<
        Vec<BodyTok>,
        SyntaxParseError,
    >)
        requires
            from <= statement.deep_view().len(),
        ensures
            ({
                let pr = spec_parse_body(self@.vars, statement.deep_view(), from as int, seq![]);
                match pr {
                    Ok(body) => r matches Ok(b) && b.deep_view() == body,
                    Err(e) => r == Err::<Vec<BodyTok>, SyntaxParseError>(e),
                }
            }),
    {
        let ghost words = statement.deep_view();
        let mut body: Vec<BodyTok> = Vec::new();
        let mut j: usize = from;
        proof {
            assert(body.deep_view() =~= Seq::<BTokV>::empty());
        }
        while j < statement.len()
            invariant
                from <= j <= statement.len(),
                spec_parse_body(self@.vars, words, from as int, seq![]) == spec_parse_body(
                    self@.vars,
                    words,
                    j as int,
                    body.deep_view(),
                ),
            decreases statement.len() - j,
        {
            match classify_body_word(&self.variable_stack, statement[j].as_str()) {
                Ok(t) => {
                    let ghost bpre = body.deep_view();
                    body.push(t);
                    proof {
                        assert(body.deep_view() =~= bpre.push(t@));
                    }
                },
                Err(e) => {
                    return Err(e);
                },
            }
            j += 1;
        }
        Ok(body)
    }

    /// Parse a procedure definition and register it. A failed definition
    /// registers nothing.
    #[verifier::loop_isolation(false)]
    fn syntax_parse_proc(&mut self, statement: Vec<String>) -> (r: Result<(), SyntaxParseError>)
        ensures
            ({
                let pr = spec_parse_proc(old(self)@.procs, old(self)@.vars, statement.deep_view());
                &&& (match pr {
                    Ok(pv) => r == Ok::<(), SyntaxParseError>(()) && final(self)@.procs == old(
                        self,
                    )@.procs.push(pv),
                    Err(e) => r == Err::<(), SyntaxParseError>(e) && final(self).proc_stack == old(
                        self,
                    ).proc_stack,
                })
                &&& final(self).variable_stack == old(self).variable_stack
                &&& final(self).global_stack == old(self).global_stack
                &&& final(self).expr_storage == old(self).expr_storage
                &&& final(self).reports == old(self).reports
                &&& final(self).exit_requested == old(self).exit_requested
            }),
    {
        let ghost words = statement.deep_view();
        if statement.len() < 2 {
            return Err(SyntaxParseError::InvalidProcDefStatement);
        }
        if !Proc::is_valid_proc_name(statement[1].as_str()) {
            return Err(SyntaxParseError::InvalidProcName);
        }
        if lookup_proc(&self.proc_stack, statement[1].as_str()).is_some() || lookup_var(
            &self.variable_stack,
            statement[1].as_str(),
        ).is_some() {
            return Err(SyntaxParseError::ProcNameAlreadyExists);
        }
        if statement.len() < 3 {
            return Err(SyntaxParseError::InvalidProcDefStatement);
        }
        if !word_is_as(statement[2].as_str()) {
            return Err(SyntaxParseError::InvalidProcDefStatement);
        }
        let mut args: Vec<Parameter> = Vec::new();
        let mut i: usize = 3;
        proof {
            assert(args.deep_view() =~= Seq::<VarV>::empty());
        }
        while i < statement.len() && !word_is_arrow(statement[i].as_str())
            invariant
                3 <= i <= statement.len(),
                words == statement.deep_view(),
                spec_collect_params(words, 3, seq![]) == spec_collect_params(
                    words,
                    i as int,
                    args.deep_view(),
                ),
            decreases statement.len() - i,
        {
            if !Variable::is_valid_var_name(statement[i].as_str()) {
                return Err(SyntaxParseError::InvalidVariableName);
            }
            let ghost apre = args.deep_view();
            args.push(Parameter { name: statement[i].clone(), value: None });
            proof {
                assert(args.deep_view() =~= apre.push(VarV { name: words[i as int], value: None }));
            }
            i += 1;
        }
        if i >= statement.len() {
            return Err(SyntaxParseError::InvalidProcDefStatement);
        }
        if i + 1 >= statement.len() {
            return Err(SyntaxParseError::InvalidProcDefStatement);
        }
        let body_start = i + 1;
        let body = match self.parse_proc_body(&statement, body_start) {
            Ok(b) => b,
            Err(e) => {
                return Err(e);
            },
        };
        let name = statement[1].clone();
        let ghost procs0 = self@.procs;
        let proc = Proc { name, param: args, expr: body };
        self.proc_stack.push(proc);
        proof {
            assert(self@.procs =~= procs0.push(
                spec_parse_proc(old(self)@.procs, old(self)@.vars, words)->Ok_0,
            ));
        }
        Ok(())
    }
}

/// The recursion budget for procedure calls and the conditional's nested
/// statements. A statement that nests deeper fails with
/// `RecursionLimitExceeded`.
pub const RECURSION_BUDGET: u64 = 512;

impl Engine {
    /// An `If <cond...> Then <branch...> Else <branch...>` statement: the
    /// words before the first `Then` are evaluated at once as the condition,
    /// and exactly one branch — the first if the condition is positive, the
    /// second otherwise — is dispatched through the full statement grammar.
    /// The working stack is cleared after the condition, so the chosen
    /// branch is evaluated as its own expression.
    #[verifier::loop_isolation(false)]
    #[verifier::rlimit(80)]
    fn syntax_parse_if_cond(&mut self, statement: Vec<String>, fuel: u64) -> (r: Result<
        (),
        SyntaxParseError,
    >)
        requires
            statement.deep_view().len() > 0,
            statement.deep_view()[0] == kw_if(),
        ensures
            ({
                let out = spec_parse(
                    old(self)@.procs,
                    old(self)@.vars,
                    old(self)@.global,
                    old(self)@.storage,
                    statement.deep_view(),
                    fuel as nat,
                );
                &&& r == out.res
                &&& final(self)@.procs == out.procs
                &&& final(self)@.vars == out.vars
                &&& final(self)@.global == out.global
                &&& final(self)@.storage == out.storage
                &&& final(self)@.reports == old(self)@.reports + out.reports
                &&& final(self).exit_requested == (old(self).exit_requested || out.exit)
            }),
        decreases statement.deep_view().len(), 0int,
    {
        let ghost words = statement.deep_view();
        let n = statement.len();
        let mut i: usize = 1;
        while i < n && !word_is_then(statement[i].as_str())
            invariant
                1 <= i <= n,
                forall|j: int| 1 <= j < i ==> words[j] != kw_then(),
            decreases n - i,
        {
            i += 1;
        }
        let cond = copy_words(&statement, 1, i);
        let ghost after = drop_until(words.skip(1), kw_then());
        let astart: usize = if i < n {
            i + 1
        } else {
            n
        };
        proof {
            lemma_until_at(words.skip(1), kw_then(), i - 1);
            assert(words.skip(1).take(i - 1) =~~= words.subrange(1, i as int));
            if i < n {
                assert(words.skip(1).skip(i as int) =~~= words.skip(astart as int));
            } else {
                assert(after =~~= words.skip(astart as int));
            }
        }
        let mut e2: usize = astart;
        while e2 < n && !word_is_else(statement[e2].as_str())
            invariant
                astart <= e2 <= n,
                forall|j: int| astart <= j < e2 ==> words[j] != kw_else(),
            decreases n - e2,
        {
            e2 += 1;
        }
        let if_vec = copy_words(&statement, astart, e2);
        let else_vec: Vec<String> = if e2 < n {
            copy_words(&statement, e2 + 1, n)
        } else {
            Vec::new()
        };
        proof {
            assert(after.len() == n - astart);
            lemma_until_at(after, kw_else(), e2 - astart);
            assert(after.take(e2 - astart) =~~= words.subrange(astart as int, e2 as int));
            if e2 < n {
                assert(after.skip(e2 - astart + 1) =~~= words.skip(e2 as int + 1));
            } else {
                assert(else_vec.deep_view() =~~= drop_until(after, kw_else()));
            }
        }
        match self.syntax_parse_expr(cond) {
            Ok(_u) => {},
            Err(e) => {
                proof {
                    assert(old(self)@.reports + Seq::<ProcV>::empty() =~= old(self)@.reports);
                }
                return Err(e);
            },
        }
        let ghost ro = spec_run_stmt(
            old(self)@.procs,
            old(self)@.vars,
            self@.global,
            old(self)@.storage,
            fuel as nat,
        );
        let cres = match self.run(fuel) {
            Ok(v) => v,
            Err(e) => {
                return Err(e);
            },
        };
        self.expr_storage.clear();
        proof {
            assert(self@.storage =~= Seq::<TokV>::empty());
        }
        let branch: Vec<String> = if cres > 0 {
            if_vec
        } else {
            else_vec
        };
        let rr = self.syntax_parse_words(branch, fuel);
        proof {
            let po = spec_parse(
                old(self)@.procs,
                ro.vars,
                ro.global,
                Seq::<TokV>::empty(),
                branch.deep_view(),
                fuel as nat,
            );
            assert((old(self)@.reports + ro.reports) + po.reports =~= old(self)@.reports
                + (ro.reports + po.reports));
        }
        rr
    }

    /// Dispatch one tokenized statement on its first word.
    fn syntax_parse_words(&mut self, statement: Vec<String>, fuel: u64) -> (r: Result<
        (),
        SyntaxParseError,
    >)
        ensures
            ({
                let out = spec_parse(
                    old(self)@.procs,
                    old(self)@.vars,
                    old(self)@.global,
                    old(self)@.storage,
                    statement.deep_view(),
                    fuel as nat,
                );
                &&& r == out.res
                &&& final(self)@.procs == out.procs
                &&& final(self)@.vars == out.vars
                &&& final(self)@.global == out.global
                &&& final(self)@.storage == out.storage
                &&& final(self)@.reports == old(self)@.reports + out.reports
                &&& final(self).exit_requested == (old(self).exit_requested || out.exit)
            }),
        decreases statement.deep_view().len(), 1int,
    {
        proof {
            assert(old(self)@.reports + Seq::<ProcV>::empty() =~= old(self)@.reports);
        }
        if statement.len() == 0 {
            return Ok(());
        }
        if statement[0].as_str().is_empty() {
            return Ok(());
        }
        if word_is_def(statement[0].as_str()) {
            let rr = self.syntax_parse_proc(statement);
            return rr;
        }
        if word_is_exit(statement[0].as_str()) {
            self.exit_requested = true;
            return Ok(());
        }
        if word_is_if(statement[0].as_str()) {
            return self.syntax_parse_if_cond(statement, fuel);
        }
        let lit0 = Literal::is_literal(statement[0].as_str());
        let name0 = Variable::is_valid_var_name(statement[0].as_str());
        if lit0 || name0 {
            let rr = self.syntax_parse_expr(statement);
            return rr;
        }
        Err(SyntaxParseError::InvalidExprStatement)
    }

    /// Tokenize one line and dispatch it as a statement.
    pub fn syntax_parse(&mut self, statement: &str) -> (r: Result<(), SyntaxParseError>)
        ensures
            ({
                let out = spec_parse(
                    old(self)@.procs,
                    old(self)@.vars,
                    old(self)@.global,
                    old(self)@.storage,
                    words_of(statement@),
                    RECURSION_BUDGET as nat,
                );
                &&& r == out.res
                &&& final(self)@.procs == out.procs
                &&& final(self)@.vars == out.vars
                &&& final(self)@.global == out.global
                &&& final(self)@.storage == out.storage
                &&& final(self)@.reports == old(self)@.reports + out.reports
                &&& final(self).exit_requested == (old(self).exit_requested || out.exit)
            }),
    {
        let words = tokenize(statement);
        self.syntax_parse_words(words, RECURSION_BUDGET)
    }
}

/// The interpreter session: parse a statement, evaluate it, read the
/// result, and reset the per-statement state before the next line.
pub struct ExprLang {
    pub engine: Engine,
}

impl View for ExprLang {
    type V = EngineV;

    open spec fn view(&self) -> EngineV {
        self.engine@
    }
}

impl ExprLang {
    /// A fresh session: no bindings, no procedures, nothing to evaluate.
    pub fn new() -> (r: Self)
        ensures
            r@.vars == Seq::<VarV>::empty(),
            r@.procs == Seq::<ProcV>::empty(),
            r@.global == Seq::<TokV>::empty(),
            r@.storage == Seq::<TokV>::empty(),
            r@.reports == Seq::<ProcV>::empty(),
            r@.exit == false,
    {
        let r = Self {
            engine: Engine {
                variable_stack: Vec::new(),
                proc_stack: Vec::new(),
                global_stack: Vec::new(),
                expr_storage: Vec::new(),
                reports: Vec::new(),
                exit_requested: false,
            },
        };
        proof {
            assert(r@.vars =~= Seq::<VarV>::empty());
            assert(r@.procs =~= Seq::<ProcV>::empty());
            assert(r@.global =~= Seq::<TokV>::empty());
            assert(r@.storage =~= Seq::<TokV>::empty());
            assert(r@.reports =~= Seq::<ProcV>::empty());
        }
        r
    }

    /// Tokenize and dispatch one statement line.
    pub fn parse_syntax_stack(&mut self, statement: &str) -> (r: Result<(), SyntaxParseError>)
        ensures
            ({
                let out = spec_parse(
                    old(self)@.procs,
                    old(self)@.vars,
                    old(self)@.global,
                    old(self)@.storage,
                    words_of(statement@),
                    RECURSION_BUDGET as nat,
                );
                &&& r == out.res
                &&& final(self)@.procs == out.procs
                &&& final(self)@.vars == out.vars
                &&& final(self)@.global == out.global
                &&& final(self)@.storage == out.storage
                &&& final(self)@.reports == old(self)@.reports + out.reports
                &&& final(self)@.exit == (old(self)@.exit || out.exit)
            }),
    {
        self.engine.syntax_parse(statement)
    }

    /// Evaluate the parsed statement stack and yield its numeric result.
    pub fn eval(&mut self) -> (r: Result<usize, SyntaxParseError>)
        ensures
            ({
                let out = spec_run_stmt(
                    old(self)@.procs,
                    old(self)@.vars,
                    old(self)@.global,
                    old(self)@.storage,
                    RECURSION_BUDGET as nat,
                );
                &&& r == out.res
                &&& final(self)@.vars == out.vars
                &&& final(self)@.global == out.global
                &&& final(self)@.storage == out.storage
                &&& final(self)@.reports == old(self)@.reports + out.reports
                &&& final(self)@.procs == old(self)@.procs
                &&& final(self)@.exit == old(self)@.exit
            }),
    {
        self.engine.run(RECURSION_BUDGET)
    }

    /// Clear the per-statement state: the statement stack, the working
    /// stack, and any reported signatures. Bindings and procedures persist.
    pub fn reset(&mut self)
        ensures
            final(self)@.vars == old(self)@.vars,
            final(self)@.procs == old(self)@.procs,
            final(self)@.global == Seq::<TokV>::empty(),
            final(self)@.storage == Seq::<TokV>::empty(),
            final(self)@.reports == Seq::<ProcV>::empty(),
            final(self)@.exit == old(self)@.exit,
    {
        self.engine.global_stack.clear();
        self.engine.expr_storage.clear();
        self.engine.reports.clear();
        proof {
            assert(self@.global =~= Seq::<TokV>::empty());
            assert(self@.storage =~= Seq::<TokV>::empty());
            assert(self@.reports =~= Seq::<ProcV>::empty());
        }
    }

    /// Whether an `Exit` statement has been read.
    pub fn exit_requested(&self) -> (r: bool)
        ensures
            r == self@.exit,
    {
        self.engine.exit_requested
    }

    /// The procedure signatures reported by the last evaluation.
    pub fn reports(&self) -> (r: &Vec<Proc>)
        ensures
            r.deep_view() == self@.reports,
    {
        &self.engine.reports
    }
}

/// Well-formed bindings: variable names are distinct and every variable
/// carries a value.
pub open spec fn vars_wf(vars: Seq<VarV>) -> bool {
    &&& forall|i: int, j: int| 0 <= i < j < vars.len() ==> vars[i].name != vars[j].name
    &&& forall|i: int| 0 <= i < vars.len() ==> vars[i].value is Some
}

/// A name has no binding exactly when it occurs nowhere among the bindings.
pub proof fn lemma_lookup_none(vars: Seq<VarV>, name: Seq<char>)
    ensures
        var_lookup(vars, name) is None <==> (forall|i: int|
            0 <= i < vars.len() ==> vars[i].name != name),
    decreases vars.len(),
{
    if vars.len() > 0 {
        lemma_lookup_none(vars.drop_last(), name);
        if vars.last().name != name {
            assert(forall|i: int|
                0 <= i < vars.len() - 1 ==> vars.drop_last()[i] == vars[i]);
        }
    }
}

proof fn lemma_prefix_trans<T>(a: Seq<T>, b: Seq<T>, c: Seq<T>)
    requires
        a.is_prefix_of(b),
        b.is_prefix_of(c),
    ensures
        a.is_prefix_of(c),
{
    assert(c.subrange(0, a.len() as int) =~= b.subrange(0, a.len() as int));
    assert(b.subrange(0, a.len() as int) =~= b.subrange(0, b.len() as int).subrange(
        0,
        a.len() as int,
    ));
}

/// Assignment is single-use: with the name already bound, assignment fails
/// with a name collision and the bindings do not change.
pub proof fn lemma_rebinding_rejected(
    vars: Seq<VarV>,
    storage: Seq<TokV>,
    sym: Seq<char>,
    var: VarV,
)
    requires
        sym_kind(sym) == SymKind::Assign,
        storage.len() >= 2,
        storage.last() == (TokV::Var { var }),
        var_lookup(vars, var.name) is Some,
    ensures
        spec_sym_eval(vars, storage, sym).res == Err::<usize, SyntaxParseError>(
            SyntaxParseError::VarNameAlreadyExists,
        ),
        spec_sym_eval(vars, storage, sym).vars == vars,
{
}

/// Applying a symbol only ever appends a binding; it never changes or drops
/// an existing one, and it keeps the bindings well formed.
pub proof fn lemma_sym_eval_appends(vars: Seq<VarV>, storage: Seq<TokV>, sym: Seq<char>)
    ensures
        vars.is_prefix_of(spec_sym_eval(vars, storage, sym).vars),
        vars_wf(vars) ==> vars_wf(spec_sym_eval(vars, storage, sym).vars),
{
    let out = spec_sym_eval(vars, storage, sym);
    assert(vars.is_prefix_of(vars)) by {
        assert(vars.subrange(0, vars.len() as int) =~= vars);
    }
    if out.vars != vars {
        let var = storage.last()->Var_var;
        assert(vars.is_prefix_of(out.vars)) by {
            assert(out.vars.subrange(0, vars.len() as int) =~= vars);
        }
        if vars_wf(vars) {
            lemma_lookup_none(vars, var.name);
        }
    }
}

/// One evaluator pass only ever appends bindings: every binding made before
/// it survives it unchanged, and well-formed bindings stay well formed.
pub proof fn lemma_run_appends(
    procs: Seq<ProcV>,
    vars: Seq<VarV>,
    global: Seq<TokV>,
    storage: Seq<TokV>,
    length: int,
    result: usize,
    produced: bool,
    fuel: nat,
)
    ensures
        vars.is_prefix_of(spec_run_loop(procs, vars, global, storage, length, result, produced, fuel).vars),
        vars_wf(vars) ==> vars_wf(
            spec_run_loop(procs, vars, global, storage, length, result, produced, fuel).vars,
        ),
    decreases fuel, global.len(),
{
    assert(vars.is_prefix_of(vars)) by {
        assert(vars.subrange(0, vars.len() as int) =~= vars);
    }
    if global.len() > 0 {
        let t = global.last();
        let g2 = global.drop_last();
        match t {
            TokV::Lit { value } => {
                if length == 1 {
                    lemma_run_appends(procs, vars, g2, storage, length, value, true, fuel);
                } else {
                    lemma_run_appends(procs, vars, g2, storage.push(t), length, result, produced, fuel);
                }
            },
            TokV::Kw => {
                lemma_run_appends(procs, vars, g2, storage, length, result, produced, fuel);
            },
            TokV::Sym { text } => {
                let so = spec_sym_eval(vars, storage, text);
                lemma_sym_eval_appends(vars, storage, text);
                if so.res is Ok {
                    let v = so.res->Ok_0;
                    lemma_run_appends(
                        procs,
                        so.vars,
                        g2,
                        so.storage.push(TokV::Lit { value: v }),
                        length,
                        v,
                        true,
                        fuel,
                    );
                    lemma_prefix_trans(
                        vars,
                        so.vars,
                        spec_run_loop(
                            procs,
                            so.vars,
                            g2,
                            so.storage.push(TokV::Lit { value: v }),
                            length,
                            v,
                            true,
                            fuel,
                        ).vars,
                    );
                }
            },
            TokV::Var { var } => {
                if length == 1 {
                    match var_lookup(vars, var.name) {
                        Some(sv) => {
                            if sv.value is Some {
                                lemma_run_appends(
                                    procs,
                                    vars,
                                    g2,
                                    storage.push(t),
                                    length,
                                    sv.value->0,
                                    true,
                                    fuel,
                                );
                            }
                        },
                        None => {},
                    }
                } else {
                    lemma_run_appends(procs, vars, g2, storage.push(t), length, result, produced, fuel);
                }
            },
            TokV::ProcT { proc } => {
                if length >= 2 {
                    let po = spec_run_proc(procs, vars, storage, proc, fuel);
                    if po.res is Ok {
                        let v = po.res->Ok_0;
                        lemma_run_appends(
                            procs,
                            vars,
                            g2,
                            po.storage.push(TokV::Lit { value: v }),
                            length,
                            v,
                            true,
                            fuel,
                        );
                    }
                }
            },
        }
    }
}

/// Parsing a statement only ever appends bindings and procedures: existing
/// bindings and registered procedures survive every statement, failed or
/// not, and a failed definition registers nothing.
pub proof fn lemma_parse_appends(
    procs: Seq<ProcV>,
    vars: Seq<VarV>,
    global: Seq<TokV>,
    storage: Seq<TokV>,
    words: Seq<Seq<char>>,
    fuel: nat,
)
    ensures
        vars.is_prefix_of(spec_parse(procs, vars, global, storage, words, fuel).vars),
        procs.is_prefix_of(spec_parse(procs, vars, global, storage, words, fuel).procs),
        vars_wf(vars) ==> vars_wf(spec_parse(procs, vars, global, storage, words, fuel).vars),
    decreases words.len(),
{
    assert(vars.is_prefix_of(vars)) by {
        assert(vars.subrange(0, vars.len() as int) =~= vars);
    }
    assert(procs.is_prefix_of(procs)) by {
        assert(procs.subrange(0, procs.len() as int) =~= procs);
    }
    let out = spec_parse(procs, vars, global, storage, words, fuel);
    if words.len() == 0 || words[0].len() == 0 {
    } else if words[0] == kw_def() {
        if spec_parse_proc(procs, vars, words) is Ok {
            let p = spec_parse_proc(procs, vars, words)->Ok_0;
            assert(procs.is_prefix_of(procs.push(p))) by {
                assert(procs.push(p).subrange(0, procs.len() as int) =~= procs);
            }
        }
    } else if words[0] == kw_exit() {
    } else if words[0] == kw_if() {
        let rest = words.skip(1);
        let cond = take_until(rest, kw_then());
        let after = drop_until(rest, kw_then());
        let if_words = take_until(after, kw_else());
        let else_words = drop_until(after, kw_else());
        lemma_take_until_len(rest, kw_then());
        lemma_take_until_len(after, kw_else());
        match spec_parse_expr(procs, vars, cond) {
            Err(_e) => {},
            Ok(toks) => {
                let ro = spec_run_stmt(procs, vars, toks, storage, fuel);
                lemma_run_appends(procs, vars, toks, storage, toks.len() as int, 0, false, fuel);
                match ro.res {
                    Err(_e) => {},
                    Ok(c) => {
                        let branch = if c > 0 {
                            if_words
                        } else {
                            else_words
                        };
                        lemma_parse_appends(procs, ro.vars, ro.global, seq![], branch, fuel);
                        let po = spec_parse(procs, ro.vars, ro.global, seq![], branch, fuel);
                        lemma_prefix_trans(vars, ro.vars, po.vars);
                    },
                }
            },
        }
    } else {
    }
}

/// The conditional selects exactly one branch and never evaluates the
/// other: two `If` statements with the same condition, evaluated in the
/// same state, have the same outcome whenever the branch the condition
/// selects is the same — whatever stands in the branch not taken.
pub proof fn lemma_if_untaken_branch_irrelevant(
    procs: Seq<ProcV>,
    vars: Seq<VarV>,
    global: Seq<TokV>,
    storage: Seq<TokV>,
    words1: Seq<Seq<char>>,
    words2: Seq<Seq<char>>,
    fuel: nat,
)
    requires
        words1.len() > 0 && words1[0] == kw_if(),
        words2.len() > 0 && words2[0] == kw_if(),
        take_until(words1.skip(1), kw_then()) == take_until(words2.skip(1), kw_then()),
        ({
            let cond = take_until(words1.skip(1), kw_then());
            match spec_parse_expr(procs, vars, cond) {
                Err(_e) => true,
                Ok(toks) => {
                    let ro = spec_run_stmt(procs, vars, toks, storage, fuel);
                    match ro.res {
                        Err(_e) => true,
                        Ok(c) => if c > 0 {
                            take_until(drop_until(words1.skip(1), kw_then()), kw_else())
                                == take_until(drop_until(words2.skip(1), kw_then()), kw_else())
                        } else {
                            drop_until(drop_until(words1.skip(1), kw_then()), kw_else())
                                == drop_until(drop_until(words2.skip(1), kw_then()), kw_else())
                        },
                    }
                },
            }
        }),
    ensures
        spec_parse(procs, vars, global, storage, words1, fuel) == spec_parse(
            procs,
            vars,
            global,
            storage,
            words2,
            fuel,
        ),
{
}

/// An empty line is a no-op: no error, no change of state.
pub proof fn lemma_empty_line_no_op(
    procs: Seq<ProcV>,
    vars: Seq<VarV>,
    global: Seq<TokV>,
    storage: Seq<TokV>,
    words: Seq<Seq<char>>,
    fuel: nat,
)
    requires
        words.len() == 0 || words[0].len() == 0,
    ensures
        spec_parse(procs, vars, global, storage, words, fuel) == (ParseOut {
            res: Ok::<(), SyntaxParseError>(()),
            procs,
            vars,
            global,
            storage,
            reports: Seq::<ProcV>::empty(),
            exit: false,
        }),
{
    let none: Seq<ProcV> = seq![];
    assert(Seq::<ProcV>::empty() =~= none);
}

/// A line that is all whitespace tokenizes to one empty word.
pub proof fn lemma_blank_line_words(s: Seq<char>)
    requires
        trim_spec(s) == Seq::<char>::empty(),
    ensures
        words_of(s) == seq![Seq::<char>::empty()],
{
    let e = Seq::<char>::empty();
    assert(split_spaces(e) == split_acc(e, e));
    assert(split_acc(e, e) == seq![e]);
    assert(trim_left_spec(e) == e);
    assert(trim_right_spec(e) == e);
    assert(seq![e].map_values(|w: Seq<char>| trim_spec(w)) =~~= seq![e]);
}

/// A blank line is a no-op statement: no error, no change of state.
pub proof fn lemma_blank_line_no_op(
    procs: Seq<ProcV>,
    vars: Seq<VarV>,
    global: Seq<TokV>,
    storage: Seq<TokV>,
    s: Seq<char>,
    fuel: nat,
)
    requires
        trim_spec(s) == Seq::<char>::empty(),
    ensures
        spec_parse(procs, vars, global, storage, words_of(s), fuel) == (ParseOut {
            res: Ok::<(), SyntaxParseError>(()),
            procs,
            vars,
            global,
            storage,
            reports: Seq::<ProcV>::empty(),
            exit: false,
        }),
{
    lemma_blank_line_words(s);
    lemma_empty_line_no_op(procs, vars, global, storage, words_of(s), fuel);
}

/// Evaluating a lone reference to an unbound variable always fails with the
/// invalid-variable error and leaves the bindings unchanged.
pub proof fn lemma_unbound_variable_rejected(
    procs: Seq<ProcV>,
    vars: Seq<VarV>,
    storage: Seq<TokV>,
    var: VarV,
    fuel: nat,
)
    requires
        var_lookup(vars, var.name) is None || (var_lookup(vars, var.name) is Some && var_lookup(
            vars,
            var.name,
        )->Some_0.value is None),
    ensures
        spec_run_stmt(procs, vars, seq![TokV::Var { var }], storage, fuel).res == Err::<
            usize,
            SyntaxParseError,
        >(SyntaxParseError::InvalidVariableName),
        spec_run_stmt(procs, vars, seq![TokV::Var { var }], storage, fuel).vars == vars,
{
    let g = seq![TokV::Var { var }];
    assert(g.last() == TokV::Var { var });
    assert(g.len() == 1);
}

/// A binary operator kind: one that pops exactly two operands.
pub open spec fn is_bin_kind(k: SymKind) -> bool {
    match k {
        SymKind::Add | SymKind::Sub | SymKind::Mul | SymKind::Div | SymKind::Mod | SymKind::EqSym
            | SymKind::NeSym | SymKind::GtSym | SymKind::GeSym | SymKind::LtSym | SymKind::LeSym
            | SymKind::AndSym | SymKind::OrSym => true,
        _ => false,
    }
}

/// A token sequence made only of literals and binary symbols.
pub open spec fn lits_and_bin_syms(ts: Seq<TokV>) -> bool {
    forall|i: int|
        0 <= i < ts.len() ==> match #[trigger] ts[i] {
            TokV::Lit { value } => true,
            TokV::Sym { text } => is_bin_kind(sym_kind(text)),
            _ => false,
        }
}

/// A stack of values as literal tokens.
pub open spec fn lits_of(stack: Seq<usize>) -> Seq<TokV> {
    stack.map_values(|v: usize| TokV::Lit { value: v })
}

/// Conventional postfix evaluation over a value stack, reading the tokens
/// in source order: a literal is pushed, and a binary symbol replaces the
/// two most recent values with its result (the most recent popped first).
/// `None` marks an arity error or an arithmetic fault.
pub open spec fn rpn_fold(stack: Seq<usize>, ts: Seq<TokV>) -> Option<Seq<usize>>
    decreases ts.len(),
{
    if ts.len() == 0 {
        Some(stack)
    } else {
        match ts[0] {
            TokV::Lit { value } => rpn_fold(stack.push(value), ts.drop_first()),
            TokV::Sym { text } => if stack.len() >= 2 {
                match spec_binop(sym_kind(text), stack.last(), stack[stack.len() - 2]) {
                    Ok(v) => rpn_fold(stack.take(stack.len() - 2).push(v), ts.drop_first()),
                    Err(_e) => None,
                }
            } else {
                None
            },
            _ => None,
        }
    }
}

proof fn lemma_rpn_loop(
    procs: Seq<ProcV>,
    vars: Seq<VarV>,
    ts: Seq<TokV>,
    stack: Seq<usize>,
    length: int,
    result: usize,
    produced: bool,
    fuel: nat,
)
    requires
        length >= 2,
        lits_and_bin_syms(ts),
        rpn_fold(stack, ts) is Some,
        rpn_fold(stack, ts)->Some_0.len() == 1,
        ts.len() == 0 ==> produced && stack == seq![result],
        ts.len() > 0 ==> ts.last() is Sym,
    ensures
        ({
            let out = spec_run_loop(
                procs,
                vars,
                ts.reverse(),
                lits_of(stack),
                length,
                result,
                produced,
                fuel,
            );
            &&& out.res == Ok::<usize, SyntaxParseError>(rpn_fold(stack, ts)->Some_0[0])
            &&& out.vars == vars
        }),
    decreases ts.len(),
{
    let g = ts.reverse();
    if ts.len() == 0 {
        assert(g.len() == 0);
        assert(lits_of(stack).len() == 1);
    } else {
        assert(g.last() == ts[0]);
        assert(g.drop_last() =~= ts.drop_first().reverse());
        match ts[0] {
            TokV::Lit { value } => {
                assert(lits_of(stack).push(TokV::Lit { value }) =~= lits_of(stack.push(value)));
                if ts.len() == 1 {
                    assert(ts.last() == ts[0]);
                    assert(false);
                }
                assert(ts.drop_first().last() == ts.last());
                lemma_rpn_loop(
                    procs,
                    vars,
                    ts.drop_first(),
                    stack.push(value),
                    length,
                    result,
                    produced,
                    fuel,
                );
            },
            TokV::Sym { text } => {
                let k = sym_kind(text);
                assert(stack.len() >= 2);
                let st0 = lits_of(stack);
                let a = stack.last();
                let b = stack[stack.len() - 2];
                assert(st0.last() == TokV::Lit { value: a });
                assert(st0[st0.len() - 2] == TokV::Lit { value: b });
                let so = spec_sym_eval(vars, st0, text);
                assert(st0.drop_last().drop_last() =~= lits_of(stack.take(stack.len() - 2)));
                let v = spec_binop(k, a, b)->Ok_0;
                assert(so.res == Ok::<usize, SyntaxParseError>(v));
                assert(so.storage.push(TokV::Lit { value: v }) =~= lits_of(
                    stack.take(stack.len() - 2).push(v),
                ));
                let stack2 = stack.take(stack.len() - 2).push(v);
                if ts.len() == 1 {
                    assert(rpn_fold(stack, ts) == rpn_fold(stack2, ts.drop_first()));
                    assert(rpn_fold(stack2, ts.drop_first()) == Some(stack2));
                    assert(stack2 =~= seq![v]);
                } else {
                    assert(ts.drop_first().last() == ts.last());
                }
                lemma_rpn_loop(procs, vars, ts.drop_first(), stack2, length, v, true, fuel);
            },
            _ => {
                assert(false);
            },
        }
    }
}

/// For every valid postfix sequence of literals and binary symbols with
/// correct arity — the stack fold succeeds and leaves exactly one value —
/// evaluation yields the conventional left-to-right postfix result, with
/// each symbol applied as the operator table defines it, and the bindings
/// are untouched.
pub proof fn lemma_rpn_evaluation(procs: Seq<ProcV>, vars: Seq<VarV>, ts: Seq<TokV>, fuel: nat)
    requires
        ts.len() >= 2,
        lits_and_bin_syms(ts),
        ts.last() is Sym,
        rpn_fold(seq![], ts) is Some,
        rpn_fold(seq![], ts)->Some_0.len() == 1,
    ensures
        spec_run_stmt(procs, vars, ts.reverse(), seq![], fuel).res == Ok::<
            usize,
            SyntaxParseError,
        >(rpn_fold(seq![], ts)->Some_0[0]),
        spec_run_stmt(procs, vars, ts.reverse(), seq![], fuel).vars == vars,
{
    let none: Seq<usize> = seq![];
    assert(lits_of(none) =~= Seq::<TokV>::empty());
    assert(ts.reverse().len() == ts.len());
    lemma_rpn_loop(procs, vars, ts, none, ts.len() as int, 0, false, fuel);
}

/// Well-formed procedure table: names are distinct.
pub open spec fn procs_wf(procs: Seq<ProcV>) -> bool {
    forall|i: int, j: int| 0 <= i < j < procs.len() ==> procs[i].name != procs[j].name
}

/// A name has no registered procedure exactly when it occurs nowhere in the
/// table.
pub proof fn lemma_proc_lookup_none(procs: Seq<ProcV>, name: Seq<char>)
    ensures
        proc_lookup(procs, name) is None <==> (forall|i: int|
            0 <= i < procs.len() ==> procs[i].name != name),
    decreases procs.len(),
{
    if procs.len() > 0 {
        lemma_proc_lookup_none(procs.drop_first(), name);
        if procs[0].name != name {
            if proc_lookup(procs, name) is None {
                assert forall|i: int| 0 <= i < procs.len() implies procs[i].name != name by {
                    if i > 0 {
                        assert(procs.drop_first()[i - 1] == procs[i]);
                    }
                }
            } else {
                let j = choose|j: int|
                    0 <= j < procs.drop_first().len() && procs.drop_first()[j].name == name;
                assert(procs[j + 1].name == name);
            }
        }
    }
}

/// The name space is shared: a successful definition names its procedure
/// after a word that no existing procedure and no existing variable uses.
pub proof fn lemma_definition_respects_namespace(
    procs: Seq<ProcV>,
    vars: Seq<VarV>,
    words: Seq<Seq<char>>,
    p: ProcV,
)
    requires
        spec_parse_proc(procs, vars, words) == Ok::<ProcV, SyntaxParseError>(p),
    ensures
        proc_lookup(procs, p.name) is None,
        var_lookup(vars, p.name) is None,
        p.name == words[1],
{
}

/// Statements keep procedure names distinct: a table of distinct names
/// stays distinct through any statement.
pub proof fn lemma_parse_preserves_procs_wf(
    procs: Seq<ProcV>,
    vars: Seq<VarV>,
    global: Seq<TokV>,
    storage: Seq<TokV>,
    words: Seq<Seq<char>>,
    fuel: nat,
)
    requires
        procs_wf(procs),
    ensures
        procs_wf(spec_parse(procs, vars, global, storage, words, fuel).procs),
    decreases words.len(),
{
    let out = spec_parse(procs, vars, global, storage, words, fuel);
    if words.len() == 0 || words[0].len() == 0 {
    } else if words[0] == kw_def() {
        if spec_parse_proc(procs, vars, words) is Ok {
            let p = spec_parse_proc(procs, vars, words)->Ok_0;
            lemma_proc_lookup_none(procs, p.name);
            assert(forall|i: int| 0 <= i < procs.len() ==> procs.push(p)[i] == procs[i]);
        }
    } else if words[0] == kw_exit() {
    } else if words[0] == kw_if() {
        let rest = words.skip(1);
        let cond = take_until(rest, kw_then());
        let after = drop_until(rest, kw_then());
        lemma_take_until_len(rest, kw_then());
        lemma_take_until_len(after, kw_else());
        match spec_parse_expr(procs, vars, cond) {
            Err(_e) => {},
            Ok(toks) => {
                let ro = spec_run_stmt(procs, vars, toks, storage, fuel);
                match ro.res {
                    Err(_e) => {},
                    Ok(c) => {
                        let branch = if c > 0 {
                            take_until(after, kw_else())
                        } else {
                            drop_until(after, kw_else())
                        };
                        lemma_parse_preserves_procs_wf(procs, ro.vars, ro.global, seq![], branch, fuel);
                    },
                }
            },
        }
    } else {
    }
}

/// Procedure names in a stored body are resolved at call time, against the
/// procedure table as it stands then: a name registered by then becomes a
/// reference to that procedure — which is how a body may call its own
/// procedure, or one defined after it — and any other name stays a variable
/// placeholder.
pub proof fn lemma_body_names_resolve_at_call_time(procs: Seq<ProcV>, var: VarV)
    ensures
        proc_lookup(procs, var.name) is Some ==> body_tok_at_call(procs, BTokV::Var { var })
            == (TokV::ProcT { proc: proc_lookup(procs, var.name)->Some_0 }),
        proc_lookup(procs, var.name) is None ==> body_tok_at_call(procs, BTokV::Var { var })
            == (TokV::Var { var }),
{
}

/// A binding found under a name bears that name.
pub proof fn lemma_var_lookup_name(vars: Seq<VarV>, name: Seq<char>)
    ensures
        var_lookup(vars, name) is Some ==> var_lookup(vars, name)->Some_0.name == name,
    decreases vars.len(),
{
    if vars.len() > 0 && vars.last().name != name {
        lemma_var_lookup_name(vars.drop_last(), name);
    }
}

/// A token that carries no procedure's name: what the classifier produces
/// for variables, since a word that names a procedure never classifies as
/// one.
pub open spec fn tok_ok(procs: Seq<ProcV>, t: TokV) -> bool {
    match t {
        TokV::Var { var } => proc_lookup(procs, var.name) is None,
        _ => true,
    }
}

/// Every token of the sequence is free of procedure names.
pub open spec fn toks_ok(procs: Seq<ProcV>, ts: Seq<TokV>) -> bool {
    forall|i: int| 0 <= i < ts.len() ==> tok_ok(procs, #[trigger] ts[i])
}

/// The shared name space: bindings and procedures are each well formed, and
/// no variable bears a procedure's name.
pub open spec fn session_wf(procs: Seq<ProcV>, vars: Seq<VarV>) -> bool {
    &&& vars_wf(vars)
    &&& procs_wf(procs)
    &&& forall|i: int| 0 <= i < vars.len() ==> proc_lookup(procs, #[trigger] vars[i].name) is None
}

proof fn lemma_classify_tok_ok(procs: Seq<ProcV>, vars: Seq<VarV>, w: Seq<char>)
    ensures
        spec_classify(procs, vars, w) is Ok ==> tok_ok(procs, spec_classify(procs, vars, w)->Ok_0),
{
    lemma_var_lookup_name(vars, w);
}

proof fn lemma_parse_expr_toks_ok(procs: Seq<ProcV>, vars: Seq<VarV>, words: Seq<Seq<char>>)
    ensures
        spec_parse_expr(procs, vars, words) is Ok ==> toks_ok(
            procs,
            spec_parse_expr(procs, vars, words)->Ok_0,
        ),
    decreases words.len(),
{
    if words.len() > 0 {
        lemma_classify_tok_ok(procs, vars, words.last());
        lemma_parse_expr_toks_ok(procs, vars, words.drop_last());
        if spec_parse_expr(procs, vars, words) is Ok {
            let t = spec_classify(procs, vars, words.last())->Ok_0;
            let s = spec_parse_expr(procs, vars, words.drop_last())->Ok_0;
            assert(forall|i: int| 0 <= i < s.len() ==> (seq![t] + s)[i + 1] == s[i]);
            assert((seq![t] + s)[0] == t);
        }
    }
}

proof fn lemma_sym_eval_ns(procs: Seq<ProcV>, vars: Seq<VarV>, storage: Seq<TokV>, sym: Seq<char>)
    requires
        toks_ok(procs, storage),
        forall|i: int| 0 <= i < vars.len() ==> proc_lookup(procs, #[trigger] vars[i].name) is None,
    ensures
        ({
            let so = spec_sym_eval(vars, storage, sym);
            &&& forall|i: int|
                0 <= i < so.vars.len() ==> proc_lookup(procs, #[trigger] so.vars[i].name) is None
            &&& toks_ok(procs, so.storage)
        }),
{
    let so = spec_sym_eval(vars, storage, sym);
    assert(toks_ok(procs, so.storage)) by {
        assert(forall|i: int|
            0 <= i < storage.len() - 2 ==> storage.drop_last().drop_last()[i] == storage[i]);
        assert(forall|i: int| 0 <= i < storage.len() - 1 ==> storage.drop_last()[i] == storage[i]);
    }
    if so.vars != vars {
        assert(storage.len() >= 2);
        assert(tok_ok(procs, storage.last()));
    }
}

proof fn lemma_run_ns(
    procs: Seq<ProcV>,
    vars: Seq<VarV>,
    global: Seq<TokV>,
    storage: Seq<TokV>,
    length: int,
    result: usize,
    produced: bool,
    fuel: nat,
)
    requires
        toks_ok(procs, global),
        toks_ok(procs, storage),
        forall|i: int| 0 <= i < vars.len() ==> proc_lookup(procs, #[trigger] vars[i].name) is None,
    ensures
        ({
            let out = spec_run_loop(procs, vars, global, storage, length, result, produced, fuel);
            &&& forall|i: int|
                0 <= i < out.vars.len() ==> proc_lookup(procs, #[trigger] out.vars[i].name) is None
        }),
    decreases fuel, global.len(),
{
    if global.len() > 0 {
        let t = global.last();
        let g2 = global.drop_last();
        assert(toks_ok(procs, g2)) by {
            assert(forall|i: int| 0 <= i < global.len() - 1 ==> g2[i] == global[i]);
        }
        assert(tok_ok(procs, t));
        match t {
            TokV::Lit { value } => {
                assert(toks_ok(procs, storage.push(t))) by {
                    assert(forall|i: int| 0 <= i < storage.len() ==> storage.push(t)[i] == storage[i]);
                }
                if length == 1 {
                    lemma_run_ns(procs, vars, g2, storage, length, value, true, fuel);
                } else {
                    lemma_run_ns(procs, vars, g2, storage.push(t), length, result, produced, fuel);
                }
            },
            TokV::Kw => {
                lemma_run_ns(procs, vars, g2, storage, length, result, produced, fuel);
            },
            TokV::Sym { text } => {
                let so = spec_sym_eval(vars, storage, text);
                lemma_sym_eval_ns(procs, vars, storage, text);
                if so.res is Ok {
                    let v = so.res->Ok_0;
                    let st2 = so.storage.push(TokV::Lit { value: v });
                    assert(toks_ok(procs, st2)) by {
                        assert(forall|i: int|
                            0 <= i < so.storage.len() ==> st2[i] == so.storage[i]);
                    }
                    lemma_run_ns(procs, so.vars, g2, st2, length, v, true, fuel);
                }
            },
            TokV::Var { var } => {
                assert(toks_ok(procs, storage.push(t))) by {
                    assert(forall|i: int| 0 <= i < storage.len() ==> storage.push(t)[i] == storage[i]);
                }
                if length == 1 {
                    match var_lookup(vars, var.name) {
                        Some(sv) => {
                            if sv.value is Some {
                                lemma_run_ns(
                                    procs,
                                    vars,
                                    g2,
                                    storage.push(t),
                                    length,
                                    sv.value->0,
                                    true,
                                    fuel,
                                );
                            }
                        },
                        None => {},
                    }
                } else {
                    lemma_run_ns(procs, vars, g2, storage.push(t), length, result, produced, fuel);
                }
            },
            TokV::ProcT { proc } => {
                if length >= 2 {
                    let po = spec_run_proc(procs, vars, storage, proc, fuel);
                    if po.res is Ok {
                        let v = po.res->Ok_0;
                        assert(po.storage == spec_bind_args(
                            vars,
                            storage,
                            proc.params,
                            0,
                            seq![],
                        ).storage);
                        lemma_bind_args_storage_ok(procs, vars, storage, proc.params, 0, seq![]);
                        let st2 = po.storage.push(TokV::Lit { value: v });
                        assert(toks_ok(procs, st2)) by {
                            assert(forall|i: int|
                                0 <= i < po.storage.len() ==> st2[i] == po.storage[i]);
                        }
                        lemma_run_ns(procs, vars, g2, st2, length, v, true, fuel);
                    }
                }
            },
        }
    }
}

proof fn lemma_bind_args_storage_ok(
    procs: Seq<ProcV>,
    vars: Seq<VarV>,
    storage: Seq<TokV>,
    params: Seq<VarV>,
    i: int,
    bound: Seq<VarV>,
)
    requires
        toks_ok(procs, storage),
        params.len() - i <= storage.len(),
    ensures
        toks_ok(procs, spec_bind_args(vars, storage, params, i, bound).storage),
    decreases params.len() - i,
{
    if 0 <= i < params.len() {
        let s2 = storage.drop_last();
        assert(toks_ok(procs, s2)) by {
            assert(forall|j: int| 0 <= j < storage.len() - 1 ==> s2[j] == storage[j]);
        }
        match resolve_operand(vars, storage.last()) {
            Err(_e) => {},
            Ok(v) => {
                lemma_bind_args_storage_ok(
                    procs,
                    vars,
                    s2,
                    params,
                    i + 1,
                    bound.push(VarV { name: params[i].name, value: Some(v) }),
                );
            },
        }
    }
}

/// Statements keep the name space shared: if no variable bears a
/// procedure's name and both tables are well formed, the same holds after
/// any statement, so a name bound as one can never come to stand for the
/// other. The working stack must hold only classified tokens, as it does
/// between statements (it is empty then).
pub proof fn lemma_parse_preserves_namespace(
    procs: Seq<ProcV>,
    vars: Seq<VarV>,
    global: Seq<TokV>,
    storage: Seq<TokV>,
    words: Seq<Seq<char>>,
    fuel: nat,
)
    requires
        session_wf(procs, vars),
        toks_ok(procs, storage),
    ensures
        session_wf(
            spec_parse(procs, vars, global, storage, words, fuel).procs,
            spec_parse(procs, vars, global, storage, words, fuel).vars,
        ),
    decreases words.len(),
{
    let out = spec_parse(procs, vars, global, storage, words, fuel);
    lemma_parse_appends(procs, vars, global, storage, words, fuel);
    lemma_parse_preserves_procs_wf(procs, vars, global, storage, words, fuel);
    if words.len() == 0 || words[0].len() == 0 {
    } else if words[0] == kw_def() {
        if spec_parse_proc(procs, vars, words) is Ok {
            let p = spec_parse_proc(procs, vars, words)->Ok_0;
            lemma_lookup_none(vars, p.name);
            assert forall|i: int|
                0 <= i < vars.len() implies proc_lookup(
                procs.push(p),
                #[trigger] vars[i].name,
            ) is None by {
                lemma_proc_lookup_none(procs, vars[i].name);
                lemma_proc_lookup_none(procs.push(p), vars[i].name);
                assert(forall|k: int| 0 <= k < procs.len() ==> procs.push(p)[k] == procs[k]);
                assert(procs.push(p)[procs.len() as int] == p);
            }
        }
    } else if words[0] == kw_exit() {
    } else if words[0] == kw_if() {
        let rest = words.skip(1);
        let cond = take_until(rest, kw_then());
        let after = drop_until(rest, kw_then());
        lemma_take_until_len(rest, kw_then());
        lemma_take_until_len(after, kw_else());
        match spec_parse_expr(procs, vars, cond) {
            Err(_e) => {},
            Ok(toks) => {
                lemma_parse_expr_toks_ok(procs, vars, cond);
                let ro = spec_run_stmt(procs, vars, toks, storage, fuel);
                lemma_run_ns(procs, vars, toks, storage, toks.len() as int, 0, false, fuel);
                lemma_run_appends(procs, vars, toks, storage, toks.len() as int, 0, false, fuel);
                match ro.res {
                    Err(_e) => {},
                    Ok(c) => {
                        let branch = if c > 0 {
                            take_until(after, kw_else())
                        } else {
                            drop_until(after, kw_else())
                        };
                        assert(toks_ok(procs, Seq::<TokV>::empty()));
                        lemma_parse_preserves_namespace(
                            procs,
                            ro.vars,
                            ro.global,
                            seq![],
                            branch,
                            fuel,
                        );
                    },
                }
            },
        }
    } else {
    }
}

/// A fresh session is well formed: the shared name space starts empty.
pub proof fn lemma_fresh_session_wf()
    ensures
        session_wf(Seq::<ProcV>::empty(), Seq::<VarV>::empty()),
{
}

/// Evaluation keeps the name space shared: run on a classified statement
/// stack binds no variable to a procedure's name.
pub proof fn lemma_eval_preserves_namespace(
    procs: Seq<ProcV>,
    vars: Seq<VarV>,
    global: Seq<TokV>,
    storage: Seq<TokV>,
    fuel: nat,
)
    requires
        session_wf(procs, vars),
        toks_ok(procs, global),
        toks_ok(procs, storage),
    ensures
        session_wf(procs, spec_run_stmt(procs, vars, global, storage, fuel).vars),
{
    lemma_run_ns(procs, vars, global, storage, global.len() as int, 0, false, fuel);
    lemma_run_appends(procs, vars, global, storage, global.len() as int, 0, false, fuel);
}

/// The comparison symbols are antisymmetric and complementary, as the
/// operator table defines them: on operands `a` (popped first) and `b`
/// (popped second), `==` and `!=` are symmetric complements, `<` answers
/// exactly when `>=` denies, `>` exactly when `<=` denies, and swapping the
/// operands swaps `<` with `>`.
pub proof fn lemma_compare_antisymmetry(a: usize, b: usize)
    ensures
        spec_binop(SymKind::EqSym, a, b) == spec_binop(SymKind::EqSym, b, a),
        spec_binop(SymKind::NeSym, a, b)->Ok_0 == 1 - spec_binop(SymKind::EqSym, a, b)->Ok_0,
        spec_binop(SymKind::LtSym, a, b)->Ok_0 == 1 - spec_binop(SymKind::GeSym, a, b)->Ok_0,
        spec_binop(SymKind::GtSym, a, b)->Ok_0 == 1 - spec_binop(SymKind::LeSym, a, b)->Ok_0,
        spec_binop(SymKind::LtSym, a, b) == spec_binop(SymKind::GtSym, b, a),
        spec_binop(SymKind::LeSym, a, b) == spec_binop(SymKind::GeSym, b, a),
{
}

} // verus!
