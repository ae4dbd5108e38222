//! The first generation of the engine: postfix arithmetic on natural
//! numbers with six operators and rudimentary variables. Variables are
//! registered already during parsing, and assignment writes to the most
//! recently registered variable.
//!
//! Overflow past `usize::MAX`, underflow below zero and division or
//! remainder by zero are reported as
//! [`SyntaxParseError::ArithmeticFault`]; an assignment in a session that
//! never registered a variable is rejected as an invalid item rather than
//! aborting.

use vstd::prelude::*;
use vstd::string::*;
use vstd::utf8::is_ascii_chars;
use crate::text::{
    all_digits, digits_value, parse_usize, split_spaces, split_words, str_eq, trim_spec, trim_str,
};

verus! {

/// Session state: the parsed statement, the registered variables, and the
/// running result.
pub struct Engine {
    pub global_stack: GlobalStack,
    pub variable_stack: VariableStack,
    pub ans: usize,
}

pub type GlobalStack = Vec<Item>;

pub type VariableStack = Vec<Variable>;

/// A parsed item: a literal, a variable reference, or an operator.
#[derive(Debug)]
pub enum Item {
    Literal(usize),
    Variable(Variable),
    Function(OperatorFunctions),
}

/// The operators of the first-generation engine.
#[derive(Debug, Clone, Copy, PartialEq, Eq, Structural)]
pub enum OperatorFunctions {
    Add,
    Sub,
    Div,
    Mul,
    Mod,
    Assignment,
}

/// A named variable with its value.
#[derive(Debug)]
pub struct Variable {
    pub name: String,
    pub value: usize,
}

/// Errors of the first-generation engine.
#[derive(Debug, PartialEq, Eq, Structural, Clone, Copy)]
pub enum SyntaxParseError {
    NotALiteralError,
    NotAGoodVariableName,
    NotAValidSyntaxItem,
    InvalidFunctionNameFound,
    /// Overflow past `usize::MAX`, underflow below zero, or division or
    /// remainder by zero.
    ArithmeticFault,
}

/// Mathematical view of a variable.
pub ghost struct VarV1 {
    pub name: Seq<char>,
    pub value: usize,
}

/// Mathematical view of an item.
pub ghost enum ItemV {
    Lit { value: usize },
    Var { var: VarV1 },
    Fun { f: OperatorFunctions },
}

impl View for Variable {
    type V = VarV1;

    open spec fn view(&self) -> VarV1 {
        VarV1 { name: self.name@, value: self.value }
    }
}

impl DeepView for Variable {
    type V = VarV1;

    open spec fn deep_view(&self) -> VarV1 {
        self@
    }
}

impl View for Item {
    type V = ItemV;

    open spec fn view(&self) -> ItemV {
        match self {
            Item::Literal(v) => ItemV::Lit { value: *v },
            Item::Variable(v) => ItemV::Var { var: v@ },
            Item::Function(f) => ItemV::Fun { f: *f },
        }
    }
}

impl DeepView for Item {
    type V = ItemV;

    open spec fn deep_view(&self) -> ItemV {
        self@
    }
}

/// The word sequence the first-generation parser works on: the line is
/// trimmed and split on single spaces, with no further trimming per word.
pub open spec fn words_v1(s: Seq<char>) -> Seq<Seq<char>> {
    split_spaces(trim_spec(s))
}

/// The value of a non-negative decimal literal, if the word is one.
pub open spec fn usize_lit(s: Seq<char>) -> Option<usize> {
    if s.len() > 0 && all_digits(s) && digits_value(s) <= usize::MAX {
        Some(digits_value(s) as usize)
    } else {
        None
    }
}

/// The value of a literal word as the first-generation parser reads it: an
/// optional leading plus sign, then digits.
pub open spec fn v1_literal_val(t: Seq<char>) -> Option<usize> {
    if t.len() > 1 && t[0] == '+' {
        usize_lit(t.skip(1))
    } else {
        usize_lit(t)
    }
}

/// The operator a word denotes, if any.
pub open spec fn v1_sym(t: Seq<char>) -> Option<OperatorFunctions> {
    if t == seq!['+'] {
        Some(OperatorFunctions::Add)
    } else if t == seq!['-'] {
        Some(OperatorFunctions::Sub)
    } else if t == seq!['*'] {
        Some(OperatorFunctions::Mul)
    } else if t == seq!['/'] {
        Some(OperatorFunctions::Div)
    } else if t == seq!['%'] {
        Some(OperatorFunctions::Mod)
    } else if t == seq!['='] {
        Some(OperatorFunctions::Assignment)
    } else {
        None
    }
}

/// The value bound to a name; the most recently registered match wins.
pub open spec fn v1_lookup(vars: Seq<VarV1>, name: Seq<char>) -> Option<usize>
    decreases vars.len(),
{
    if vars.len() == 0 {
        None
    } else if vars.last().name == name {
        Some(vars.last().value)
    } else {
        v1_lookup(vars.drop_last(), name)
    }
}

/// Outcome of parsing: the registered variables and the statement stack.
pub ghost struct V1ParseOut {
    pub res: Result<(), SyntaxParseError>,
    pub vars: Seq<VarV1>,
    pub global: Seq<ItemV>,
}

/// What one raw word does to the state: a literal or operator is pushed; a
/// word of ASCII characters becomes a variable reference and is registered
/// (with value zero) unless the name is already known; anything else is an
/// invalid item. The word is trimmed for the literal and operator readings
/// but kept as written for the variable name.
pub open spec fn spec_v1_word(vars: Seq<VarV1>, global: Seq<ItemV>, w: Seq<char>) -> V1ParseOut {
    let t = trim_spec(w);
    match v1_literal_val(t) {
        Some(v) => V1ParseOut { res: Ok(()), vars, global: global.push(ItemV::Lit { value: v }) },
        None => match v1_sym(t) {
            Some(f) => V1ParseOut { res: Ok(()), vars, global: global.push(ItemV::Fun { f }) },
            None => if is_ascii_chars(w) {
                let tok = VarV1 { name: w, value: 0 };
                V1ParseOut {
                    res: Ok(()),
                    vars: if v1_lookup(vars, w) is Some {
                        vars
                    } else {
                        vars.push(tok)
                    },
                    global: global.push(ItemV::Var { var: tok }),
                }
            } else {
                V1ParseOut { res: Err(SyntaxParseError::NotAValidSyntaxItem), vars, global }
            },
        },
    }
}

/// Parse the words of a line from the last word backward, so that the first
/// word ends on top of the statement stack. An invalid word stops parsing,
/// keeping what was already pushed.
pub open spec fn spec_v1_parse(vars: Seq<VarV1>, global: Seq<ItemV>, words: Seq<Seq<char>>) -> V1ParseOut
    decreases words.len(),
{
    if words.len() == 0 {
        V1ParseOut { res: Ok(()), vars, global }
    } else {
        let so = spec_v1_word(vars, global, words.last());
        if so.res is Err {
            so
        } else {
            spec_v1_parse(so.vars, so.global, words.drop_last())
        }
    }
}

/// Resolve an item to a value: a literal is its value, a variable is looked
/// up among the registered variables, an operator is invalid.
pub open spec fn v1_resolve(vars: Seq<VarV1>, t: ItemV) -> Result<usize, SyntaxParseError> {
    match t {
        ItemV::Lit { value } => Ok(value),
        ItemV::Var { var } => match v1_lookup(vars, var.name) {
            Some(v) => Ok(v),
            None => Err(SyntaxParseError::NotAValidSyntaxItem),
        },
        ItemV::Fun { f } => Err(SyntaxParseError::NotAValidSyntaxItem),
    }
}

/// Outcome of applying an operator triple.
pub ghost struct V1RunOut {
    pub res: Result<usize, SyntaxParseError>,
    pub vars: Seq<VarV1>,
}

/// Apply `op` to the resolved operands `a` and `b`. Assignment yields `a`
/// and writes it into the most recently registered variable; there must be
/// one. Overflow, underflow and zero divisors are arithmetic faults.
pub open spec fn spec_v1_run(vars: Seq<VarV1>, a: ItemV, b: ItemV, op: ItemV) -> V1RunOut {
    match v1_resolve(vars, a) {
        Err(e) => V1RunOut { res: Err(e), vars },
        Ok(av) => match v1_resolve(vars, b) {
            Err(e) => V1RunOut { res: Err(e), vars },
            Ok(bv) => match op {
                ItemV::Fun { f } => match f {
                    OperatorFunctions::Add => if av + bv <= usize::MAX {
                        V1RunOut { res: Ok((av + bv) as usize), vars }
                    } else {
                        V1RunOut { res: Err(SyntaxParseError::ArithmeticFault), vars }
                    },
                    OperatorFunctions::Sub => if av >= bv {
                        V1RunOut { res: Ok((av - bv) as usize), vars }
                    } else {
                        V1RunOut { res: Err(SyntaxParseError::ArithmeticFault), vars }
                    },
                    OperatorFunctions::Mul => if av * bv <= usize::MAX {
                        V1RunOut { res: Ok((av * bv) as usize), vars }
                    } else {
                        V1RunOut { res: Err(SyntaxParseError::ArithmeticFault), vars }
                    },
                    OperatorFunctions::Div => if bv == 0 {
                        V1RunOut { res: Err(SyntaxParseError::ArithmeticFault), vars }
                    } else {
                        V1RunOut { res: Ok(((av as int) / (bv as int)) as usize), vars }
                    },
                    OperatorFunctions::Mod => if bv == 0 {
                        V1RunOut { res: Err(SyntaxParseError::ArithmeticFault), vars }
                    } else {
                        V1RunOut { res: Ok(((av as int) % (bv as int)) as usize), vars }
                    },
                    OperatorFunctions::Assignment => if vars.len() == 0 {
                        V1RunOut { res: Err(SyntaxParseError::NotAValidSyntaxItem), vars }
                    } else {
                        V1RunOut {
                            res: Ok(av),
                            vars: vars.update(
                                vars.len() - 1,
                                VarV1 { name: vars.last().name, value: av },
                            ),
                        }
                    },
                },
                _ => V1RunOut { res: Err(SyntaxParseError::NotAValidSyntaxItem), vars },
            },
        },
    }
}

/// Outcome of one evaluation pass.
pub ghost struct V1EvalOut {
    pub res: Result<(), SyntaxParseError>,
    pub vars: Seq<VarV1>,
    pub global: Seq<ItemV>,
    pub ans: usize,
}

/// The evaluator's scan: `e` walks the statement stack from its original
/// top downward. A lone literal or variable becomes the result at once; an
/// operator consumes the three most recent items and pushes the result
/// back. At the end exactly one item must remain.
pub open spec fn spec_v1_eval(vars: Seq<VarV1>, global: Seq<ItemV>, ans: usize, e: int) -> V1EvalOut
    decreases e,
{
    if e <= 0 {
        if global.len() != 1 {
            V1EvalOut { res: Err(SyntaxParseError::NotAValidSyntaxItem), vars, global, ans }
        } else {
            V1EvalOut { res: Ok(()), vars, global, ans }
        }
    } else {
        let i = global[e - 1];
        match i {
            ItemV::Lit { value } => if global.len() == 1 {
                V1EvalOut {
                    res: Ok(()),
                    vars,
                    global: global.push(ItemV::Lit { value }),
                    ans: value,
                }
            } else {
                spec_v1_eval(vars, global, ans, e - 1)
            },
            ItemV::Fun { f } => if global.len() < 3 {
                V1EvalOut { res: Err(SyntaxParseError::NotAValidSyntaxItem), vars, global, ans }
            } else {
                let a = global[global.len() - 1];
                let b = global[global.len() - 2];
                let op = global[global.len() - 3];
                let g2 = global.take(global.len() - 3);
                let ro = spec_v1_run(vars, a, b, op);
                match ro.res {
                    Err(err) => V1EvalOut { res: Err(err), vars: ro.vars, global: g2, ans },
                    Ok(v) => spec_v1_eval(
                        ro.vars,
                        g2.push(ItemV::Lit { value: v }),
                        v,
                        e - 1,
                    ),
                }
            },
            ItemV::Var { var } => if global.len() == 1 {
                match v1_lookup(vars, var.name) {
                    Some(v) => spec_v1_eval(
                        vars,
                        global.drop_last().push(ItemV::Lit { value: v }),
                        v,
                        e - 1,
                    ),
                    None => V1EvalOut {
                        res: Err(SyntaxParseError::NotAValidSyntaxItem),
                        vars,
                        global: global.drop_last(),
                        ans,
                    },
                }
            } else {
                spec_v1_eval(vars, global, ans, e - 1)
            },
        }
    }
}

/// Copy a variable.
fn var_dup1(v: &Variable) -> (r: Variable)
    ensures
        r@ == v@,
{
    Variable { name: v.name.clone(), value: v.value }
}

/// Copy an item, as the evaluator does before examining it.
fn item_dup(it: &Item) -> (r: Item)
    ensures
        r@ == it@,
{
    match it {
        Item::Literal(v) => Item::Literal(*v),
        Item::Variable(v) => Item::Variable(var_dup1(v)),
        Item::Function(f) => Item::Function(*f),
    }
}

/// Look a name up among the registered variables; the most recently
/// registered match wins.
fn lookup_v1(vars: &Vec<Variable>, name: &str) -> (r: Option<usize>)
    ensures
        r == v1_lookup(vars.deep_view(), name@),
{
    let mut i: usize = vars.len();
    proof {
        assert(vars.deep_view().take(vars.len() as int) =~= vars.deep_view());
    }
    while i > 0
        invariant
            0 <= i <= vars.len(),
            v1_lookup(vars.deep_view(), name@) == v1_lookup(vars.deep_view().take(i as int), name@),
        decreases i,
    {
        i -= 1;
        proof {
            assert(vars.deep_view().take(i as int + 1).last() == vars.deep_view()[i as int]);
            assert(vars.deep_view().take(i as int + 1).drop_last() =~= vars.deep_view().take(
                i as int,
            ));
        }
        if str_eq(vars[i].name.as_str(), name) {
            return Some(vars[i].value);
        }
    }
    None
}

impl Engine {
    /// A fresh session.
    pub fn new() -> (r: Self)
        ensures
            r.global_stack.deep_view() == Seq::<ItemV>::empty(),
            r.variable_stack.deep_view() == Seq::<VarV1>::empty(),
            r.ans == 0,
    {
        let r = Self { global_stack: Vec::new(), variable_stack: Vec::new(), ans: 0 };
        proof {
            assert(r.global_stack.deep_view() =~= Seq::<ItemV>::empty());
            assert(r.variable_stack.deep_view() =~= Seq::<VarV1>::empty());
        }
        r
    }

    /// The result of the last evaluation.
    pub fn res(&self) -> (r: usize)
        ensures
            r == self.ans,
    {
        self.ans
    }

    /// Parse one raw word and push what it denotes, registering a new
    /// variable name on first sight.
    fn try_syntax_parse(&mut self, item: &str) -> (r: Result<(), SyntaxParseError>)
        ensures
            ({
                let so = spec_v1_word(
                    old(self).variable_stack.deep_view(),
                    old(self).global_stack.deep_view(),
                    item@,
                );
                &&& r == so.res
                &&& final(self).variable_stack.deep_view() == so.vars
                &&& final(self).global_stack.deep_view() == so.global
                &&& final(self).ans == old(self).ans
            }),
    {
        let ghost v0 = self.variable_stack.deep_view();
        let ghost g0 = self.global_stack.deep_view();
        match Self::try_parse_literal(item) {
            Some(v) => {
                self.global_stack.push(Item::Literal(v));
                proof {
                    assert(self.global_stack.deep_view() =~= g0.push(ItemV::Lit { value: v }));
                }
                return Ok(());
            },
            None => {},
        }
        match Self::try_parse_function(item) {
            Ok(f) => {
                self.global_stack.push(Item::Function(f));
                proof {
                    assert(self.global_stack.deep_view() =~= g0.push(ItemV::Fun { f }));
                }
                return Ok(());
            },
            Err(_e) => {},
        }
        match Self::try_parse_variable(item) {
            Ok(var) => {
                let known = lookup_v1(&self.variable_stack, var.name.as_str()).is_some();
                let ghost tok = var@;
                self.global_stack.push(Item::Variable(var_dup1(&var)));
                if !known {
                    self.variable_stack.push(var);
                }
                proof {
                    assert(self.global_stack.deep_view() =~= g0.push(ItemV::Var { var: tok }));
                    if v1_lookup(v0, item@) is None {
                        assert(self.variable_stack.deep_view() =~= v0.push(tok));
                    }
                }
                return Ok(());
            },
            Err(_e) => {},
        }
        Err(SyntaxParseError::NotAValidSyntaxItem)
    }

    /// The value of a word read as a non-negative decimal literal, after
    /// trimming.
    fn try_parse_literal(item: &str) -> (r: Option<usize>)
        ensures
            r == v1_literal_val(trim_spec(item@)),
    {
        let t = trim_str(item);
        let n = t.as_str().unicode_len();
        if n > 1 && t.as_str().get_char(0) == '+' {
            let rest = t.as_str().substring_char(1, n);
            proof {
                assert(rest@ =~= trim_spec(item@).skip(1));
            }
            parse_usize(rest)
        } else {
            parse_usize(t.as_str())
        }
    }

    /// The word as a variable: any non-empty or empty ASCII word names one.
    fn try_parse_variable(item: &str) -> (r: Result<Variable, SyntaxParseError>)
        ensures
            ({
                if is_ascii_chars(item@) {
                    r matches Ok(v) && v@ == (VarV1 { name: item@, value: 0 })
                } else {
                    r matches Err(e) && e == SyntaxParseError::NotAGoodVariableName
                }
            }),
    {
        if !item.is_ascii() {
            return Err(SyntaxParseError::NotAGoodVariableName);
        }
        let mut var = Variable::new();
        var.name = item.to_owned();
        Ok(var)
    }

    /// The operator a word denotes, after trimming.
    fn try_parse_function(item: &str) -> (r: Result<OperatorFunctions, SyntaxParseError>)
        ensures
            ({
                match v1_sym(trim_spec(item@)) {
                    Some(f) => r matches Ok(g) && g == f,
                    None => r matches Err(e) && e == SyntaxParseError::InvalidFunctionNameFound,
                }
            }),
    {
        let t = trim_str(item);
        let n = t.as_str().unicode_len();
        if n == 1 {
            let c = t.as_str().get_char(0);
            proof {
                assert(t@ =~= seq![t@[0]]);
            }
            if c == '+' {
                Ok(OperatorFunctions::Add)
            } else if c == '-' {
                Ok(OperatorFunctions::Sub)
            } else if c == '*' {
                Ok(OperatorFunctions::Mul)
            } else if c == '/' {
                Ok(OperatorFunctions::Div)
            } else if c == '%' {
                Ok(OperatorFunctions::Mod)
            } else if c == '=' {
                Ok(OperatorFunctions::Assignment)
            } else {
                Err(SyntaxParseError::InvalidFunctionNameFound)
            }
        } else {
            Err(SyntaxParseError::InvalidFunctionNameFound)
        }
    }

    /// Split a line into words and parse them from the last word backward.
    #[verifier::loop_isolation(false)]
    pub fn syntax_parse(&mut self, expr: &str) -> (r: Result<(), SyntaxParseError>)
        ensures
            ({
                let out = spec_v1_parse(
                    old(self).variable_stack.deep_view(),
                    old(self).global_stack.deep_view(),
                    words_v1(expr@),
                );
                &&& r == out.res
                &&& final(self).variable_stack.deep_view() == out.vars
                &&& final(self).global_stack.deep_view() == out.global
                &&& final(self).ans == old(self).ans
            }),
    {
        let line = trim_str(expr);
        let mut words = split_words(line.as_str());
        while words.len() > 0
            invariant
                spec_v1_parse(
                    old(self).variable_stack.deep_view(),
                    old(self).global_stack.deep_view(),
                    words_v1(expr@),
                ) == spec_v1_parse(
                    self.variable_stack.deep_view(),
                    self.global_stack.deep_view(),
                    words.deep_view(),
                ),
                self.ans == old(self).ans,
            decreases words.len(),
        {
            let ghost wpre = words.deep_view();
            let w = words.pop().unwrap();
            proof {
                assert(w@ == wpre.last());
                assert(words.deep_view() =~~= wpre.drop_last());
            }
            match self.try_syntax_parse(w.as_str()) {
                Ok(_u) => {},
                Err(e) => {
                    return Err(e);
                },
            }
        }
        Ok(())
    }

    /// Reset the statement stack for the next line.
    pub fn reset(&mut self)
        ensures
            final(self).global_stack.deep_view() == Seq::<ItemV>::empty(),
            final(self).variable_stack == old(self).variable_stack,
            final(self).ans == old(self).ans,
    {
        self.global_stack.clear();
        proof {
            assert(self.global_stack.deep_view() =~= Seq::<ItemV>::empty());
        }
    }

    /// Apply an operator to two operand items, updating the running result
    /// and, for assignment, the most recently registered variable.
    pub fn run(&mut self, a: Item, b: Item, op: Item) -> (r: Result<(), SyntaxParseError>)
        ensures
            ({
                let ro = spec_v1_run(old(self).variable_stack.deep_view(), a@, b@, op@);
                &&& (match ro.res {
                    Ok(v) => r == Ok::<(), SyntaxParseError>(()) && final(self).ans == v,
                    Err(e) => r == Err::<(), SyntaxParseError>(e) && final(self).ans == old(
                        self,
                    ).ans,
                })
                &&& final(self).variable_stack.deep_view() == ro.vars
                &&& final(self).global_stack == old(self).global_stack
            }),
    {
        let av = match &a {
            Item::Literal(v) => *v,
            Item::Variable(v) => match lookup_v1(&self.variable_stack, v.name.as_str()) {
                Some(x) => x,
                None => {
                    return Err(SyntaxParseError::NotAValidSyntaxItem);
                },
            },
            _ => {
                return Err(SyntaxParseError::NotAValidSyntaxItem);
            },
        };
        let bv = match &b {
            Item::Literal(v) => *v,
            Item::Variable(v) => match lookup_v1(&self.variable_stack, v.name.as_str()) {
                Some(x) => x,
                None => {
                    return Err(SyntaxParseError::NotAValidSyntaxItem);
                },
            },
            _ => {
                return Err(SyntaxParseError::NotAValidSyntaxItem);
            },
        };
        let f = match &op {
            Item::Function(f) => *f,
            _ => {
                return Err(SyntaxParseError::NotAValidSyntaxItem);
            },
        };
        match f {
            OperatorFunctions::Add => match av.checked_add(bv) {
                Some(v) => {
                    self.ans = v;
                    Ok(())
                },
                None => Err(SyntaxParseError::ArithmeticFault),
            },
            OperatorFunctions::Sub => match av.checked_sub(bv) {
                Some(v) => {
                    self.ans = v;
                    Ok(())
                },
                None => Err(SyntaxParseError::ArithmeticFault),
            },
            OperatorFunctions::Mul => match av.checked_mul(bv) {
                Some(v) => {
                    self.ans = v;
                    Ok(())
                },
                None => Err(SyntaxParseError::ArithmeticFault),
            },
            OperatorFunctions::Div => {
                if bv == 0 {
                    return Err(SyntaxParseError::ArithmeticFault);
                }
                self.ans = av / bv;
                Ok(())
            },
            OperatorFunctions::Mod => {
                if bv == 0 {
                    return Err(SyntaxParseError::ArithmeticFault);
                }
                self.ans = av % bv;
                Ok(())
            },
            OperatorFunctions::Assignment => {
                let ghost vs0 = self.variable_stack.deep_view();
                if self.variable_stack.len() == 0 {
                    return Err(SyntaxParseError::NotAValidSyntaxItem);
                }
                self.ans = av;
                let mut last = self.variable_stack.pop().unwrap();
                last.value = av;
                self.variable_stack.push(last);
                proof {
                    assert(self.variable_stack.deep_view() =~= vs0.update(
                        vs0.len() - 1,
                        VarV1 { name: vs0.last().name, value: av },
                    ));
                }
                Ok(())
            },
        }
    }

    /// Scan the statement stack from its original top downward, applying
    /// each operator to the three most recent items; a lone literal or
    /// variable becomes the result directly.
    #[verifier::loop_isolation(false)]
    pub fn eval(&mut self) -> (r: Result<(), SyntaxParseError>)
        ensures
            ({
                let out = spec_v1_eval(
                    old(self).variable_stack.deep_view(),
                    old(self).global_stack.deep_view(),
                    old(self).ans,
                    old(self).global_stack.deep_view().len() as int,
                );
                &&& r == out.res
                &&& final(self).variable_stack.deep_view() == out.vars
                &&& final(self).global_stack.deep_view() == out.global
                &&& final(self).ans == out.ans
            }),
    {
        let mut e: usize = self.global_stack.len();
        while e > 0
            invariant
                0 <= e <= self.global_stack.len(),
                spec_v1_eval(
                    old(self).variable_stack.deep_view(),
                    old(self).global_stack.deep_view(),
                    old(self).ans,
                    old(self).global_stack.deep_view().len() as int,
                ) == spec_v1_eval(
                    self.variable_stack.deep_view(),
                    self.global_stack.deep_view(),
                    self.ans,
                    e as int,
                ),
            decreases e,
        {
            let ghost vpre = self.variable_stack.deep_view();
            let ghost gpre = self.global_stack.deep_view();
            let i = item_dup(&self.global_stack[e - 1]);
            match i {
                Item::Literal(val) => {
                    if self.global_stack.len() == 1 {
                        self.ans = val;
                        self.global_stack.push(Item::Literal(val));
                        proof {
                            assert(self.global_stack.deep_view() =~= gpre.push(
                                ItemV::Lit { value: val },
                            ));
                        }
                        return Ok(());
                    }
                },
                Item::Function(_f) => {
                    if self.global_stack.len() < 3 {
                        return Err(SyntaxParseError::NotAValidSyntaxItem);
                    }
                    let a = self.global_stack.pop().unwrap();
                    let b = self.global_stack.pop().unwrap();
                    let op = self.global_stack.pop().unwrap();
                    proof {
                        assert(a@ == gpre[gpre.len() - 1]);
                        assert(b@ == gpre[gpre.len() - 2]);
                        assert(op@ == gpre[gpre.len() - 3]);
                        assert(self.global_stack.deep_view() =~= gpre.take(gpre.len() - 3));
                    }
                    match self.run(a, b, op) {
                        Ok(_u) => {},
                        Err(err) => {
                            return Err(err);
                        },
                    }
                    let ghost g2 = self.global_stack.deep_view();
                    let ans_now = self.ans;
                    self.global_stack.push(Item::Literal(ans_now));
                    proof {
                        assert(self.global_stack.deep_view() =~= g2.push(
                            ItemV::Lit { value: ans_now },
                        ));
                    }
                },
                Item::Variable(_v) => {
                    if self.global_stack.len() == 1 {
                        let var = self.global_stack.pop().unwrap();
                        proof {
                            assert(var@ == gpre.last());
                            assert(self.global_stack.deep_view() =~= gpre.drop_last());
                        }
                        let name: String = match var {
                            Item::Variable(v) => v.name,
                            _ => String::new(),
                        };
                        match lookup_v1(&self.variable_stack, name.as_str()) {
                            Some(x) => {
                                self.ans = x;
                            },
                            None => {
                                return Err(SyntaxParseError::NotAValidSyntaxItem);
                            },
                        }
                        let ghost g2 = self.global_stack.deep_view();
                        let ans_now = self.ans;
                        self.global_stack.push(Item::Literal(ans_now));
                        proof {
                            assert(self.global_stack.deep_view() =~= g2.push(
                                ItemV::Lit { value: ans_now },
                            ));
                        }
                    }
                },
            }
            e -= 1;
        }
        if self.global_stack.len() != 1 {
            return Err(SyntaxParseError::NotAValidSyntaxItem);
        }
        Ok(())
    }
}

impl Variable {
    /// A fresh, unnamed variable with value zero.
    pub fn new() -> (r: Self)
        ensures
            r@ == (VarV1 { name: Seq::<char>::empty(), value: 0 }),
    {
        Self { name: String::new(), value: 0 }
    }
}

} // verus!
