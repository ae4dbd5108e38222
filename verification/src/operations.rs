//! A standalone evaluator for chains of signed decimal operands joined by
//! binary operators, written as a postfix-style word list: the first two
//! words are operands, the third an operator, and every following
//! operand/operator pair folds into the running result from left to right.
//!
//! Arithmetic overflow, division by zero and remainder by zero are reported
//! as [`ExprError::ArithmeticFault`] instead of aborting the process.

use vstd::prelude::*;
use crate::text::{int_literal_value, is_int_literal, parse_isize};

verus! {

/// A word list to evaluate as an operand/operator chain.
pub struct Expr<'a> {
    pub expr_stack: Vec<&'a str>,
}

/// Whether the evaluator expects an operand or an operator next.
#[derive(PartialEq, Eq, Structural, Clone, Copy)]
pub enum ExprSym {
    Operand,
    Operator,
}

/// Errors of the chain evaluator.
#[derive(Debug)]
pub enum ExprError {
    ParseOperandError,
    ParseExprInvalidOperandError,
    ParseExprInvalidOperatorError,
    ParseOperatorError,
    /// Overflow of `isize`, division by zero, or remainder by zero.
    ArithmeticFault,
}

pub type ExprResult = Result<isize, ExprError>;

/// Truncating division, as `isize` division behaves (round toward zero).
pub open spec fn trunc_div(x: int, d: int) -> int {
    if x == 0 {
        0
    } else if x > 0 && d > 0 {
        x / d
    } else if x < 0 && d < 0 {
        (x * -1) / (d * -1)
    } else if x < 0 {
        ((x * -1) / d) * -1
    } else {
        (x / (d * -1)) * -1
    }
}

/// The value fits in `isize`.
pub open spec fn fits_isize(v: int) -> bool {
    isize::MIN <= v <= isize::MAX
}

/// Apply operator code `op` to `a` (the running result) and `b` (the new
/// operand): `0` add, `1` subtract, `2` multiply, `3` truncating division,
/// `4` Euclidean remainder. `None` is an arithmetic fault: a result outside
/// `isize`, or a zero divisor.
pub open spec fn op_apply(a: int, b: int, op: int) -> Option<int> {
    if op == 0 {
        if fits_isize(a + b) {
            Some(a + b)
        } else {
            None
        }
    } else if op == 1 {
        if fits_isize(a - b) {
            Some(a - b)
        } else {
            None
        }
    } else if op == 2 {
        if fits_isize(a * b) {
            Some(a * b)
        } else {
            None
        }
    } else if op == 3 {
        if b == 0 {
            None
        } else if fits_isize(trunc_div(a, b)) {
            Some(trunc_div(a, b))
        } else {
            None
        }
    } else if op == 4 {
        if b == 0 || (a == isize::MIN && b == -1) {
            None
        } else if fits_isize(a % b) {
            Some(a % b)
        } else {
            None
        }
    } else {
        Some(a)
    }
}

/// What parsing a word as an operand yields.
pub open spec fn spec_parse_operand(w: Seq<char>) -> Result<int, ExprError> {
    if is_int_literal(w) && fits_isize(int_literal_value(w)) {
        Ok(int_literal_value(w))
    } else {
        Err(ExprError::ParseOperandError)
    }
}

/// What parsing a word as an operator yields: the operator's code.
pub open spec fn spec_parse_operator(w: Seq<char>) -> Result<int, ExprError> {
    if w == seq!['+'] {
        Ok(0int)
    } else if w == seq!['-'] {
        Ok(1int)
    } else if w == seq!['*'] {
        Ok(2int)
    } else if w == seq!['/'] {
        Ok(3int)
    } else if w == seq!['%'] {
        Ok(4int)
    } else {
        Err(ExprError::ParseOperatorError)
    }
}

/// One state of the evaluator: `e` is the next word, `j` the slot being
/// filled, `curr` what is expected, and `s0 s1 s2` the working triple
/// (running result, operand, operator code). Defines the result of running
/// the evaluator to completion from that state.
pub open spec fn spec_eval_from(
    toks: Seq<Seq<char>>,
    e: int,
    j: int,
    curr: ExprSym,
    s0: int,
    s1: int,
    s2: int,
) -> Result<int, ExprError>
    decreases toks.len() - e, (if j == 3 {
        1int
    } else {
        0int
    }),
{
    if e < 0 || e >= toks.len() {
        if j == 3 {
            match op_apply(s0, s1, s2) {
                Some(v) => Ok(v),
                None => Err(ExprError::ArithmeticFault),
            }
        } else {
            Ok(s0)
        }
    } else {
        let w = toks[e];
        if j == 0 {
            if curr == ExprSym::Operand && e == 0 {
                match spec_parse_operand(w) {
                    Ok(v) => spec_eval_from(toks, e + 1, 1, ExprSym::Operand, v, s1, s2),
                    Err(err) => Err(err),
                }
            } else if curr == ExprSym::Operator {
                Err(ExprError::ParseExprInvalidOperandError)
            } else {
                match spec_parse_operand(w) {
                    Ok(v) => spec_eval_from(toks, e + 1, 2, ExprSym::Operator, s0, v, s2),
                    Err(err) => Err(err),
                }
            }
        } else if j == 1 {
            if curr == ExprSym::Operand {
                match spec_parse_operand(w) {
                    Ok(v) => spec_eval_from(toks, e + 1, 2, ExprSym::Operator, s0, v, s2),
                    Err(err) => Err(err),
                }
            } else {
                Err(ExprError::ParseExprInvalidOperandError)
            }
        } else if j == 2 {
            if curr == ExprSym::Operand {
                Err(ExprError::ParseExprInvalidOperatorError)
            } else {
                match spec_parse_operator(w) {
                    Ok(c) => spec_eval_from(toks, e + 1, 3, curr, s0, s1, c),
                    Err(err) => Err(err),
                }
            }
        } else if j == 3 {
            match op_apply(s0, s1, s2) {
                Some(v) => spec_eval_from(toks, e, 0, ExprSym::Operand, v, s1, s2),
                None => Err(ExprError::ArithmeticFault),
            }
        } else {
            Ok(s0)
        }
    }
}

/// The result of evaluating a word list from the initial state.
pub open spec fn spec_eval(toks: Seq<Seq<char>>) -> Result<int, ExprError> {
    spec_eval_from(toks, 0, 0, ExprSym::Operand, 0, 0, 0)
}

/// Left-to-right fold of the operand/operator pairs from index `i` into the
/// running result `acc`; `None` marks an arithmetic fault.
pub open spec fn chain_fold(acc: Option<int>, vals: Seq<int>, ops: Seq<int>, i: int) -> Option<int>
    decreases vals.len() - i,
{
    match acc {
        None => None,
        Some(a) => if i < 0 || i >= vals.len() {
            acc
        } else {
            chain_fold(op_apply(a, vals[i], ops[i]), vals, ops, i + 1)
        },
    }
}

/// The word list is a well-formed chain: a leading operand parsed as `v0`,
/// then operand/operator pairs parsed as `vals` and `ops`.
pub open spec fn chain_shape(toks: Seq<Seq<char>>, v0: int, vals: Seq<int>, ops: Seq<int>) -> bool {
    &&& toks.len() == 1 + 2 * vals.len()
    &&& ops.len() == vals.len()
    &&& spec_parse_operand(toks[0]) == Ok::<int, ExprError>(v0)
    &&& forall|i: int|
        0 <= i < vals.len() ==> spec_parse_operand(toks[1 + 2 * i]) == Ok::<int, ExprError>(
            #[trigger] vals[i],
        )
    &&& forall|i: int|
        0 <= i < vals.len() ==> spec_parse_operator(toks[2 + 2 * i]) == Ok::<int, ExprError>(
            #[trigger] ops[i],
        )
}

proof fn lemma_chain_tail(toks: Seq<Seq<char>>, vals: Seq<int>, ops: Seq<int>, i: int, acc: int)
    requires
        toks.len() == 1 + 2 * vals.len(),
        ops.len() == vals.len(),
        forall|m: int|
            0 <= m < vals.len() ==> spec_parse_operand(toks[1 + 2 * m]) == Ok::<int, ExprError>(
                #[trigger] vals[m],
            ),
        forall|m: int|
            0 <= m < vals.len() ==> spec_parse_operator(toks[2 + 2 * m]) == Ok::<int, ExprError>(
                #[trigger] ops[m],
            ),
        0 <= i < vals.len(),
    ensures
        spec_eval_from(toks, 3 + 2 * i, 3, ExprSym::Operator, acc, vals[i], ops[i]) == (
        match chain_fold(op_apply(acc, vals[i], ops[i]), vals, ops, i + 1) {
            Some(v) => Ok::<int, ExprError>(v),
            None => Err::<int, ExprError>(ExprError::ArithmeticFault),
        }),
    decreases vals.len() - i,
{
    let e = 3 + 2 * i;
    match op_apply(acc, vals[i], ops[i]) {
        None => {},
        Some(a2) => {
            if i + 1 == vals.len() {
                assert(e == toks.len());
            } else {
                assert(e == 1 + 2 * (i + 1));
                assert(spec_eval_from(toks, e, 3, ExprSym::Operator, acc, vals[i], ops[i])
                    == spec_eval_from(toks, e, 0, ExprSym::Operand, a2, vals[i], ops[i]));
                assert(spec_eval_from(toks, e, 0, ExprSym::Operand, a2, vals[i], ops[i])
                    == spec_eval_from(toks, e + 1, 2, ExprSym::Operator, a2, vals[i + 1], ops[i]));
                assert(spec_eval_from(toks, e + 1, 2, ExprSym::Operator, a2, vals[i + 1], ops[i])
                    == spec_eval_from(
                    toks,
                    e + 2,
                    3,
                    ExprSym::Operator,
                    a2,
                    vals[i + 1],
                    ops[i + 1],
                ));
                lemma_chain_tail(toks, vals, ops, i + 1, a2);
            }
        },
    }
}

/// For a well-formed operand/operator chain, evaluation yields the
/// conventional left-to-right result: each pair folds into the running
/// value in source order, and a fault anywhere along the fold is reported
/// as an arithmetic fault.
pub proof fn lemma_eval_chain(toks: Seq<Seq<char>>, v0: int, vals: Seq<int>, ops: Seq<int>)
    requires
        chain_shape(toks, v0, vals, ops),
    ensures
        spec_eval(toks) == (match chain_fold(Some(v0), vals, ops, 0) {
            Some(v) => Ok::<int, ExprError>(v),
            None => Err::<int, ExprError>(ExprError::ArithmeticFault),
        }),
{
    assert(spec_eval(toks) == spec_eval_from(toks, 1, 1, ExprSym::Operand, v0, 0, 0));
    if vals.len() == 0 {
        assert(toks.len() == 1);
    } else {
        assert(spec_eval_from(toks, 1, 1, ExprSym::Operand, v0, 0, 0) == spec_eval_from(
            toks,
            2,
            2,
            ExprSym::Operator,
            v0,
            vals[0],
            0,
        ));
        assert(spec_eval_from(toks, 2, 2, ExprSym::Operator, v0, vals[0], 0) == spec_eval_from(
            toks,
            3,
            3,
            ExprSym::Operator,
            v0,
            vals[0],
            ops[0],
        ));
        lemma_chain_tail(toks, vals, ops, 0, v0);
    }
}

impl<'a> View for Expr<'a> {
    type V = Seq<Seq<char>>;

    open spec fn view(&self) -> Seq<Seq<char>> {
        self.expr_stack.deep_view()
    }
}

impl<'a> Expr<'a> {
    /// Wrap a word list for evaluation.
    pub fn new(expr_stack: Vec<&'a str>) -> (r: Self)
        ensures
            r@ == expr_stack.deep_view(),
    {
        Self { expr_stack }
    }

    /// Evaluate the word list: the first word is an operand, then each
    /// operand/operator pair folds into the running result left to right.
    pub fn eval(&self) -> (r: ExprResult)
        ensures
            match spec_eval(self@) {
                Ok(v) => r matches Ok(x) && x as int == v,
                Err(err) => r matches Err(e2) && e2 == err,
            },
    {
        let mut curr = ExprSym::Operand;
        let mut s0: isize = 0;
        let mut s1: isize = 0;
        let mut s2: isize = 0;
        let mut j: usize = 0;
        let mut e: usize = 0;
        let n = self.expr_stack.len();
        while e < n
            invariant
                n == self@.len(),
                n == self.expr_stack.len(),
                0 <= e <= n,
                0 <= j <= 3,
                spec_eval(self@) == spec_eval_from(
                    self@,
                    e as int,
                    j as int,
                    curr,
                    s0 as int,
                    s1 as int,
                    s2 as int,
                ),
            decreases n - e, (if j == 3 {
                1int
            } else {
                0int
            }),
        {
            let i: &str = self.expr_stack[e];
            proof {
                assert(self@[e as int] == i@);
            }
            if j == 0 {
                if curr == ExprSym::Operand && e == 0 {
                    s0 = match Self::parse_operand(i) {
                        Ok(v) => v,
                        Err(err) => {
                            return Err(err);
                        },
                    };
                    curr = ExprSym::Operand;
                    j = 1;
                    e += 1;
                } else if curr == ExprSym::Operator {
                    return Err(ExprError::ParseExprInvalidOperandError);
                } else {
                    s1 = match Self::parse_operand(i) {
                        Ok(v) => v,
                        Err(err) => {
                            return Err(err);
                        },
                    };
                    curr = ExprSym::Operator;
                    j = 2;
                    e += 1;
                }
            } else if j == 1 {
                if curr == ExprSym::Operand {
                    s1 = match Self::parse_operand(i) {
                        Ok(v) => v,
                        Err(err) => {
                            return Err(err);
                        },
                    };
                    curr = ExprSym::Operator;
                    j = 2;
                    e += 1;
                } else {
                    return Err(ExprError::ParseExprInvalidOperandError);
                }
            } else if j == 2 {
                if curr == ExprSym::Operand {
                    return Err(ExprError::ParseExprInvalidOperatorError);
                } else {
                    s2 = match Self::parse_operator(i) {
                        Ok(c) => c,
                        Err(err) => {
                            return Err(err);
                        },
                    };
                    j = 3;
                    e += 1;
                }
            } else {
                s0 = match Self::run(s0, s1, s2) {
                    Some(v) => v,
                    None => {
                        return Err(ExprError::ArithmeticFault);
                    },
                };
                j = 0;
                curr = ExprSym::Operand;
            }
        }
        if j == 3 {
            s0 = match Self::run(s0, s1, s2) {
                Some(v) => v,
                None => {
                    return Err(ExprError::ArithmeticFault);
                },
            };
        }
        Ok(s0)
    }

    /// Apply the operator in slot two to the operands in slots zero and one.
    fn run(s0: isize, s1: isize, s2: isize) -> (r: Option<isize>)
        ensures
            match op_apply(s0 as int, s1 as int, s2 as int) {
                Some(v) => r matches Some(x) && x as int == v,
                None => r is None,
            },
    {
        if s2 == 0 {
            s0.checked_add(s1)
        } else if s2 == 1 {
            s0.checked_sub(s1)
        } else if s2 == 2 {
            s0.checked_mul(s1)
        } else if s2 == 3 {
            s0.checked_div(s1)
        } else if s2 == 4 {
            s0.checked_rem_euclid(s1)
        } else {
            Some(s0)
        }
    }

    /// Parse a word as a signed decimal operand.
    fn parse_operand(curr: &str) -> (r: ExprResult)
        ensures
            match spec_parse_operand(curr@) {
                Ok(v) => r matches Ok(x) && x as int == v,
                Err(err) => r matches Err(e2) && e2 == err,
            },
    {
        match parse_isize(curr) {
            Some(n) => Ok(n),
            None => Err(ExprError::ParseOperandError),
        }
    }

    /// Parse a word as an operator, yielding its code.
    fn parse_operator(curr: &str) -> (r: ExprResult)
        ensures
            match spec_parse_operator(curr@) {
                Ok(v) => r matches Ok(x) && x as int == v,
                Err(err) => r matches Err(e2) && e2 == err,
            },
    {
        let n = curr.unicode_len();
        if n == 1 {
            let c = curr.get_char(0);
            proof {
                assert(c == '+' ==> curr@ =~= seq!['+']);
                assert(c == '-' ==> curr@ =~= seq!['-']);
                assert(c == '*' ==> curr@ =~= seq!['*']);
                assert(c == '/' ==> curr@ =~= seq!['/']);
                assert(c == '%' ==> curr@ =~= seq!['%']);
            }
            if c == '+' {
                Ok(0)
            } else if c == '-' {
                Ok(1)
            } else if c == '*' {
                Ok(2)
            } else if c == '/' {
                Ok(3)
            } else if c == '%' {
                Ok(4)
            } else {
                Err(ExprError::ParseOperatorError)
            }
        } else {
            Err(ExprError::ParseOperatorError)
        }
    }
}

} // verus!
