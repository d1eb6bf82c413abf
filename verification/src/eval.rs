//! The structural check of a postfix sequence: one left-to-right pass that
//! mirrors the stack evaluation without computing numbers, counting the
//! values an evaluator would hold and resolving function names. A sequence
//! that passes reduces to exactly one value, so a numeric reduction of it
//! can never run out of operands; a sequence that fails is rejected with
//! the error the evaluator would meet first.

use vstd::prelude::*;

use crate::token::{is_op_char, views, EvalError, Token, TokenV};

verus! {

/// The unary function names the evaluator resolves.
pub open spec fn known_function(name: Seq<char>) -> bool {
    ||| name == "abs"@
    ||| name == "sin"@
    ||| name == "cos"@
    ||| name == "ln"@
    ||| name == "exp"@
    ||| name == "sqrt"@
}

/// The stack-depth and name check over a postfix sequence, left to right,
/// with `depth` values already on the value stack: a number or the
/// variable pushes one value, an operator consumes two and pushes one, a
/// known function consumes and pushes one. The result is the final depth,
/// or the first failure.
pub open spec fn check_rec(ts: Seq<TokenV>, depth: nat) -> Result<nat, EvalError>
    decreases ts.len(),
{
    if ts.len() == 0 {
        Ok(depth)
    } else {
        match ts[0] {
            TokenV::Number(_) => check_rec(ts.skip(1), depth + 1),
            TokenV::Variable => check_rec(ts.skip(1), depth + 1),
            TokenV::Operator(c, _) => if depth < 2 {
                Err(EvalError::MissingOperand)
            } else if !is_op_char(c) {
                Err(EvalError::MalformedExpression)
            } else {
                check_rec(ts.skip(1), (depth - 1) as nat)
            },
            TokenV::Function(name) => if depth < 1 {
                Err(EvalError::MissingOperand)
            } else if !known_function(name) {
                Err(EvalError::UnknownFunction)
            } else {
                check_rec(ts.skip(1), depth)
            },
        }
    }
}

/// Whether a postfix sequence is directly reducible by a single
/// left-to-right stack pass to exactly one value: the check passes, and
/// ends with exactly one value on the stack.
pub open spec fn postfix_check(ts: Seq<TokenV>) -> Result<(), EvalError> {
    match check_rec(ts, 0) {
        Ok(d) => if d == 1 {
            Ok(())
        } else {
            Err(EvalError::MalformedExpression)
        },
        Err(e) => Err(e),
    }
}

/// Whether a function name is one the evaluator resolves.
fn is_known_name(name: &String) -> (b: bool)
    ensures
        b == known_function(name@),
{
    *name == "abs".to_owned() || *name == "sin".to_owned() || *name == "cos".to_owned() || *name
        == "ln".to_owned() || *name == "exp".to_owned() || *name == "sqrt".to_owned()
}

/// Checks that a postfix sequence reduces by one left-to-right stack pass
/// to exactly one value, with every operator one of `+ - * /` and every
/// function name known; otherwise reports the first error the stack
/// evaluation would meet: too few operands for an operator or a function,
/// an unresolved function name, or a final stack that does not hold
/// exactly one value.
#[verifier::loop_isolation(false)]
pub fn check_postfix(postfix: &Vec<Token>) -> (r: Result<(), EvalError>)
    ensures
        r == postfix_check(views(postfix@)),
{
    let ghost ts = views(postfix@);
    let mut depth: usize = 0;
    let mut i: usize = 0;
    proof {
        assert(ts.skip(0) =~= ts);
    }
    while i < postfix.len()
        invariant
            i <= postfix@.len(),
            depth <= i,
            check_rec(ts.skip(i as int), depth as nat) == check_rec(ts, 0),
        decreases postfix@.len() - i,
    {
        proof {
            assert(ts.skip(i as int)[0] == ts[i as int]);
            assert(ts[i as int] == postfix@[i as int]@);
            assert(ts.skip(i as int).skip(1) =~= ts.skip(i as int + 1));
        }
        match &postfix[i] {
            Token::Number(_) => {
                depth = depth + 1;
            },
            Token::Variable => {
                depth = depth + 1;
            },
            Token::Operator(c, _) => {
                if depth < 2 {
                    return Err(EvalError::MissingOperand);
                }
                let u = *c as u32;
                if !(u == 42 || u == 43 || u == 45 || u == 47) {
                    return Err(EvalError::MalformedExpression);
                }
                depth = depth - 1;
            },
            Token::Function(name) => {
                if depth < 1 {
                    return Err(EvalError::MissingOperand);
                }
                if !is_known_name(name) {
                    return Err(EvalError::UnknownFunction);
                }
            },
        }
        i = i + 1;
    }
    proof {
        assert(ts.skip(i as int) =~= Seq::<TokenV>::empty());
    }
    if depth == 1 {
        Ok(())
    } else {
        Err(EvalError::MalformedExpression)
    }
}

} // verus!
