//! The token vocabulary shared by the tokenizer, the infix-to-postfix
//! converter and the postfix checker, together with the error types of
//! the engine and the character classes of the formula grammar.

use vstd::prelude::*;

verus! {

/// A lexical element of a formula.
///
/// `Number` holds a non-negative integer literal (the grammar has no unary
/// minus and no decimal point). `Operator` carries the operator symbol and
/// its precedence: `+` and `-` have precedence 1, `*` and `/` have
/// precedence 2, and the parenthesis sentinel `(` has precedence 0 and is
/// only ever held on the pending-operator stack, never emitted to postfix
/// output. `Function` names a unary function (a lowercase letter run other
/// than the single letter `x`), and `Variable` is the one formula input `x`.
#[derive(Clone, Debug, PartialEq, Eq)]
pub enum Token {
    Number(u16),
    Operator(char, u8),
    Function(String),
    Variable,
}

/// The mathematical shadow of a `Token`: the function name is a `Seq<char>`.
#[verifier::ext_equal]
pub enum TokenV {
    Number(u16),
    Operator(char, u8),
    Function(Seq<char>),
    Variable,
}

impl View for Token {
    type V = TokenV;

    open spec fn view(&self) -> TokenV {
        match self {
            Token::Number(n) => TokenV::Number(*n),
            Token::Operator(c, p) => TokenV::Operator(*c, *p),
            Token::Function(s) => TokenV::Function(s@),
            Token::Variable => TokenV::Variable,
        }
    }
}

/// The views of a sequence of tokens, element by element.
pub open spec fn views(ts: Seq<Token>) -> Seq<TokenV> {
    ts.map_values(|t: Token| t@)
}

/// A failure of the tokenizer or of the infix-to-postfix converter.
///
/// `UnsupportedSymbol` is raised on any character outside the grammar
/// (digits, lowercase letters, `+ - * /` and parentheses);
/// `InvalidNumber` on a numeric literal that does not fit the number type;
/// `UnbalancedParentheses` on an unmatched `(` or `)`.
#[derive(Clone, Copy, Debug, PartialEq, Eq, Structural)]
pub enum ParseError {
    UnsupportedSymbol,
    InvalidNumber,
    UnbalancedParentheses,
}

/// A failure of the postfix checker.
///
/// `MissingOperand` is raised when an operator or a function finds too few
/// values on the value stack; `UnknownFunction` when a function name is not
/// one of the supported ones; `MalformedExpression` when the sequence does
/// not reduce to exactly one value, or holds an operator symbol outside
/// `+ - * /`.
#[derive(Clone, Copy, Debug, PartialEq, Eq, Structural)]
pub enum EvalError {
    MissingOperand,
    UnknownFunction,
    MalformedExpression,
}

/// A decimal digit `0` to `9`.
pub open spec fn is_digit(c: char) -> bool {
    48 <= c as u32 <= 57
}

/// A lowercase ASCII letter `a` to `z`.
pub open spec fn is_letter(c: char) -> bool {
    97 <= c as u32 <= 122
}

/// One of the four binary operator symbols.
pub open spec fn is_op_char(c: char) -> bool {
    c == '+' || c == '-' || c == '*' || c == '/'
}

/// The precedence of a binary operator symbol: 2 for `*` and `/`,
/// 1 for `+` and `-`.
pub open spec fn prec_of(c: char) -> u8 {
    if c == '*' || c == '/' {
        2
    } else {
        1
    }
}

/// The numeric value of a digit character.
pub open spec fn digit_val(c: char) -> nat {
    (c as u32 - 48) as nat
}

/// The value of a run of digit characters read as a decimal numeral.
pub open spec fn digits_val(s: Seq<char>) -> nat
    decreases s.len(),
{
    if s.len() == 0 {
        0
    } else {
        digits_val(s.drop_last()) * 10 + digit_val(s.last())
    }
}

pub proof fn lemma_views_push(s: Seq<Token>, t: Token)
    ensures
        views(s.push(t)) == views(s).push(t@),
{
    assert(views(s.push(t)) =~= views(s).push(t@));
}

pub proof fn lemma_views_drop_last(s: Seq<Token>)
    requires
        s.len() > 0,
    ensures
        views(s.drop_last()) == views(s).drop_last(),
{
    assert(views(s.drop_last()) =~= views(s).drop_last());
}

} // verus!
