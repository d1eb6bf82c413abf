//! Rendering token sequences back to text: a number as its decimal
//! numeral, an operator as its symbol, a function as its name, the
//! variable as `x`, and a whole postfix sequence between brackets with
//! `, ` between the tokens.

use vstd::prelude::*;

use crate::token::{views, Token, TokenV};
use vstd::string::StringExecFns;

verus! {

/// The character of a decimal digit value.
pub open spec fn digit_char(n: nat) -> char {
    if n == 0 {
        '0'
    } else if n == 1 {
        '1'
    } else if n == 2 {
        '2'
    } else if n == 3 {
        '3'
    } else if n == 4 {
        '4'
    } else if n == 5 {
        '5'
    } else if n == 6 {
        '6'
    } else if n == 7 {
        '7'
    } else if n == 8 {
        '8'
    } else {
        '9'
    }
}

/// The decimal numeral of a number, most significant digit first.
pub open spec fn dec_str(n: nat) -> Seq<char>
    decreases n,
{
    if n < 10 {
        seq![digit_char(n)]
    } else {
        dec_str(n / 10).push(digit_char(n % 10))
    }
}

/// An operator symbol as text: the four binary operators and the
/// parentheses render as themselves, anything else as `?`.
pub open spec fn op_char_str(c: char) -> Seq<char> {
    if c == '+' || c == '-' || c == '*' || c == '/' || c == '(' || c == ')' {
        seq![c]
    } else {
        seq!['?']
    }
}

/// One token as text.
pub open spec fn token_str(t: TokenV) -> Seq<char> {
    match t {
        TokenV::Number(v) => dec_str(v as nat),
        TokenV::Operator(c, _) => op_char_str(c),
        TokenV::Function(name) => name,
        TokenV::Variable => seq!['x'],
    }
}

/// A sequence of tokens as text, separated by `, `.
pub open spec fn tokens_str(ts: Seq<TokenV>) -> Seq<char>
    decreases ts.len(),
{
    if ts.len() == 0 {
        Seq::empty()
    } else if ts.len() == 1 {
        token_str(ts[0])
    } else {
        tokens_str(ts.drop_last()) + seq![',', ' '] + token_str(ts.last())
    }
}

/// A postfix sequence as text, between brackets.
pub open spec fn postfix_str(ts: Seq<TokenV>) -> Seq<char> {
    seq!['['] + tokens_str(ts) + seq![']']
}

/// Appends one decimal digit.
fn append_digit(out: &mut String, d: u16)
    requires
        d < 10,
    ensures
        final(out)@ == old(out)@ + seq![digit_char(d as nat)],
{
    proof {
        reveal_strlit("0");
        reveal_strlit("1");
        reveal_strlit("2");
        reveal_strlit("3");
        reveal_strlit("4");
        reveal_strlit("5");
        reveal_strlit("6");
        reveal_strlit("7");
        reveal_strlit("8");
        reveal_strlit("9");
    }
    match d {
        0 => out.append("0"),
        1 => out.append("1"),
        2 => out.append("2"),
        3 => out.append("3"),
        4 => out.append("4"),
        5 => out.append("5"),
        6 => out.append("6"),
        7 => out.append("7"),
        8 => out.append("8"),
        _ => out.append("9"),
    }
}

/// Appends the decimal numeral of a number, most significant digit first.
fn append_number(out: &mut String, v: u16)
    ensures
        final(out)@ == old(out)@ + dec_str(v as nat),
    decreases v,
{
    if v < 10 {
        append_digit(out, v);
    } else {
        append_number(out, v / 10);
        append_digit(out, v % 10);
        proof {
            assert(old(out)@ + dec_str((v / 10) as nat) + seq![digit_char((v % 10) as nat)]
                =~= old(out)@ + dec_str((v / 10) as nat).push(digit_char((v % 10) as nat)));
        }
    }
}

/// Appends an operator symbol.
fn append_op_char(out: &mut String, c: char)
    ensures
        final(out)@ == old(out)@ + op_char_str(c),
{
    proof {
        reveal_strlit("+");
        reveal_strlit("-");
        reveal_strlit("*");
        reveal_strlit("/");
        reveal_strlit("(");
        reveal_strlit(")");
        reveal_strlit("?");
    }
    let u = c as u32;
    if u == 43 {
        out.append("+");
    } else if u == 45 {
        out.append("-");
    } else if u == 42 {
        out.append("*");
    } else if u == 47 {
        out.append("/");
    } else if u == 40 {
        out.append("(");
    } else if u == 41 {
        out.append(")");
    } else {
        out.append("?");
    }
}

/// Appends one token as text.
fn append_token(out: &mut String, t: &Token)
    ensures
        final(out)@ == old(out)@ + token_str(t@),
{
    match t {
        Token::Number(v) => append_number(out, *v),
        Token::Operator(c, _) => append_op_char(out, *c),
        Token::Function(name) => out.append(name.as_str()),
        Token::Variable => {
            proof {
                reveal_strlit("x");
            }
            out.append("x");
        },
    }
}

/// Renders a token sequence between brackets with `, ` between the
/// tokens, the way a postfix sequence is usually written down:
/// `[3, x, 2, *, +]`.
#[verifier::loop_isolation(false)]
pub fn postfix_to_string(postfix: &Vec<Token>) -> (r: String)
    ensures
        r@ == postfix_str(views(postfix@)),
{
    let ghost ts = views(postfix@);
    let mut out = String::new();
    proof {
        reveal_strlit("[");
        reveal_strlit("]");
        reveal_strlit(", ");
        assert(Seq::<char>::empty() + "["@ =~= seq!['[']);
    }
    out.append("[");
    let mut i: usize = 0;
    proof {
        assert(tokens_str(ts.take(0)) =~= Seq::<char>::empty());
        assert(out@ =~= seq!['['] + tokens_str(ts.take(0)));
    }
    while i < postfix.len()
        invariant
            i <= postfix@.len(),
            out@ == seq!['['] + tokens_str(ts.take(i as int)),
        decreases postfix@.len() - i,
    {
        proof {
            assert(ts[i as int] == postfix@[i as int]@);
        }
        if i > 0 {
            out.append(", ");
        }
        append_token(&mut out, &postfix[i]);
        proof {
            let pre = ts.take(i as int);
            let now = ts.take(i as int + 1);
            assert(now.drop_last() =~= pre);
            assert(now.last() == ts[i as int]);
            if i == 0 {
                assert(now.len() == 1);
                assert(now[0] == ts[0]);
                assert(out@ =~= seq!['['] + tokens_str(now));
            } else {
                assert(tokens_str(now) == tokens_str(pre) + seq![',', ' '] + token_str(
                    ts[i as int],
                ));
                assert(", "@ =~= seq![',', ' ']);
                assert(out@ =~= seq!['['] + tokens_str(now));
            }
        }
        i = i + 1;
    }
    proof {
        assert(ts.take(postfix@.len() as int) =~= ts);
    }
    out.append("]");
    proof {
        assert(seq!['['] + tokens_str(ts) + "]"@ =~= postfix_str(ts));
    }
    out
}

} // verus!
