//! General properties of the converter, stated and proved over the scan
//! model: purity, and the standard operator-precedence shape of the
//! postfix output for formulas of one or two binary operators.
//!
//! For three or more chained operators of precedence 1 the converter's
//! simplified pop rule emits the trailing operators in reverse push
//! order (`5-2+1` becomes `[5, 2, 1, +, -]`, which groups to the right),
//! so the two-operator statements below deliberately leave out the case
//! where both operators have precedence 1.

use vstd::prelude::*;

use crate::convert::{
    close_paren, drain, flush_alph, flush_num, init_st, is_lparen, lemma_run_app, pop_high,
    pops_for_op, run, spec_parse, step, ParseSt,
};
use crate::eval::{check_rec, postfix_check};
use crate::token::{
    digit_val, digits_val, is_digit, is_letter, is_op_char, prec_of, EvalError, ParseError, TokenV,
};

verus! {

/// A character that stands for one operand: a digit or the variable `x`.
pub open spec fn atom_char(c: char) -> bool {
    is_digit(c) || c == 'x'
}

/// The token an operand character turns into.
pub open spec fn atom_token(c: char) -> TokenV {
    if c == 'x' {
        TokenV::Variable
    } else {
        TokenV::Number(digit_val(c) as u16)
    }
}

/// Parsing is pure: the scan is a function of the formula text alone, so
/// equal formulas give equal results — there is no hidden state.
pub proof fn lemma_parse_pure(f1: Seq<char>, f2: Seq<char>)
    requires
        f1 == f2,
    ensures
        spec_parse(f1) == spec_parse(f2),
{
}

/// Scanning one operand character from a state with empty buffers puts it
/// into the matching buffer.
proof fn lemma_step_atom(st: ParseSt, a: char)
    requires
        atom_char(a),
        st.num.len() == 0,
        st.alph.len() == 0,
    ensures
        step(st, a) == Ok::<ParseSt, ParseError>(
            if a == 'x' {
                ParseSt { alph: seq!['x'], ..st }
            } else {
                ParseSt { num: seq![a], ..st }
            },
        ),
{
    if a == 'x' {
        assert(st.alph.push('x') =~= seq!['x']);
        assert(step(st, a) matches Ok(m) && m =~= ParseSt { alph: seq!['x'], ..st });
    } else {
        assert(st.num.push(a) =~= seq![a]);
        assert(step(st, a) matches Ok(m) && m =~= ParseSt { num: seq![a], ..st });
    }
}

/// Flushing the buffers after one operand character emits its token.
proof fn lemma_flush_atom(st: ParseSt, a: char)
    requires
        atom_char(a),
        st.num == (if a == 'x' {
            Seq::<char>::empty()
        } else {
            seq![a]
        }),
        st.alph == (if a == 'x' {
            seq!['x']
        } else {
            Seq::<char>::empty()
        }),
    ensures
        (flush_num(st) matches Ok(m) && flush_alph(m) == ParseSt {
            postfix: st.postfix.push(atom_token(a)),
            ops: st.ops,
            num: Seq::empty(),
            alph: Seq::empty(),
        }),
{
    if a == 'x' {
        assert(flush_num(st) == Ok::<ParseSt, ParseError>(st));
        assert(flush_alph(st) =~= ParseSt {
            postfix: st.postfix.push(TokenV::Variable),
            ops: st.ops,
            num: Seq::empty(),
            alph: Seq::empty(),
        });
    } else {
        assert(seq![a].drop_last() =~= Seq::<char>::empty());
        assert(digits_val(Seq::<char>::empty()) == 0);
        assert(seq![a].last() == a);
        assert(digits_val(seq![a]) == digit_val(a));
        assert(digit_val(a) <= 9);
        assert(flush_num(st) matches Ok(m) && m =~= ParseSt {
            postfix: st.postfix.push(TokenV::Number(digit_val(a) as u16)),
            ops: st.ops,
            num: Seq::empty(),
            alph: Seq::empty(),
        });
    }
}

/// The postfix sequence of a two-operand formula `a o b` is the standard
/// operator-precedence reduction: both operands, then the operator.
pub proof fn lemma_parse_two_terms(a: char, o: char, b: char)
    requires
        atom_char(a),
        atom_char(b),
        is_op_char(o),
    ensures
        spec_parse(seq![a, o, b]) == Ok::<Seq<TokenV>, ParseError>(
            seq![atom_token(a), atom_token(b), TokenV::Operator(o, prec_of(o))],
        ),
{
    let s = seq![a, o, b];
    let op = TokenV::Operator(o, prec_of(o));
    lemma_step_atom(init_st(), a);
    let st1 = if a == 'x' {
        ParseSt { alph: seq!['x'], ..init_st() }
    } else {
        ParseSt { num: seq![a], ..init_st() }
    };
    lemma_flush_atom(st1, a);
    let st1f = ParseSt {
        postfix: seq![atom_token(a)],
        ops: Seq::empty(),
        num: Seq::empty(),
        alph: Seq::empty(),
    };
    assert(init_st().postfix.push(atom_token(a)) =~= seq![atom_token(a)]);
    assert(pop_high(st1f) == st1f);
    let st2 = ParseSt { ops: seq![op], ..st1f };
    assert(step(st1, o) matches Ok(m) && m =~= st2) by {
        assert(st1f.ops.push(op) =~= seq![op]);
    }
    lemma_step_atom(st2, b);
    let st3 = if b == 'x' {
        ParseSt { alph: seq!['x'], ..st2 }
    } else {
        ParseSt { num: seq![b], ..st2 }
    };
    assert(s.skip(1) =~= seq![o, b]);
    assert(seq![o, b].skip(1) =~= seq![b]);
    assert(seq![b].skip(1) =~= Seq::<char>::empty());
    assert(run(st3, Seq::<char>::empty()) == Ok::<ParseSt, ParseError>(st3));
    assert(run(st2, seq![b]) == Ok::<ParseSt, ParseError>(st3));
    assert(run(st1, seq![o, b]) == Ok::<ParseSt, ParseError>(st3));
    assert(run(init_st(), s) == Ok::<ParseSt, ParseError>(st3));
    lemma_flush_atom(st3, b);
    let st3f = ParseSt {
        postfix: seq![atom_token(a), atom_token(b)],
        ops: seq![op],
        num: Seq::empty(),
        alph: Seq::empty(),
    };
    assert(st2.postfix.push(atom_token(b)) =~= seq![atom_token(a), atom_token(b)]);
    assert(!is_lparen(op));
    assert(seq![op].drop_last() =~= Seq::<TokenV>::empty());
    let dr = ParseSt {
        postfix: seq![atom_token(a), atom_token(b), op],
        ops: Seq::empty(),
        num: Seq::empty(),
        alph: Seq::empty(),
    };
    assert(st3f.postfix.push(op) =~= dr.postfix);
    assert(drain(st3f) == drain(dr)) by {
        assert(ParseSt {
            postfix: st3f.postfix.push(st3f.ops.last()),
            ops: st3f.ops.drop_last(),
            ..st3f
        } =~= dr);
    }
    assert(drain(dr) == Ok::<Seq<TokenV>, ParseError>(dr.postfix));
}

/// The postfix sequence of a three-operand formula `a o1 b o2 c`, where
/// not both operators have precedence 1, is the standard
/// operator-precedence reduction: left-associative among `*` and `/`,
/// with `*` and `/` binding tighter than `+` and `-`.
pub proof fn lemma_parse_three_terms(a: char, o1: char, b: char, o2: char, c: char)
    requires
        atom_char(a),
        atom_char(b),
        atom_char(c),
        is_op_char(o1),
        is_op_char(o2),
        !(prec_of(o1) == 1 && prec_of(o2) == 1),
    ensures
        spec_parse(seq![a, o1, b, o2, c]) == Ok::<Seq<TokenV>, ParseError>(
            if prec_of(o1) == 2 {
                seq![
                    atom_token(a),
                    atom_token(b),
                    TokenV::Operator(o1, 2),
                    atom_token(c),
                    TokenV::Operator(o2, prec_of(o2)),
                ]
            } else {
                seq![
                    atom_token(a),
                    atom_token(b),
                    atom_token(c),
                    TokenV::Operator(o2, 2),
                    TokenV::Operator(o1, 1),
                ]
            },
        ),
{
    let s = seq![a, o1, b, o2, c];
    let op1 = TokenV::Operator(o1, prec_of(o1));
    let op2 = TokenV::Operator(o2, prec_of(o2));
    lemma_step_atom(init_st(), a);
    let st1 = if a == 'x' {
        ParseSt { alph: seq!['x'], ..init_st() }
    } else {
        ParseSt { num: seq![a], ..init_st() }
    };
    lemma_flush_atom(st1, a);
    let st1f = ParseSt {
        postfix: seq![atom_token(a)],
        ops: Seq::empty(),
        num: Seq::empty(),
        alph: Seq::empty(),
    };
    assert(init_st().postfix.push(atom_token(a)) =~= seq![atom_token(a)]);
    assert(pop_high(st1f) == st1f);
    let st2 = ParseSt { ops: seq![op1], ..st1f };
    assert(step(st1, o1) matches Ok(m) && m =~= st2) by {
        assert(st1f.ops.push(op1) =~= seq![op1]);
    }
    lemma_step_atom(st2, b);
    let st3 = if b == 'x' {
        ParseSt { alph: seq!['x'], ..st2 }
    } else {
        ParseSt { num: seq![b], ..st2 }
    };
    lemma_flush_atom(st3, b);
    let st3f = ParseSt {
        postfix: seq![atom_token(a), atom_token(b)],
        ops: seq![op1],
        num: Seq::empty(),
        alph: Seq::empty(),
    };
    assert(st2.postfix.push(atom_token(b)) =~= seq![atom_token(a), atom_token(b)]);
    // the incoming o2 pops op1 exactly when op1 has precedence 2
    let st4 = if prec_of(o1) == 2 {
        ParseSt {
            postfix: seq![atom_token(a), atom_token(b), op1],
            ops: seq![op2],
            num: Seq::empty(),
            alph: Seq::empty(),
        }
    } else {
        ParseSt {
            postfix: seq![atom_token(a), atom_token(b)],
            ops: seq![op1, op2],
            num: Seq::empty(),
            alph: Seq::empty(),
        }
    };
    assert(step(st3, o2) matches Ok(m) && m =~= st4) by {
        if prec_of(o1) == 2 {
            let popped = ParseSt {
                postfix: st3f.postfix.push(op1),
                ops: seq![op1].drop_last(),
                num: Seq::empty(),
                alph: Seq::empty(),
            };
            assert(seq![op1].drop_last() =~= Seq::<TokenV>::empty());
            assert(pop_high(st3f) == pop_high(popped));
            assert(pop_high(popped) == popped);
            assert(popped.ops.push(op2) =~= seq![op2]);
            assert(popped.postfix =~= seq![atom_token(a), atom_token(b), op1]);
        } else {
            assert(!(op1 matches TokenV::Operator(_, 2)));
            assert(pop_high(st3f) == st3f);
            assert(st3f.ops.push(op2) =~= seq![op1, op2]);
        }
    }
    lemma_step_atom(st4, c);
    let st5 = if c == 'x' {
        ParseSt { alph: seq!['x'], ..st4 }
    } else {
        ParseSt { num: seq![c], ..st4 }
    };
    assert(s.skip(1) =~= seq![o1, b, o2, c]);
    assert(seq![o1, b, o2, c].skip(1) =~= seq![b, o2, c]);
    assert(seq![b, o2, c].skip(1) =~= seq![o2, c]);
    assert(seq![o2, c].skip(1) =~= seq![c]);
    assert(seq![c].skip(1) =~= Seq::<char>::empty());
    assert(run(st5, Seq::<char>::empty()) == Ok::<ParseSt, ParseError>(st5));
    assert(run(st4, seq![c]) == Ok::<ParseSt, ParseError>(st5));
    assert(run(st3, seq![o2, c]) == Ok::<ParseSt, ParseError>(st5));
    assert(run(st2, seq![b, o2, c]) == Ok::<ParseSt, ParseError>(st5));
    assert(run(st1, seq![o1, b, o2, c]) == Ok::<ParseSt, ParseError>(st5));
    assert(run(init_st(), s) == Ok::<ParseSt, ParseError>(st5));
    lemma_flush_atom(st5, c);
    if prec_of(o1) == 2 {
        let st5f = ParseSt {
            postfix: seq![atom_token(a), atom_token(b), op1, atom_token(c)],
            ops: seq![op2],
            num: Seq::empty(),
            alph: Seq::empty(),
        };
        assert(st4.postfix.push(atom_token(c)) =~= st5f.postfix);
        assert(!is_lparen(op2));
        let dr = ParseSt {
            postfix: seq![atom_token(a), atom_token(b), op1, atom_token(c), op2],
            ops: Seq::empty(),
            num: Seq::empty(),
            alph: Seq::empty(),
        };
        assert(drain(st5f) == drain(dr)) by {
            assert(seq![op2].drop_last() =~= Seq::<TokenV>::empty());
            assert(ParseSt {
                postfix: st5f.postfix.push(st5f.ops.last()),
                ops: st5f.ops.drop_last(),
                ..st5f
            } =~= dr);
        }
        assert(drain(dr) == Ok::<Seq<TokenV>, ParseError>(dr.postfix));
    } else {
        let st5f = ParseSt {
            postfix: seq![atom_token(a), atom_token(b), atom_token(c)],
            ops: seq![op1, op2],
            num: Seq::empty(),
            alph: Seq::empty(),
        };
        assert(st4.postfix.push(atom_token(c)) =~= st5f.postfix);
        assert(!is_lparen(op1));
        assert(!is_lparen(op2));
        let mid = ParseSt {
            postfix: seq![atom_token(a), atom_token(b), atom_token(c), op2],
            ops: seq![op1],
            num: Seq::empty(),
            alph: Seq::empty(),
        };
        assert(drain(st5f) == drain(mid)) by {
            assert(seq![op1, op2].last() == op2);
            assert(seq![op1, op2].drop_last() =~= seq![op1]);
            assert(ParseSt {
                postfix: st5f.postfix.push(st5f.ops.last()),
                ops: st5f.ops.drop_last(),
                ..st5f
            } =~= mid);
        }
        let dr = ParseSt {
            postfix: seq![atom_token(a), atom_token(b), atom_token(c), op2, op1],
            ops: Seq::empty(),
            num: Seq::empty(),
            alph: Seq::empty(),
        };
        assert(drain(mid) == drain(dr)) by {
            assert(seq![op1].drop_last() =~= Seq::<TokenV>::empty());
            assert(ParseSt {
                postfix: mid.postfix.push(mid.ops.last()),
                ops: mid.ops.drop_last(),
                ..mid
            } =~= dr);
        }
        assert(drain(dr) == Ok::<Seq<TokenV>, ParseError>(dr.postfix));
        assert(prec_of(o2) == 2);
    }
}

/// The postfix sequence the converter produces for `a o b` reduces by a
/// single left-to-right stack pass to exactly one value: the round trip
/// from such a formula through the converter ends in one result, the
/// operator applied to the two operands in order.
pub proof fn lemma_two_terms_single_value(a: char, o: char, b: char)
    requires
        atom_char(a),
        atom_char(b),
        is_op_char(o),
    ensures
        postfix_check(seq![atom_token(a), atom_token(b), TokenV::Operator(o, prec_of(o))])
            == Ok::<(), EvalError>(()),
{
    let ts = seq![atom_token(a), atom_token(b), TokenV::Operator(o, prec_of(o))];
    assert(ts.skip(1) =~= seq![atom_token(b), TokenV::Operator(o, prec_of(o))]);
    assert(seq![atom_token(b), TokenV::Operator(o, prec_of(o))].skip(1) =~= seq![
        TokenV::Operator(o, prec_of(o)),
    ]);
    assert(seq![TokenV::Operator(o, prec_of(o))].skip(1) =~= Seq::<TokenV>::empty());
    assert(check_rec(Seq::<TokenV>::empty(), 1) == Ok::<nat, EvalError>(1));
    assert(check_rec(seq![TokenV::Operator(o, prec_of(o))], 2) == Ok::<nat, EvalError>(1));
    assert(check_rec(seq![atom_token(b), TokenV::Operator(o, prec_of(o))], 1) == Ok::<
        nat,
        EvalError,
    >(1));
    assert(check_rec(ts, 0) == Ok::<nat, EvalError>(1));
}

/// The postfix sequence the converter produces for `a o1 b o2 c`, where
/// not both operators have precedence 1, reduces by a single
/// left-to-right stack pass to exactly one value: the round trip from
/// such a formula through the converter ends in one result, grouped by
/// the standard precedence.
pub proof fn lemma_three_terms_single_value(a: char, o1: char, b: char, o2: char, c: char)
    requires
        atom_char(a),
        atom_char(b),
        atom_char(c),
        is_op_char(o1),
        is_op_char(o2),
        !(prec_of(o1) == 1 && prec_of(o2) == 1),
    ensures
        postfix_check(
            if prec_of(o1) == 2 {
                seq![
                    atom_token(a),
                    atom_token(b),
                    TokenV::Operator(o1, 2),
                    atom_token(c),
                    TokenV::Operator(o2, prec_of(o2)),
                ]
            } else {
                seq![
                    atom_token(a),
                    atom_token(b),
                    atom_token(c),
                    TokenV::Operator(o2, 2),
                    TokenV::Operator(o1, 1),
                ]
            },
        ) == Ok::<(), EvalError>(()),
{
    let op1 = TokenV::Operator(o1, prec_of(o1));
    let op2 = TokenV::Operator(o2, prec_of(o2));
    if prec_of(o1) == 2 {
        let ts = seq![atom_token(a), atom_token(b), op1, atom_token(c), op2];
        assert(ts.skip(1) =~= seq![atom_token(b), op1, atom_token(c), op2]);
        assert(seq![atom_token(b), op1, atom_token(c), op2].skip(1) =~= seq![
            op1,
            atom_token(c),
            op2,
        ]);
        assert(seq![op1, atom_token(c), op2].skip(1) =~= seq![atom_token(c), op2]);
        assert(seq![atom_token(c), op2].skip(1) =~= seq![op2]);
        assert(seq![op2].skip(1) =~= Seq::<TokenV>::empty());
        assert(check_rec(Seq::<TokenV>::empty(), 1) == Ok::<nat, EvalError>(1));
        assert(check_rec(seq![op2], 2) == Ok::<nat, EvalError>(1));
        assert(check_rec(seq![atom_token(c), op2], 1) == Ok::<nat, EvalError>(1));
        assert(check_rec(seq![op1, atom_token(c), op2], 2) == Ok::<nat, EvalError>(1));
        assert(check_rec(seq![atom_token(b), op1, atom_token(c), op2], 1) == Ok::<
            nat,
            EvalError,
        >(1));
        assert(check_rec(ts, 0) == Ok::<nat, EvalError>(1));
    } else {
        assert(prec_of(o2) == 2);
        let ts = seq![atom_token(a), atom_token(b), atom_token(c), op2, op1];
        assert(ts.skip(1) =~= seq![atom_token(b), atom_token(c), op2, op1]);
        assert(seq![atom_token(b), atom_token(c), op2, op1].skip(1) =~= seq![
            atom_token(c),
            op2,
            op1,
        ]);
        assert(seq![atom_token(c), op2, op1].skip(1) =~= seq![op2, op1]);
        assert(seq![op2, op1].skip(1) =~= seq![op1]);
        assert(seq![op1].skip(1) =~= Seq::<TokenV>::empty());
        assert(check_rec(Seq::<TokenV>::empty(), 1) == Ok::<nat, EvalError>(1));
        assert(check_rec(seq![op1], 2) == Ok::<nat, EvalError>(1));
        assert(check_rec(seq![op2, op1], 3) == Ok::<nat, EvalError>(1));
        assert(check_rec(seq![atom_token(c), op2, op1], 2) == Ok::<nat, EvalError>(1));
        assert(check_rec(seq![atom_token(b), atom_token(c), op2, op1], 1) == Ok::<
            nat,
            EvalError,
        >(1));
        assert(check_rec(ts, 0) == Ok::<nat, EvalError>(1));
    }
}

/// Scanning a run of letters only grows the letter buffer.
proof fn lemma_scan_letters(st: ParseSt, w: Seq<char>)
    requires
        forall|i: int| 0 <= i < w.len() ==> is_letter(#[trigger] w[i]),
        st.num.len() == 0,
    ensures
        run(st, w) == Ok::<ParseSt, ParseError>(ParseSt { alph: st.alph + w, ..st }),
    decreases w.len(),
{
    if w.len() == 0 {
        assert(st.alph + w =~= st.alph);
        assert(ParseSt { alph: st.alph + w, ..st } =~= st);
    } else {
        let c = w[0];
        assert(is_letter(c));
        let st1 = ParseSt { alph: st.alph.push(c), ..st };
        assert(step(st, c) matches Ok(m) && m =~= st1);
        lemma_scan_letters(st1, w.skip(1));
        assert(st.alph.push(c) + w.skip(1) =~= st.alph + w);
        assert(ParseSt { alph: st1.alph + w.skip(1), ..st1 } =~= ParseSt {
            alph: st.alph + w,
            ..st
        });
    }
}

/// The postfix sequence of a function applied to an operand and combined
/// with a binary operator, `name(b) o c`, resolves the function before
/// the operator: a pending function binds tighter than any of `+ - * /`.
pub proof fn lemma_parse_function_apply(name: Seq<char>, b: char, o: char, c: char)
    requires
        name.len() > 0,
        forall|i: int| 0 <= i < name.len() ==> is_letter(#[trigger] name[i]),
        name != seq!['x'],
        atom_char(b),
        atom_char(c),
        is_op_char(o),
    ensures
        spec_parse(name + seq!['(', b, ')', o, c]) == Ok::<Seq<TokenV>, ParseError>(
            seq![
                atom_token(b),
                TokenV::Function(name),
                atom_token(c),
                TokenV::Operator(o, prec_of(o)),
            ],
        ),
{
    let s = name + seq!['(', b, ')', o, c];
    let rest = seq!['(', b, ')', o, c];
    let fun = TokenV::Function(name);
    let op = TokenV::Operator(o, prec_of(o));
    // the letter run
    lemma_scan_letters(init_st(), name);
    let st0 = ParseSt { alph: name, ..init_st() };
    assert(init_st().alph + name =~= name);
    assert(run(init_st(), name) == Ok::<ParseSt, ParseError>(st0));
    lemma_run_app(init_st(), name, rest);
    // the opening parenthesis defers the function and pushes the sentinel
    let lp = TokenV::Operator('(', 0);
    let st1 = ParseSt {
        postfix: Seq::empty(),
        ops: seq![fun, lp],
        num: Seq::empty(),
        alph: Seq::empty(),
    };
    assert(step(st0, '(') matches Ok(m) && m =~= st1) by {
        assert(!is_digit('(') && !is_letter('(') && !is_op_char('('));
        assert(flush_alph(st0).ops =~= seq![fun]);
        assert(seq![fun].push(lp) =~= seq![fun, lp]);
    }
    // the operand
    lemma_step_atom(st1, b);
    let st2 = if b == 'x' {
        ParseSt { alph: seq!['x'], ..st1 }
    } else {
        ParseSt { num: seq![b], ..st1 }
    };
    // the closing parenthesis flushes the operand and discards the
    // sentinel; the function stays pending
    lemma_flush_atom(st2, b);
    let st3 = ParseSt {
        postfix: seq![atom_token(b)],
        ops: seq![fun],
        num: Seq::empty(),
        alph: Seq::empty(),
    };
    assert(step(st2, ')') matches Ok(m) && m =~= st3) by {
        assert(!is_digit(')') && !is_letter(')') && !is_op_char(')') && ')' != '(');
        assert(st1.postfix.push(atom_token(b)) =~= seq![atom_token(b)]);
        let flushed = ParseSt {
            postfix: seq![atom_token(b)],
            ops: seq![fun, lp],
            num: Seq::empty(),
            alph: Seq::empty(),
        };
        assert(seq![fun, lp].last() == lp);
        assert(is_lparen(lp));
        assert(seq![fun, lp].drop_last() =~= seq![fun]);
        assert(close_paren(flushed) matches Ok(m2) && m2 =~= st3);
    }
    // the operator pops the pending function before it is pushed
    let st4 = ParseSt {
        postfix: seq![atom_token(b), fun],
        ops: seq![op],
        num: Seq::empty(),
        alph: Seq::empty(),
    };
    assert(step(st3, o) matches Ok(m) && m =~= st4) by {
        let popped = ParseSt {
            postfix: seq![atom_token(b), fun],
            ops: Seq::empty(),
            num: Seq::empty(),
            alph: Seq::empty(),
        };
        assert(seq![fun].last() == fun);
        assert(seq![fun].drop_last() =~= Seq::<TokenV>::empty());
        assert(st3.postfix.push(fun) =~= seq![atom_token(b), fun]);
        assert(pop_high(st3) == pop_high(popped));
        assert(pop_high(popped) == popped);
        assert(popped.ops.push(op) =~= seq![op]);
    }
    // the trailing operand
    lemma_step_atom(st4, c);
    let st5 = if c == 'x' {
        ParseSt { alph: seq!['x'], ..st4 }
    } else {
        ParseSt { num: seq![c], ..st4 }
    };
    assert(rest.skip(1) =~= seq![b, ')', o, c]);
    assert(seq![b, ')', o, c].skip(1) =~= seq![')', o, c]);
    assert(seq![')', o, c].skip(1) =~= seq![o, c]);
    assert(seq![o, c].skip(1) =~= seq![c]);
    assert(seq![c].skip(1) =~= Seq::<char>::empty());
    assert(run(st5, Seq::<char>::empty()) == Ok::<ParseSt, ParseError>(st5));
    assert(run(st4, seq![c]) == Ok::<ParseSt, ParseError>(st5));
    assert(run(st3, seq![o, c]) == Ok::<ParseSt, ParseError>(st5));
    assert(run(st2, seq![')', o, c]) == Ok::<ParseSt, ParseError>(st5));
    assert(run(st1, seq![b, ')', o, c]) == Ok::<ParseSt, ParseError>(st5));
    assert(run(st0, rest) == Ok::<ParseSt, ParseError>(st5));
    assert(run(init_st(), s) == Ok::<ParseSt, ParseError>(st5));
    // the end of input flushes the operand and drains the operator
    lemma_flush_atom(st5, c);
    let st5f = ParseSt {
        postfix: seq![atom_token(b), fun, atom_token(c)],
        ops: seq![op],
        num: Seq::empty(),
        alph: Seq::empty(),
    };
    assert(st4.postfix.push(atom_token(c)) =~= st5f.postfix);
    assert(!is_lparen(op));
    let dr = ParseSt {
        postfix: seq![atom_token(b), fun, atom_token(c), op],
        ops: Seq::empty(),
        num: Seq::empty(),
        alph: Seq::empty(),
    };
    assert(drain(st5f) == drain(dr)) by {
        assert(seq![op].drop_last() =~= Seq::<TokenV>::empty());
        assert(ParseSt {
            postfix: st5f.postfix.push(st5f.ops.last()),
            ops: st5f.ops.drop_last(),
            ..st5f
        } =~= dr);
    }
    assert(drain(dr) == Ok::<Seq<TokenV>, ParseError>(dr.postfix));
}

/// A token the converter may emit to postfix output: never the `(`
/// sentinel — an operator token only carries one of `+ - * /`, with its
/// own precedence.
pub open spec fn wf_out_token(t: TokenV) -> bool {
    t matches TokenV::Operator(c, p) ==> is_op_char(c) && p == prec_of(c)
}

/// A token the converter may hold on the pending-operator stack: as
/// emitted, or the `(` sentinel with precedence 0.
pub open spec fn wf_ops_token(t: TokenV) -> bool {
    t matches TokenV::Operator(c, p) ==> (is_op_char(c) && p == prec_of(c)) || (c == '(' && p
        == 0)
}

/// The scan only ever holds well-formed tokens.
pub open spec fn wf_st(st: ParseSt) -> bool {
    &&& forall|i: int| 0 <= i < st.postfix.len() ==> wf_out_token(#[trigger] st.postfix[i])
    &&& forall|i: int| 0 <= i < st.ops.len() ==> wf_ops_token(#[trigger] st.ops[i])
}

proof fn lemma_pop_high_wf(st: ParseSt)
    requires
        wf_st(st),
    ensures
        wf_st(pop_high(st)),
    decreases st.ops.len(),
{
    if st.ops.len() > 0 && pops_for_op(st.ops.last()) {
        assert(wf_ops_token(st.ops.last()));
        assert(wf_out_token(st.ops.last()));
        lemma_pop_high_wf(
            ParseSt { postfix: st.postfix.push(st.ops.last()), ops: st.ops.drop_last(), ..st },
        );
    }
}

proof fn lemma_close_paren_wf(st: ParseSt)
    requires
        wf_st(st),
    ensures
        (close_paren(st) matches Ok(m) ==> wf_st(m)),
    decreases st.ops.len(),
{
    if st.ops.len() == 0 {
    } else if is_lparen(st.ops.last()) {
    } else {
        assert(wf_ops_token(st.ops.last()));
        assert(wf_out_token(st.ops.last()));
        lemma_close_paren_wf(
            ParseSt { postfix: st.postfix.push(st.ops.last()), ops: st.ops.drop_last(), ..st },
        );
    }
}

proof fn lemma_step_wf(st: ParseSt, c: char)
    requires
        wf_st(st),
    ensures
        (step(st, c) matches Ok(m) ==> wf_st(m)),
{
    if step(st, c) matches Ok(m) {
        match flush_num(st) {
            Ok(st1) => {
                let st2 = flush_alph(st1);
                assert(wf_st(st1));
                assert(wf_st(st2));
                if is_op_char(c) {
                    lemma_pop_high_wf(st2);
                } else if c == ')' && !is_digit(c) && !is_letter(c) {
                    lemma_close_paren_wf(st2);
                }
            },
            Err(_) => {
                if is_digit(c) {
                    assert(wf_st(flush_alph(st)));
                }
            },
        }
    }
}

proof fn lemma_run_wf(st: ParseSt, s: Seq<char>)
    requires
        wf_st(st),
    ensures
        (run(st, s) matches Ok(m) ==> wf_st(m)),
    decreases s.len(),
{
    if s.len() > 0 {
        lemma_step_wf(st, s[0]);
        match step(st, s[0]) {
            Ok(st1) => {
                lemma_run_wf(st1, s.skip(1));
            },
            Err(_) => {},
        }
    }
}

proof fn lemma_drain_wf(st: ParseSt)
    requires
        wf_st(st),
    ensures
        (drain(st) matches Ok(ts) ==> forall|i: int|
            0 <= i < ts.len() ==> wf_out_token(#[trigger] ts[i])),
    decreases st.ops.len(),
{
    if st.ops.len() == 0 {
    } else if is_lparen(st.ops.last()) {
    } else {
        assert(wf_ops_token(st.ops.last()));
        assert(wf_out_token(st.ops.last()));
        lemma_drain_wf(
            ParseSt { postfix: st.postfix.push(st.ops.last()), ops: st.ops.drop_last(), ..st },
        );
    }
}

/// The invariant of every postfix sequence the converter returns: it
/// never holds the `(` sentinel — every operator token in it is one of
/// `+ - * /`, carrying its own precedence.
pub proof fn lemma_postfix_tokens_well_formed(f: Seq<char>)
    ensures
        (spec_parse(f) matches Ok(ts) ==> forall|i: int|
            0 <= i < ts.len() ==> wf_out_token(#[trigger] ts[i])),
{
    assert(wf_st(init_st()));
    lemma_run_wf(init_st(), f);
    match run(init_st(), f) {
        Ok(st) => {
            match flush_num(st) {
                Ok(st1) => {
                    assert(wf_st(st1));
                    let st2 = flush_alph(st1);
                    assert(wf_st(st2));
                    lemma_drain_wf(st2);
                },
                Err(_) => {},
            }
        },
        Err(_) => {},
    }
}

} // verus!
