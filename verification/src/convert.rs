//! The tokenizer and the infix-to-postfix converter.
//!
//! The converter is a simplified operator-precedence (shunting-yard)
//! reduction folded into the per-character scan: digit runs become
//! `Number` tokens emitted straight to output, letter runs become the
//! `Variable` or a pending `Function`, and on a binary operator the
//! pending stack is popped to output while its top is a precedence-2
//! operator or a function. The whole scan is modelled by the spec
//! functions below, and `parse` is proved to return exactly what the
//! model says.

use vstd::prelude::*;

use crate::token::{
    digit_val, digits_val, is_digit, is_letter, is_op_char, lemma_views_drop_last,
    lemma_views_push, prec_of, views, ParseError, Token, TokenV,
};
use vstd::string::StrSliceExecFns;

verus! {

/// The state of the scan: the postfix output, the pending-operator stack,
/// and the two accumulation buffers (a digit run and a letter run).
#[verifier::ext_equal]
pub ghost struct ParseSt {
    pub postfix: Seq<TokenV>,
    pub ops: Seq<TokenV>,
    pub num: Seq<char>,
    pub alph: Seq<char>,
}

/// The state at the start of a scan: everything empty.
pub open spec fn init_st() -> ParseSt {
    ParseSt {
        postfix: Seq::empty(),
        ops: Seq::empty(),
        num: Seq::empty(),
        alph: Seq::empty(),
    }
}

/// Flushing the digit buffer: an empty buffer is a no-op; otherwise the
/// run is read as a decimal numeral and emitted as a `Number`, or the
/// scan fails with `InvalidNumber` when the value does not fit in `u16`.
pub open spec fn flush_num(st: ParseSt) -> Result<ParseSt, ParseError> {
    if st.num.len() == 0 {
        Ok(st)
    } else if digits_val(st.num) > u16::MAX {
        Err(ParseError::InvalidNumber)
    } else {
        Ok(
            ParseSt {
                postfix: st.postfix.push(TokenV::Number(digits_val(st.num) as u16)),
                num: Seq::empty(),
                ..st
            },
        )
    }
}

/// Flushing the letter buffer: an empty buffer is a no-op; the single
/// letter `x` is emitted as `Variable`; any other run is pushed onto the
/// pending-operator stack as a `Function`, to be resolved by a later pop.
pub open spec fn flush_alph(st: ParseSt) -> ParseSt {
    if st.alph.len() == 0 {
        st
    } else if st.alph == seq!['x'] {
        ParseSt { postfix: st.postfix.push(TokenV::Variable), alph: Seq::empty(), ..st }
    } else {
        ParseSt { ops: st.ops.push(TokenV::Function(st.alph)), alph: Seq::empty(), ..st }
    }
}

/// A pending token that an incoming binary operator forces to output:
/// a precedence-2 operator (`*` or `/`) or a function.
pub open spec fn pops_for_op(t: TokenV) -> bool {
    t matches TokenV::Operator(_, 2) || t matches TokenV::Function(_)
}

/// The precedence-resolution loop: pop the pending stack to output while
/// its top is a precedence-2 operator or a function.
pub open spec fn pop_high(st: ParseSt) -> ParseSt
    decreases st.ops.len(),
{
    if st.ops.len() > 0 && pops_for_op(st.ops.last()) {
        pop_high(
            ParseSt { postfix: st.postfix.push(st.ops.last()), ops: st.ops.drop_last(), ..st },
        )
    } else {
        st
    }
}

/// The `(` sentinel on the pending stack.
pub open spec fn is_lparen(t: TokenV) -> bool {
    t matches TokenV::Operator(c, _) && c == '('
}

/// Handling `)`: pop the pending stack to output until the matching `(`
/// sentinel, which is discarded; an exhausted stack means the `)` had no
/// match.
pub open spec fn close_paren(st: ParseSt) -> Result<ParseSt, ParseError>
    decreases st.ops.len(),
{
    if st.ops.len() == 0 {
        Err(ParseError::UnbalancedParentheses)
    } else if is_lparen(st.ops.last()) {
        Ok(ParseSt { ops: st.ops.drop_last(), ..st })
    } else {
        close_paren(
            ParseSt { postfix: st.postfix.push(st.ops.last()), ops: st.ops.drop_last(), ..st },
        )
    }
}

/// One character of the scan.
pub open spec fn step(st: ParseSt, c: char) -> Result<ParseSt, ParseError> {
    if is_digit(c) {
        let st1 = flush_alph(st);
        Ok(ParseSt { num: st1.num.push(c), ..st1 })
    } else if is_letter(c) {
        match flush_num(st) {
            Ok(st1) => Ok(ParseSt { alph: st1.alph.push(c), ..st1 }),
            Err(e) => Err(e),
        }
    } else if is_op_char(c) {
        match flush_num(st) {
            Ok(st1) => {
                let st2 = pop_high(flush_alph(st1));
                Ok(ParseSt { ops: st2.ops.push(TokenV::Operator(c, prec_of(c))), ..st2 })
            },
            Err(e) => Err(e),
        }
    } else if c == '(' {
        match flush_num(st) {
            Ok(st1) => {
                let st2 = flush_alph(st1);
                Ok(ParseSt { ops: st2.ops.push(TokenV::Operator('(', 0)), ..st2 })
            },
            Err(e) => Err(e),
        }
    } else if c == ')' {
        match flush_num(st) {
            Ok(st1) => close_paren(flush_alph(st1)),
            Err(e) => Err(e),
        }
    } else {
        Err(ParseError::UnsupportedSymbol)
    }
}

/// The scan over a sequence of characters, character by character.
pub open spec fn run(st: ParseSt, s: Seq<char>) -> Result<ParseSt, ParseError>
    decreases s.len(),
{
    if s.len() == 0 {
        Ok(st)
    } else {
        match step(st, s[0]) {
            Ok(st1) => run(st1, s.skip(1)),
            Err(e) => Err(e),
        }
    }
}

/// The end-of-input drain of the pending stack, in pop (LIFO) order.
/// A leftover `(` sentinel means an opening parenthesis was never closed:
/// it is never emitted to output, so the scan fails instead.
pub open spec fn drain(st: ParseSt) -> Result<Seq<TokenV>, ParseError>
    decreases st.ops.len(),
{
    if st.ops.len() == 0 {
        Ok(st.postfix)
    } else if is_lparen(st.ops.last()) {
        Err(ParseError::UnbalancedParentheses)
    } else {
        drain(ParseSt { postfix: st.postfix.push(st.ops.last()), ops: st.ops.drop_last(), ..st })
    }
}

/// The end of the scan: flush both buffers, then drain the pending stack.
pub open spec fn finalize(st: ParseSt) -> Result<Seq<TokenV>, ParseError> {
    match flush_num(st) {
        Ok(st1) => drain(flush_alph(st1)),
        Err(e) => Err(e),
    }
}

/// What `parse` returns on a formula: the scan from the empty state,
/// finished by the end-of-input flush and drain.
pub open spec fn spec_parse(s: Seq<char>) -> Result<Seq<TokenV>, ParseError> {
    match run(init_st(), s) {
        Ok(st) => finalize(st),
        Err(e) => Err(e),
    }
}

/// A scan over `a + b` is the scan over `a` continued over `b`;
/// an error in `a` is the error of the whole.
pub proof fn lemma_run_app(st: ParseSt, a: Seq<char>, b: Seq<char>)
    ensures
        run(st, a + b) == match run(st, a) {
            Ok(m) => run(m, b),
            Err(e) => Err::<ParseSt, ParseError>(e),
        },
    decreases a.len(),
{
    if a.len() == 0 {
        assert(a + b =~= b);
    } else {
        assert((a + b)[0] == a[0]);
        assert((a + b).skip(1) =~= a.skip(1) + b);
        match step(st, a[0]) {
            Ok(st1) => {
                lemma_run_app(st1, a.skip(1), b);
            },
            Err(_) => {},
        }
    }
}

/// The state of the scan as the executable loop holds it: the current
/// accumulation run is `s[rs..i]`, classified by its first character, and
/// at most one of the two buffers is non-empty.
pub open spec fn loop_st(s: Seq<char>, rs: int, i: int, pf: Seq<TokenV>, ops: Seq<TokenV>) -> ParseSt {
    let runv = s.subrange(rs, i);
    ParseSt {
        postfix: pf,
        ops: ops,
        num: if runv.len() > 0 && is_digit(s[rs]) {
            runv
        } else {
            Seq::empty()
        },
        alph: if runv.len() > 0 && is_letter(s[rs]) {
            runv
        } else {
            Seq::empty()
        },
    }
}

/// Reads the digit run `expression[from..to]` as a decimal numeral and
/// emits it to the postfix output as a `Number` token. An empty run is a
/// no-op; a value that does not fit in `u16` fails with `InvalidNumber`.
pub fn materialize_number(
    expression: &str,
    from: usize,
    to: usize,
    postfix: &mut Vec<Token>,
) -> (r: Result<(), ParseError>)
    requires
        from <= to <= expression@.len(),
        forall|j: int| from <= j < to ==> is_digit(#[trigger] expression@[j]),
    ensures
        ({
            let s = expression@.subrange(from as int, to as int);
            match r {
                Ok(_) => {
                    &&& from == to ==> final(postfix)@ == old(postfix)@
                    &&& from < to ==> digits_val(s) <= u16::MAX && views(final(postfix)@)
                        == views(old(postfix)@).push(TokenV::Number(digits_val(s) as u16))
                },
                Err(e) => {
                    &&& e == ParseError::InvalidNumber
                    &&& from < to
                    &&& digits_val(s) > u16::MAX
                    &&& final(postfix)@ == old(postfix)@
                },
            }
        }),
{
    if from == to {
        return Ok(());
    }
    let mut val: u32 = 0;
    let mut over: bool = false;
    let mut i: usize = from;
    while i < to
        invariant
            from <= i <= to <= expression@.len(),
            forall|j: int| from <= j < to ==> is_digit(#[trigger] expression@[j]),
            !over ==> val == digits_val(expression@.subrange(from as int, i as int)) && val
                <= 65535,
            over ==> digits_val(expression@.subrange(from as int, i as int)) > 65535,
        decreases to - i,
    {
        let c = expression.get_char(i);
        proof {
            let pre = expression@.subrange(from as int, i as int);
            assert(expression@.subrange(from as int, i as int + 1) =~= pre.push(
                expression@[i as int],
            ));
            assert(pre.push(expression@[i as int]).drop_last() =~= pre);
        }
        let d: u32 = c as u32 - 48;
        if !over {
            let nv: u32 = val * 10 + d;
            if nv > 65535 {
                over = true;
            } else {
                val = nv;
            }
        }
        i = i + 1;
    }
    if over {
        return Err(ParseError::InvalidNumber);
    }
    proof {
        lemma_views_push(postfix@, Token::Number(val as u16));
    }
    postfix.push(Token::Number(val as u16));
    Ok(())
}

/// Resolves the letter run `expression[from..to]`: the single letter `x`
/// is emitted to the postfix output as `Variable`, while any other run is
/// pushed onto the pending-operator stack as a `Function`, to be placed
/// into the output by a later precedence pop. An empty run is a no-op.
pub fn materialize_function(
    expression: &str,
    from: usize,
    to: usize,
    postfix: &mut Vec<Token>,
    operators: &mut Vec<Token>,
)
    requires
        from <= to <= expression@.len(),
        forall|j: int| from <= j < to ==> is_letter(#[trigger] expression@[j]),
    ensures
        ({
            let s = expression@.subrange(from as int, to as int);
            &&& from == to ==> final(postfix)@ == old(postfix)@ && final(operators)@ == old(
                operators,
            )@
            &&& from < to && s == seq!['x'] ==> views(final(postfix)@) == views(
                old(postfix)@,
            ).push(TokenV::Variable) && final(operators)@ == old(operators)@
            &&& from < to && s != seq!['x'] ==> final(postfix)@ == old(postfix)@ && views(
                final(operators)@,
            ) == views(old(operators)@).push(TokenV::Function(s))
        }),
{
    if from == to {
        return ;
    }
    proof {
        assert(expression@.subrange(from as int, to as int).len() == to - from);
    }
    if to - from == 1 && expression.get_char(from) == 'x' {
        proof {
            assert(expression@.subrange(from as int, to as int) =~= seq![
                expression@[from as int],
            ]);
            lemma_views_push(postfix@, Token::Variable);
        }
        postfix.push(Token::Variable);
    } else {
        let name = expression.substring_char(from, to);
        let tok = Token::Function(name.to_owned());
        proof {
            let s = expression@.subrange(from as int, to as int);
            if to - from != 1 {
                assert(s.len() != 1);
                assert(s != seq!['x']);
            } else {
                assert(s =~= seq![expression@[from as int]]);
                assert(s[0] != 'x');
                assert(s != seq!['x']);
            }
            lemma_views_push(operators@, tok);
        }
        operators.push(tok);
    }
}

/// Flushes whichever accumulation run is pending at a position where the
/// scan needs both buffers empty (a binary operator, a parenthesis, or the
/// end of the input): a digit run becomes a `Number` in the output, a
/// letter run the `Variable` or a pending `Function`.
fn flush_run(
    expression: &str,
    from: usize,
    to: usize,
    postfix: &mut Vec<Token>,
    operators: &mut Vec<Token>,
) -> (r: Result<(), ParseError>)
    requires
        from <= to <= expression@.len(),
        from < to ==> ((forall|j: int| from <= j < to ==> is_digit(#[trigger] expression@[j]))
            || (forall|j: int| from <= j < to ==> is_letter(#[trigger] expression@[j]))),
    ensures
        ({
            let st0 = loop_st(
                expression@,
                from as int,
                to as int,
                views(old(postfix)@),
                views(old(operators)@),
            );
            let st1 = ParseSt {
                postfix: views(final(postfix)@),
                ops: views(final(operators)@),
                num: Seq::empty(),
                alph: Seq::empty(),
            };
            match r {
                Ok(_) => flush_num(st0) matches Ok(m) && flush_alph(m) == st1,
                Err(e) => flush_num(st0) == Err::<ParseSt, ParseError>(e),
            }
        }),
{
    let ghost st0 = loop_st(
        expression@,
        from as int,
        to as int,
        views(postfix@),
        views(operators@),
    );
    if from == to {
        proof {
            assert(expression@.subrange(from as int, to as int).len() == 0);
            assert(flush_alph(st0) =~= st0);
        }
        return Ok(());
    }
    let f0 = expression.get_char(from);
    if (f0 as u32) <= 57 {
        proof {
            assert(is_digit(expression@[from as int]));
            assert(expression@.subrange(from as int, to as int)[0] == expression@[from as int]);
        }
        match materialize_number(expression, from, to, postfix) {
            Ok(_) => {
                proof {
                    let m = match flush_num(st0) {
                        Ok(m) => m,
                        Err(_) => st0,
                    };
                    assert(flush_alph(m) =~= ParseSt {
                        postfix: views(postfix@),
                        ops: views(operators@),
                        num: Seq::empty(),
                        alph: Seq::empty(),
                    });
                }
                Ok(())
            },
            Err(e) => Err(e),
        }
    } else {
        proof {
            assert(is_letter(expression@[from as int]));
            assert(expression@.subrange(from as int, to as int)[0] == expression@[from as int]);
        }
        materialize_function(expression, from, to, postfix, operators);
        proof {
            assert(st0.num.len() == 0);
            assert(flush_num(st0) == Ok::<ParseSt, ParseError>(st0));
            assert(flush_alph(st0) =~= ParseSt {
                postfix: views(postfix@),
                ops: views(operators@),
                num: Seq::empty(),
                alph: Seq::empty(),
            });
        }
        Ok(())
    }
}

/// A scan over one more character is the scan so far followed by one step.
pub proof fn lemma_run_snoc(st: ParseSt, a: Seq<char>, c: char)
    ensures
        run(st, a.push(c)) == match run(st, a) {
            Ok(m) => step(m, c),
            Err(e) => Err::<ParseSt, ParseError>(e),
        },
{
    assert(a.push(c) =~= a + seq![c]);
    lemma_run_app(st, a, seq![c]);
    match run(st, a) {
        Ok(m) => {
            assert(seq![c].len() == 1);
            assert(seq![c][0] == c);
            assert(seq![c].skip(1) =~= Seq::<char>::empty());
            match step(m, c) {
                Ok(m1) => {
                    assert(run(m1, seq![c].skip(1)) == Ok::<ParseSt, ParseError>(m1));
                },
                Err(_) => {},
            }
        },
        Err(_) => {},
    }
}

/// A scan that reaches character `i` in state `st` and fails there fails
/// as a whole, with the same error.
proof fn lemma_err_at(s: Seq<char>, i: int, st: ParseSt, e: ParseError)
    requires
        0 <= i < s.len(),
        run(init_st(), s.take(i)) == Ok::<ParseSt, ParseError>(st),
        step(st, s[i]) == Err::<ParseSt, ParseError>(e),
    ensures
        spec_parse(s) == Err::<Seq<TokenV>, ParseError>(e),
{
    lemma_run_snoc(init_st(), s.take(i), s[i]);
    assert(s.take(i).push(s[i]) =~= s.take(i + 1));
    lemma_run_app(init_st(), s.take(i + 1), s.skip(i + 1));
    assert(s.take(i + 1) + s.skip(i + 1) =~= s);
}

/// A scan that reaches character `i` in state `st` and steps to `st2`
/// has scanned the first `i + 1` characters into `st2`.
proof fn lemma_step_ok(s: Seq<char>, i: int, st: ParseSt, st2: ParseSt)
    requires
        0 <= i < s.len(),
        run(init_st(), s.take(i)) == Ok::<ParseSt, ParseError>(st),
        step(st, s[i]) == Ok::<ParseSt, ParseError>(st2),
    ensures
        run(init_st(), s.take(i + 1)) == Ok::<ParseSt, ParseError>(st2),
{
    lemma_run_snoc(init_st(), s.take(i), s[i]);
    assert(s.take(i).push(s[i]) =~= s.take(i + 1));
}

/// Whether the top of the pending-operator stack is forced to output by an
/// incoming binary operator.
fn top_pops_for_op(operators: &Vec<Token>) -> (b: bool)
    ensures
        b == (views(operators@).len() > 0 && pops_for_op(views(operators@).last())),
{
    if operators.len() == 0 {
        return false;
    }
    let k = operators.len() - 1;
    match &operators[k] {
        Token::Operator(_, p) => *p == 2,
        Token::Function(_) => true,
        _ => false,
    }
}

/// Scans a formula and converts it to a postfix (Reverse Polish) token
/// sequence, resolving operator precedence on the way: the result, or the
/// error, is exactly what the scan model `spec_parse` gives on the same
/// characters.
#[verifier::loop_isolation(false)]
pub fn parse(expression: &str) -> (r: Result<Vec<Token>, ParseError>)
    ensures
        ({
            let sp = spec_parse(expression@);
            match r {
                Ok(ts) => sp == Ok::<Seq<TokenV>, ParseError>(views(ts@)),
                Err(e) => sp == Err::<Seq<TokenV>, ParseError>(e),
            }
        }),
{
    let ghost s = expression@;
    let n = expression.unicode_len();
    let mut postfix: Vec<Token> = Vec::new();
    let mut operators: Vec<Token> = Vec::new();
    let mut run_start: usize = 0;
    let mut i: usize = 0;

    proof {
        assert(s.take(0) =~= Seq::<char>::empty());
        assert(views(Seq::<Token>::empty()) =~= Seq::<TokenV>::empty());
        assert(loop_st(s, 0, 0, views(postfix@), views(operators@)) =~= init_st());
    }

    while i < n
        invariant
            i <= n,
            run_start <= i,
            run_start < i ==> ((forall|j: int|
                run_start <= j < i ==> is_digit(#[trigger] s[j])) || (forall|j: int|
                run_start <= j < i ==> is_letter(#[trigger] s[j]))),
            run(init_st(), s.take(i as int)) == Ok::<ParseSt, ParseError>(
                loop_st(s, run_start as int, i as int, views(postfix@), views(operators@)),
            ),
        decreases n - i,
    {
        let ghost st_i = loop_st(s, run_start as int, i as int, views(postfix@), views(operators@));
        let c = expression.get_char(i);
        let u = c as u32;
        proof {
            assert(s.subrange(i as int, i as int + 1) =~= seq![c]);
        }
        if 48 <= u && u <= 57 {
            // a digit: flush a pending letter run, extend the digit run
            if run_start < i && (expression.get_char(run_start) as u32) >= 97 {
                proof {
                    assert(is_letter(s[run_start as int]));
                }
                materialize_function(expression, run_start, i, &mut postfix, &mut operators);
                run_start = i;
            }
            proof {
                let st2 = loop_st(
                    s,
                    run_start as int,
                    i as int + 1,
                    views(postfix@),
                    views(operators@),
                );
                assert(s.subrange(run_start as int, i as int + 1) =~= s.subrange(
                    run_start as int,
                    i as int,
                ).push(c));
                assert(flush_alph(st_i).num.push(c) =~= st2.num);
                assert(step(st_i, c) matches Ok(m) && m =~= st2);
                lemma_step_ok(s, i as int, st_i, st2);
            }
            i = i + 1;
        } else if 97 <= u && u <= 122 {
            // a letter: flush a pending digit run, extend the letter run
            if run_start < i && (expression.get_char(run_start) as u32) <= 57 {
                proof {
                    assert(is_digit(s[run_start as int]));
                }
                match materialize_number(expression, run_start, i, &mut postfix) {
                    Ok(_) => {
                        run_start = i;
                    },
                    Err(e) => {
                        proof {
                            lemma_err_at(s, i as int, st_i, e);
                        }
                        return Err(e);
                    },
                }
            }
            proof {
                let st2 = loop_st(
                    s,
                    run_start as int,
                    i as int + 1,
                    views(postfix@),
                    views(operators@),
                );
                assert(s.subrange(run_start as int, i as int + 1) =~= s.subrange(
                    run_start as int,
                    i as int,
                ).push(c));
                assert(step(st_i, c) matches Ok(m) && m =~= st2);
                lemma_step_ok(s, i as int, st_i, st2);
            }
            i = i + 1;
        } else if u == 42 || u == 43 || u == 45 || u == 47 {
            // a binary operator: flush, run the precedence pops, push it
            match flush_run(expression, run_start, i, &mut postfix, &mut operators) {
                Ok(_) => {},
                Err(e) => {
                    proof {
                        lemma_err_at(s, i as int, st_i, e);
                    }
                    return Err(e);
                },
            }
            let ghost st_f = ParseSt {
                postfix: views(postfix@),
                ops: views(operators@),
                num: Seq::empty(),
                alph: Seq::empty(),
            };
            while top_pops_for_op(&operators)
                invariant
                    pop_high(
                        ParseSt {
                            postfix: views(postfix@),
                            ops: views(operators@),
                            num: Seq::empty(),
                            alph: Seq::empty(),
                        },
                    ) == pop_high(st_f),
                decreases operators@.len(),
            {
                let ghost pf0 = postfix@;
                let ghost ops0 = operators@;
                let t = operators.pop().unwrap();
                proof {
                    assert(ops0.subrange(0, ops0.len() - 1) =~= ops0.drop_last());
                    lemma_views_drop_last(ops0);
                    lemma_views_push(pf0, t);
                }
                postfix.push(t);
                proof {
                    assert(views(ops0).last() == t@);
                    assert(ParseSt {
                        postfix: views(pf0).push(t@),
                        ops: views(ops0).drop_last(),
                        num: Seq::empty(),
                        alph: Seq::empty(),
                    } =~= ParseSt {
                        postfix: views(postfix@),
                        ops: views(operators@),
                        num: Seq::empty(),
                        alph: Seq::empty(),
                    });
                }
            }
            let p: u8 = if u == 42 || u == 47 {
                2
            } else {
                1
            };
            proof {
                assert(p == prec_of(c));
                lemma_views_push(operators@, Token::Operator(c, p));
            }
            operators.push(Token::Operator(c, p));
            run_start = i + 1;
            proof {
                let st2 = loop_st(
                    s,
                    run_start as int,
                    i as int + 1,
                    views(postfix@),
                    views(operators@),
                );
                assert(s.subrange(i as int + 1, i as int + 1) =~= Seq::<char>::empty());
                assert(step(st_i, c) matches Ok(m) && m =~= st2);
                lemma_step_ok(s, i as int, st_i, st2);
            }
            i = i + 1;
        } else if u == 40 {
            // an opening parenthesis: flush, push the sentinel
            match flush_run(expression, run_start, i, &mut postfix, &mut operators) {
                Ok(_) => {},
                Err(e) => {
                    proof {
                        lemma_err_at(s, i as int, st_i, e);
                    }
                    return Err(e);
                },
            }
            proof {
                lemma_views_push(operators@, Token::Operator('(', 0));
            }
            operators.push(Token::Operator('(', 0));
            run_start = i + 1;
            proof {
                let st2 = loop_st(
                    s,
                    run_start as int,
                    i as int + 1,
                    views(postfix@),
                    views(operators@),
                );
                assert(s.subrange(i as int + 1, i as int + 1) =~= Seq::<char>::empty());
                assert(step(st_i, c) matches Ok(m) && m =~= st2);
                lemma_step_ok(s, i as int, st_i, st2);
            }
            i = i + 1;
        } else if u == 41 {
            // a closing parenthesis: flush, pop to the matching sentinel
            match flush_run(expression, run_start, i, &mut postfix, &mut operators) {
                Ok(_) => {},
                Err(e) => {
                    proof {
                        lemma_err_at(s, i as int, st_i, e);
                    }
                    return Err(e);
                },
            }
            let ghost st_f = ParseSt {
                postfix: views(postfix@),
                ops: views(operators@),
                num: Seq::empty(),
                alph: Seq::empty(),
            };
            let mut closed = false;
            while !closed
                invariant
                    !closed ==> close_paren(
                        ParseSt {
                            postfix: views(postfix@),
                            ops: views(operators@),
                            num: Seq::empty(),
                            alph: Seq::empty(),
                        },
                    ) == close_paren(st_f),
                    closed ==> close_paren(st_f) == Ok::<ParseSt, ParseError>(
                        ParseSt {
                            postfix: views(postfix@),
                            ops: views(operators@),
                            num: Seq::empty(),
                            alph: Seq::empty(),
                        },
                    ),
                decreases operators@.len(),
            {
                if operators.len() == 0 {
                    proof {
                        lemma_err_at(s, i as int, st_i, ParseError::UnbalancedParentheses);
                    }
                    return Err(ParseError::UnbalancedParentheses);
                }
                let ghost pf0 = postfix@;
                let ghost ops0 = operators@;
                let t = operators.pop().unwrap();
                proof {
                    assert(ops0.subrange(0, ops0.len() - 1) =~= ops0.drop_last());
                    lemma_views_drop_last(ops0);
                    assert(views(ops0).last() == t@);
                }
                let is_lp = match &t {
                    Token::Operator(ch, _) => *ch == '(',
                    _ => false,
                };
                if is_lp {
                    closed = true;
                    proof {
                        assert(ParseSt {
                            postfix: views(pf0),
                            ops: views(ops0).drop_last(),
                            num: Seq::empty(),
                            alph: Seq::empty(),
                        } =~= ParseSt {
                            postfix: views(postfix@),
                            ops: views(operators@),
                            num: Seq::empty(),
                            alph: Seq::empty(),
                        });
                    }
                } else {
                    proof {
                        lemma_views_push(pf0, t);
                    }
                    postfix.push(t);
                    proof {
                        assert(ParseSt {
                            postfix: views(pf0).push(t@),
                            ops: views(ops0).drop_last(),
                            num: Seq::empty(),
                            alph: Seq::empty(),
                        } =~= ParseSt {
                            postfix: views(postfix@),
                            ops: views(operators@),
                            num: Seq::empty(),
                            alph: Seq::empty(),
                        });
                    }
                }
            }
            run_start = i + 1;
            proof {
                let st2 = loop_st(
                    s,
                    run_start as int,
                    i as int + 1,
                    views(postfix@),
                    views(operators@),
                );
                assert(s.subrange(i as int + 1, i as int + 1) =~= Seq::<char>::empty());
                assert(step(st_i, c) matches Ok(m) && m =~= st2);
                lemma_step_ok(s, i as int, st_i, st2);
            }
            i = i + 1;
        } else {
            // outside the grammar
            proof {
                assert(!is_digit(c) && !is_letter(c) && !is_op_char(c) && c != '(' && c != ')');
                lemma_err_at(s, i as int, st_i, ParseError::UnsupportedSymbol);
            }
            return Err(ParseError::UnsupportedSymbol);
        }
    }

    // end of input: flush the pending run, then drain the pending stack
    let ghost st_n = loop_st(s, run_start as int, i as int, views(postfix@), views(operators@));
    proof {
        assert(s.take(n as int) =~= s);
    }
    match flush_run(expression, run_start, n, &mut postfix, &mut operators) {
        Ok(_) => {},
        Err(e) => {
            return Err(e);
        },
    }
    let ghost st_f = ParseSt {
        postfix: views(postfix@),
        ops: views(operators@),
        num: Seq::empty(),
        alph: Seq::empty(),
    };
    while operators.len() > 0
        invariant
            drain(
                ParseSt {
                    postfix: views(postfix@),
                    ops: views(operators@),
                    num: Seq::empty(),
                    alph: Seq::empty(),
                },
            ) == drain(st_f),
        decreases operators@.len(),
    {
        let ghost pf0 = postfix@;
        let ghost ops0 = operators@;
        let t = operators.pop().unwrap();
        proof {
            assert(ops0.subrange(0, ops0.len() - 1) =~= ops0.drop_last());
            lemma_views_drop_last(ops0);
            assert(views(ops0).last() == t@);
        }
        let is_lp = match &t {
            Token::Operator(ch, _) => *ch == '(',
            _ => false,
        };
        if is_lp {
            return Err(ParseError::UnbalancedParentheses);
        }
        proof {
            lemma_views_push(pf0, t);
        }
        postfix.push(t);
        proof {
            assert(ParseSt {
                postfix: views(pf0).push(t@),
                ops: views(ops0).drop_last(),
                num: Seq::empty(),
                alph: Seq::empty(),
            } =~= ParseSt {
                postfix: views(postfix@),
                ops: views(operators@),
                num: Seq::empty(),
                alph: Seq::empty(),
            });
        }
    }
    proof {
        assert(drain(
            ParseSt {
                postfix: views(postfix@),
                ops: views(operators@),
                num: Seq::empty(),
                alph: Seq::empty(),
            },
        ) == Ok::<Seq<TokenV>, ParseError>(views(postfix@)));
    }
    Ok(postfix)
}

} // verus!
