//! What becomes of an expression's value when the expression is enclosed in a
//! larger one: in parentheses, behind `!` or `~`, or or-ed with zero.
//!
//! The proof follows the lexer and the parser of `s` and of a longer input
//! `big` that holds `s` from byte `k` on, followed by `)`: every token of `s`
//! is found in `big` `k` bytes later, and where the lexer of `s` reaches the
//! end, that of `big` finds the `)`.

use vstd::prelude::*;

use crate::expression::{
    advance, advances, binary_operator_of, binary_tail, digit_run, digits_value, eval,
    evaluate_expression, in_input, is_integer_suffix, is_space, is_word_byte, lemma_advance,
    lemma_next_token, lemma_skip_space, lemma_word_end, literal_base, literal_value, measure,
    next_token, parse_binary, parse_conditional, parse_primary, parse_unary, precedence,
    skip_space, truth, unary_operator_of, word_end, EvalFailure, Expr, ParseState, Token,
    TokenKind, UnaryOperator, BinaryOperator,
};

verus! {

/// `s` stands in `big` from byte `k` on, and a `)` follows it there.
spec fn embedded(s: Seq<u8>, big: Seq<u8>, k: int) -> bool {
    &&& 0 <= k
    &&& k + s.len() < big.len() <= usize::MAX
    &&& forall|i: int| 0 <= i < s.len() ==> big[k + i] == #[trigger] s[i]
    &&& big[k + s.len()] == 0x29
}

proof fn lemma_skip_space_shifted(s: Seq<u8>, big: Seq<u8>, k: int, p: int)
    requires
        embedded(s, big, k),
        0 <= p <= s.len(),
    ensures
        skip_space(big, p + k) == skip_space(s, p) + k,
    decreases s.len() - p,
{
    if p < s.len() {
        assert(big[p + k] == s[p]);
        if is_space(s[p]) {
            lemma_skip_space_shifted(s, big, k, p + 1);
            assert(p + 1 + k == p + k + 1);
        }
    } else {
        assert(big[k + s.len()] == 0x29);
    }
}

proof fn lemma_word_end_shifted(s: Seq<u8>, big: Seq<u8>, k: int, p: int)
    requires
        embedded(s, big, k),
        0 <= p <= s.len(),
    ensures
        word_end(big, p + k) == word_end(s, p) + k,
    decreases s.len() - p,
{
    if p < s.len() {
        assert(big[p + k] == s[p]);
        if is_word_byte(s[p]) {
            lemma_word_end_shifted(s, big, k, p + 1);
            assert(p + 1 + k == p + k + 1);
        }
    } else {
        assert(big[k + s.len()] == 0x29);
    }
}

/// The token kind of `big` for a token kind of `s`: an identifier ends `k`
/// bytes later.
spec fn shift_kind(kind: TokenKind, k: int) -> TokenKind {
    match kind {
        TokenKind::Identifier(end) => TokenKind::Identifier((end + k) as usize),
        _ => kind,
    }
}

proof fn lemma_shift_kind(kind: TokenKind, k: int)
    ensures
        unary_operator_of(shift_kind(kind, k)) == unary_operator_of(kind),
        binary_operator_of(shift_kind(kind, k)) == binary_operator_of(kind),
        shift_kind(kind, k) is LeftParen <==> kind is LeftParen,
        shift_kind(kind, k) is RightParen <==> kind is RightParen,
        shift_kind(kind, k) is Question <==> kind is Question,
        shift_kind(kind, k) is Colon <==> kind is Colon,
        shift_kind(kind, k) is End <==> kind is End,
        shift_kind(kind, k) is Integer <==> kind is Integer,
        shift_kind(kind, k) is Identifier <==> kind is Identifier,
{
}

/// Where the parser of `big` stands when that of `s` (of length `n`) stands
/// at `st`: at the same token `k` bytes later, and at the `)` after `s` in
/// place of the end.
spec fn shift_state(n: int, k: int, st: ParseState) -> ParseState {
    if st.current.kind is End {
        ParseState {
            current: Token { kind: TokenKind::RightParen, offset: (n + k) as usize },
            pos: n + k + 1,
        }
    } else {
        ParseState {
            current: Token {
                kind: shift_kind(st.current.kind, k),
                offset: (st.current.offset + k) as usize,
            },
            pos: st.pos + k,
        }
    }
}

/// The states that the lexer of `s` produces.
spec fn valid(s: Seq<u8>, st: ParseState) -> bool {
    &&& in_input(s, st)
    &&& st.current.offset <= st.pos
    &&& st.current.kind is End ==> st.pos == s.len()
    &&& st.current.kind matches TokenKind::Identifier(end) ==> st.current.offset <= end <= s.len()
}

proof fn lemma_token_shifted(s: Seq<u8>, big: Seq<u8>, k: int, p: int)
    requires
        embedded(s, big, k),
        0 <= p <= s.len(),
    ensures
        next_token(s, p) matches Ok((t, e)) ==> {
            let st = ParseState { current: t, pos: e };
            let shifted = shift_state(s.len() as int, k, st);
            &&& valid(s, st)
            &&& next_token(big, p + k) == Ok::<(Token, int), EvalFailure>(
                (shifted.current, shifted.pos),
            )
        },
{
    let n = s.len() as int;
    lemma_next_token(s, p);
    lemma_skip_space(s, p);
    lemma_skip_space_shifted(s, big, k, p);
    let q = skip_space(s, p);
    if q < n {
        assert(big[q + k] == s[q]);
        if is_word_byte(s[q]) {
            lemma_word_end(s, q);
            lemma_word_end_shifted(s, big, k, q);
            let e = word_end(s, q);
            assert(big.subrange(q + k, e + k) =~= s.subrange(q, e));
        } else if q + 1 < n {
            assert(big[q + 1 + k] == s[q + 1]);
        } else {
            assert(big[k + n] == 0x29);
        }
    } else {
        assert(big[k + n] == 0x29);
    }
}

proof fn lemma_advance_shifted(s: Seq<u8>, big: Seq<u8>, k: int, st: ParseState)
    requires
        embedded(s, big, k),
        valid(s, st),
        st.current.kind !is End,
    ensures
        advance(s, st) matches Ok(next) ==> {
            &&& valid(s, next)
            &&& measure(s, next) < measure(s, st)
            &&& advance(big, shift_state(s.len() as int, k, st)) == Ok::<ParseState, EvalFailure>(
                shift_state(s.len() as int, k, next),
            )
        },
{
    lemma_advance(s, st);
    lemma_token_shifted(s, big, k, st.pos);
}

/// A shifted state lies inside `big` and is never the end.
proof fn lemma_state_shifted(s: Seq<u8>, big: Seq<u8>, k: int, st: ParseState)
    requires
        embedded(s, big, k),
        valid(s, st),
    ensures
        in_input(big, shift_state(s.len() as int, k, st)),
        shift_state(s.len() as int, k, st).current.kind !is End,
{
    lemma_shift_kind(st.current.kind, k);
}

proof fn lemma_advances_shifted(
    s: Seq<u8>,
    big: Seq<u8>,
    k: int,
    from: ParseState,
    to: ParseState,
)
    requires
        embedded(s, big, k),
        valid(s, from),
        valid(s, to),
        advances(s, from, to),
    ensures
        advances(big, shift_state(s.len() as int, k, from), shift_state(s.len() as int, k, to)),
{
    lemma_state_shifted(s, big, k, from);
    lemma_state_shifted(s, big, k, to);
}

/// The expression of `big` for an expression of `s`: every position `k`
/// bytes later.
spec fn shift_expr(e: Expr, k: int) -> Expr
    decreases e,
{
    match e {
        Expr::Integer(v) => Expr::Integer(v),
        Expr::Identifier { start, end } => Expr::Identifier {
            start: (start + k) as usize,
            end: (end + k) as usize,
        },
        Expr::Unary { operator, operand, offset } => Expr::Unary {
            operator,
            operand: Box::new(shift_expr(*operand, k)),
            offset: (offset + k) as usize,
        },
        Expr::Binary { operator, left, right, offset } => Expr::Binary {
            operator,
            left: Box::new(shift_expr(*left, k)),
            right: Box::new(shift_expr(*right, k)),
            offset: (offset + k) as usize,
        },
        Expr::Conditional { condition, if_true, if_false } => Expr::Conditional {
            condition: Box::new(shift_expr(*condition, k)),
            if_true: Box::new(shift_expr(*if_true, k)),
            if_false: Box::new(shift_expr(*if_false, k)),
        },
    }
}

/// Every identifier of `e` lies within the first `n` bytes.
spec fn ids_within(e: Expr, n: int) -> bool
    decreases e,
{
    match e {
        Expr::Integer(_) => true,
        Expr::Identifier { start, end } => start <= end <= n,
        Expr::Unary { operand, .. } => ids_within(*operand, n),
        Expr::Binary { left, right, .. } => ids_within(*left, n) && ids_within(*right, n),
        Expr::Conditional { condition, if_true, if_false } => ids_within(*condition, n)
            && ids_within(*if_true, n) && ids_within(*if_false, n),
    }
}

/// A parse of `s` from `from` that gives `e` and stops at `to` is matched by
/// the parse `r` of `big` from the shifted state.
spec fn carried(
    s: Seq<u8>,
    k: int,
    from: ParseState,
    e: Expr,
    to: ParseState,
    r: Result<(Expr, ParseState), EvalFailure>,
) -> bool {
    &&& valid(s, to)
    &&& advances(s, from, to)
    &&& ids_within(e, s.len() as int)
    &&& r == Ok::<(Expr, ParseState), EvalFailure>(
        (shift_expr(e, k), shift_state(s.len() as int, k, to)),
    )
}

proof fn lemma_primary_shifted(s: Seq<u8>, big: Seq<u8>, k: int, st: ParseState)
    requires
        embedded(s, big, k),
        valid(s, st),
    ensures
        parse_primary(s, st) matches Ok((e, to)) ==> st.current.kind !is End && carried(
            s,
            k,
            st,
            e,
            to,
            parse_primary(big, shift_state(s.len() as int, k, st)),
        ),
    decreases measure(s, st), 0int,
{
    lemma_state_shifted(s, big, k, st);
    lemma_shift_kind(st.current.kind, k);
    match st.current.kind {
        TokenKind::Integer(_) => {
            lemma_advance_shifted(s, big, k, st);
        },
        TokenKind::Identifier(_) => {
            lemma_advance_shifted(s, big, k, st);
            if let Ok(st1) = advance(s, st) {
                lemma_shift_kind(st1.current.kind, k);
            }
        },
        TokenKind::LeftParen => {
            lemma_advance_shifted(s, big, k, st);
            if let Ok(st1) = advance(s, st) {
                lemma_conditional_shifted(s, big, k, st1);
                if let Ok((inner, st2)) = parse_conditional(s, st1) {
                    lemma_shift_kind(st2.current.kind, k);
                    if st2.current.kind is RightParen {
                        lemma_advance_shifted(s, big, k, st2);
                    }
                }
            }
        },
        _ => {},
    }
}

proof fn lemma_unary_shifted(s: Seq<u8>, big: Seq<u8>, k: int, st: ParseState)
    requires
        embedded(s, big, k),
        valid(s, st),
    ensures
        parse_unary(s, st) matches Ok((e, to)) ==> st.current.kind !is End && carried(
            s,
            k,
            st,
            e,
            to,
            parse_unary(big, shift_state(s.len() as int, k, st)),
        ),
    decreases measure(s, st), 1int,
{
    lemma_state_shifted(s, big, k, st);
    lemma_shift_kind(st.current.kind, k);
    match unary_operator_of(st.current.kind) {
        Some(op) => {
            lemma_advance_shifted(s, big, k, st);
            if let Ok(st1) = advance(s, st) {
                lemma_unary_shifted(s, big, k, st1);
            }
        },
        None => {
            lemma_primary_shifted(s, big, k, st);
        },
    }
}

proof fn lemma_binary_shifted(s: Seq<u8>, big: Seq<u8>, k: int, min: u8, st: ParseState)
    requires
        embedded(s, big, k),
        valid(s, st),
    ensures
        parse_binary(s, min, st) matches Ok((e, to)) ==> st.current.kind !is End && carried(
            s,
            k,
            st,
            e,
            to,
            parse_binary(big, min, shift_state(s.len() as int, k, st)),
        ),
    decreases measure(s, st), 3int,
{
    lemma_state_shifted(s, big, k, st);
    lemma_unary_shifted(s, big, k, st);
    if let Ok((left, st1)) = parse_unary(s, st) {
        if advances(s, st, st1) {
            lemma_advances_shifted(s, big, k, st, st1);
            lemma_tail_shifted(s, big, k, left, min, st1);
        }
    }
}

proof fn lemma_tail_shifted(
    s: Seq<u8>,
    big: Seq<u8>,
    k: int,
    left: Expr,
    min: u8,
    st: ParseState,
)
    requires
        embedded(s, big, k),
        valid(s, st),
        ids_within(left, s.len() as int),
    ensures
        binary_tail(s, left, min, st) matches Ok((e, to)) ==> carried(
            s,
            k,
            st,
            e,
            to,
            binary_tail(big, shift_expr(left, k), min, shift_state(s.len() as int, k, st)),
        ),
    decreases measure(s, st), 2int,
{
    lemma_state_shifted(s, big, k, st);
    lemma_shift_kind(st.current.kind, k);
    if let Some(op) = binary_operator_of(st.current.kind) {
        if precedence(op) >= min {
            lemma_advance_shifted(s, big, k, st);
            if let Ok(st1) = advance(s, st) {
                let next_min = (precedence(op) + 1) as u8;
                lemma_binary_shifted(s, big, k, next_min, st1);
                if let Ok((right, st2)) = parse_binary(s, next_min, st1) {
                    if advances(s, st1, st2) {
                        lemma_advances_shifted(s, big, k, st1, st2);
                        let combined = Expr::Binary {
                            operator: op,
                            left: Box::new(left),
                            right: Box::new(right),
                            offset: st.current.offset,
                        };
                        lemma_tail_shifted(s, big, k, combined, min, st2);
                    }
                }
            }
        }
    }
}

proof fn lemma_conditional_shifted(s: Seq<u8>, big: Seq<u8>, k: int, st: ParseState)
    requires
        embedded(s, big, k),
        valid(s, st),
    ensures
        parse_conditional(s, st) matches Ok((e, to)) ==> st.current.kind !is End && carried(
            s,
            k,
            st,
            e,
            to,
            parse_conditional(big, shift_state(s.len() as int, k, st)),
        ),
    decreases measure(s, st), 4int,
{
    lemma_state_shifted(s, big, k, st);
    lemma_binary_shifted(s, big, k, 1, st);
    if let Ok((condition, st1)) = parse_binary(s, 1, st) {
        lemma_shift_kind(st1.current.kind, k);
        if st1.current.kind is Question {
            lemma_advance_shifted(s, big, k, st1);
            if let Ok(st2) = advance(s, st1) {
                lemma_conditional_shifted(s, big, k, st2);
                if let Ok((if_true, st3)) = parse_conditional(s, st2) {
                    lemma_shift_kind(st3.current.kind, k);
                    if st3.current.kind is Colon {
                        lemma_advances_shifted(s, big, k, st2, st3);
                        lemma_advance_shifted(s, big, k, st3);
                        if let Ok(st4) = advance(s, st3) {
                            lemma_conditional_shifted(s, big, k, st4);
                        }
                    }
                }
            }
        }
    }
}

proof fn lemma_eval_shifted(s: Seq<u8>, big: Seq<u8>, k: int, e: Expr)
    requires
        embedded(s, big, k),
        ids_within(e, s.len() as int),
        eval(s, e) is Ok,
    ensures
        eval(big, shift_expr(e, k)) == eval(s, e),
    decreases e,
{
    match e {
        Expr::Integer(_) => {},
        Expr::Identifier { start, end } => {
            assert(big.subrange(start + k, end + k) =~= s.subrange(start as int, end as int));
        },
        Expr::Unary { operand, .. } => {
            lemma_eval_shifted(s, big, k, *operand);
        },
        Expr::Binary { left, right, .. } => {
            lemma_eval_shifted(s, big, k, *left);
            if eval(s, *right) is Ok {
                lemma_eval_shifted(s, big, k, *right);
            }
        },
        Expr::Conditional { condition, if_true, if_false } => {
            lemma_eval_shifted(s, big, k, *condition);
            if eval(s, *if_true) is Ok {
                lemma_eval_shifted(s, big, k, *if_true);
            }
            if eval(s, *if_false) is Ok {
                lemma_eval_shifted(s, big, k, *if_false);
            }
        },
    }
}

/// Where `big` holds `(` just before `s` and `)` just after it, and `s`
/// evaluates to `v`, the primary expression that starts at that `(` is the
/// expression of `s` moved `k` bytes on, and its value is `v`.
proof fn lemma_group_shifted(s: Seq<u8>, big: Seq<u8>, k: int, v: i128, after: ParseState) -> (e: Expr)
    requires
        embedded(s, big, k),
        k >= 1,
        big[k - 1] == 0x28,
        evaluate_expression(s) == Ok::<i128, EvalFailure>(v),
        next_token(big, s.len() + k + 1) == Ok::<(Token, int), EvalFailure>(
            (after.current, after.pos),
        ),
    ensures
        parse_primary(
            big,
            ParseState {
                current: Token { kind: TokenKind::LeftParen, offset: (k - 1) as usize },
                pos: k,
            },
        ) == Ok::<(Expr, ParseState), EvalFailure>((e, after)),
        eval(big, e) == Ok::<i128, EvalFailure>(v),
{
    let n = s.len() as int;
    lemma_token_shifted(s, big, k, 0);
    let (t0, e0) = next_token(s, 0)->Ok_0;
    let st0 = ParseState { current: t0, pos: e0 };
    lemma_conditional_shifted(s, big, k, st0);
    let (expr, st) = parse_conditional(s, st0)->Ok_0;
    lemma_eval_shifted(s, big, k, expr);
    let open = ParseState {
        current: Token { kind: TokenKind::LeftParen, offset: (k - 1) as usize },
        pos: k,
    };
    assert(0 + k == k);
    assert(advance(big, open) == Ok::<ParseState, EvalFailure>(shift_state(n, k, st0)));
    assert(shift_state(n, k, st) == ParseState {
        current: Token { kind: TokenKind::RightParen, offset: (n + k) as usize },
        pos: n + k + 1,
    });
    shift_expr(expr, k)
}

proof fn lemma_literal_zero()
    ensures
        literal_value(seq![0x30u8]) == Ok::<i128, Seq<char>>(0),
{
    let lit = seq![0x30u8];
    assert(literal_base(lit) == (10int, 0int));
    let body = lit.skip(0);
    assert(body =~= lit);
    assert(body.drop_first() =~= Seq::<u8>::empty());
    assert(digit_run(body.drop_first(), 10) == 0);
    assert(digit_run(body, 10) == 1);
    assert(body.skip(1) =~= Seq::<u8>::empty());
    assert(body.skip(1).map_values(|b: u8| crate::expression::ascii_lower(b)) =~= seq![]);
    assert(is_integer_suffix(body.skip(1)));
    assert(body.take(1) =~= lit);
    assert(lit.drop_last() =~= Seq::<u8>::empty());
    assert(digits_value(lit.drop_last(), 10) == 0);
    assert(digits_value(lit, 10) == 0);
}

proof fn lemma_parenthesised(s: Seq<u8>, v: i128)
    requires
        evaluate_expression(s) == Ok::<i128, EvalFailure>(v),
        s.len() + 2 <= usize::MAX,
    ensures
        evaluate_expression(seq![0x28u8] + s + seq![0x29u8]) == Ok::<i128, EvalFailure>(v),
{
    let n = s.len() as int;
    let big = seq![0x28u8] + s + seq![0x29u8];
    assert(big.len() == n + 2);
    assert forall|i: int| 0 <= i < n implies big[1 + i] == #[trigger] s[i] by {}
    assert(big[1 + n] == 0x29);
    assert(embedded(s, big, 1));
    assert(skip_space(big, n + 2) == n + 2);
    let last0 = ParseState {
        current: Token { kind: TokenKind::End, offset: (n + 2) as usize },
        pos: n + 2,
    };
    let e = lemma_group_shifted(s, big, 1, v, last0);
    let open = ParseState { current: Token { kind: TokenKind::LeftParen, offset: 0 }, pos: 1 };
    let last = ParseState {
        current: Token { kind: TokenKind::End, offset: (n + 2) as usize },
        pos: n + 2,
    };
    assert(parse_primary(big, open) == Ok::<(Expr, ParseState), EvalFailure>((e, last)));
    assert(skip_space(big, 0) == 0);
    assert(next_token(big, 0) == Ok::<(Token, int), EvalFailure>((open.current, 1)));
    assert(parse_unary(big, open) == Ok::<(Expr, ParseState), EvalFailure>((e, last)));
    assert(binary_tail(big, e, 1, last) == Ok::<(Expr, ParseState), EvalFailure>((e, last)));
    assert(parse_binary(big, 1, open) == Ok::<(Expr, ParseState), EvalFailure>((e, last)));
    assert(parse_conditional(big, open) == Ok::<(Expr, ParseState), EvalFailure>((e, last)));
}

/// `!(s)` and `~(s)`: the prefix operator `op` applied to `s` in parentheses.
proof fn lemma_prefixed(s: Seq<u8>, v: i128, op: u8, operator: UnaryOperator)
    requires
        evaluate_expression(s) == Ok::<i128, EvalFailure>(v),
        s.len() + 3 <= usize::MAX,
        (op == 0x21 && operator == UnaryOperator::LogicalNot) || (op == 0x7e && operator
            == UnaryOperator::BitwiseNot),
    ensures
        evaluate_expression(seq![op, 0x28u8] + s + seq![0x29u8]) == Ok::<i128, EvalFailure>(
            if operator == UnaryOperator::LogicalNot {
                truth(v == 0)
            } else {
                !v
            },
        ),
{
    let n = s.len() as int;
    let big = seq![op, 0x28u8] + s + seq![0x29u8];
    assert(big.len() == n + 3);
    assert forall|i: int| 0 <= i < n implies big[2 + i] == #[trigger] s[i] by {}
    assert(big[2 + n] == 0x29);
    assert(embedded(s, big, 2));
    assert(skip_space(big, n + 3) == n + 3);
    let last0 = ParseState {
        current: Token { kind: TokenKind::End, offset: (n + 3) as usize },
        pos: n + 3,
    };
    let e = lemma_group_shifted(s, big, 2, v, last0);
    let open = ParseState { current: Token { kind: TokenKind::LeftParen, offset: 1 }, pos: 2 };
    let first = ParseState {
        current: Token {
            kind: if op == 0x21 {
                TokenKind::Bang
            } else {
                TokenKind::Tilde
            },
            offset: 0,
        },
        pos: 1,
    };
    let last = ParseState {
        current: Token { kind: TokenKind::End, offset: (n + 3) as usize },
        pos: n + 3,
    };
    let whole = Expr::Unary { operator, operand: Box::new(e), offset: 0 };
    assert(parse_primary(big, open) == Ok::<(Expr, ParseState), EvalFailure>((e, last)));
    assert(skip_space(big, 0) == 0);
    assert(skip_space(big, 1) == 1);
    assert(next_token(big, 0) == Ok::<(Token, int), EvalFailure>((first.current, 1)));
    assert(next_token(big, 1) == Ok::<(Token, int), EvalFailure>((open.current, 2)));
    assert(parse_unary(big, open) == Ok::<(Expr, ParseState), EvalFailure>((e, last)));
    assert(parse_unary(big, first) == Ok::<(Expr, ParseState), EvalFailure>((whole, last)));
    assert(binary_tail(big, whole, 1, last) == Ok::<(Expr, ParseState), EvalFailure>(
        (whole, last),
    ));
    assert(parse_binary(big, 1, first) == Ok::<(Expr, ParseState), EvalFailure>((whole, last)));
    assert(parse_conditional(big, first) == Ok::<(Expr, ParseState), EvalFailure>(
        (whole, last),
    ));
}

/// The tokens of ` || 0` after the `)` at `n + 1`.
proof fn lemma_or_zero_tokens(big: Seq<u8>, n: int)
    requires
        0 <= n,
        big.len() == n + 7 <= usize::MAX,
        big[n + 2] == 0x20,
        big[n + 3] == 0x7c,
        big[n + 4] == 0x7c,
        big[n + 5] == 0x20,
        big[n + 6] == 0x30,
    ensures
        next_token(big, n + 2) == Ok::<(Token, int), EvalFailure>(
            (Token { kind: TokenKind::LogicalOr, offset: (n + 3) as usize }, n + 5),
        ),
        next_token(big, n + 5) == Ok::<(Token, int), EvalFailure>(
            (Token { kind: TokenKind::Integer(0), offset: (n + 6) as usize }, n + 7),
        ),
        next_token(big, n + 7) == Ok::<(Token, int), EvalFailure>(
            (Token { kind: TokenKind::End, offset: (n + 7) as usize }, n + 7),
        ),
{
    assert(skip_space(big, n + 3) == n + 3);
    assert(skip_space(big, n + 2) == n + 3);
    assert(skip_space(big, n + 6) == n + 6);
    assert(skip_space(big, n + 5) == n + 6);
    assert(word_end(big, n + 7) == n + 7);
    assert(word_end(big, n + 6) == n + 7);
    assert(big.subrange(n + 6, n + 7) =~= seq![0x30u8]);
    lemma_literal_zero();
    assert(skip_space(big, n + 7) == n + 7);
}

/// After any left operand `e` that ends at the `||`, ` || 0` is parsed as
/// its right operand and the input ends.
proof fn lemma_or_zero_tail(big: Seq<u8>, n: int, e: Expr)
    requires
        0 <= n,
        big.len() == n + 7 <= usize::MAX,
        next_token(big, n + 5) == Ok::<(Token, int), EvalFailure>(
            (Token { kind: TokenKind::Integer(0), offset: (n + 6) as usize }, n + 7),
        ),
        next_token(big, n + 7) == Ok::<(Token, int), EvalFailure>(
            (Token { kind: TokenKind::End, offset: (n + 7) as usize }, n + 7),
        ),
    ensures
        binary_tail(
            big,
            e,
            1,
            ParseState {
                current: Token { kind: TokenKind::LogicalOr, offset: (n + 3) as usize },
                pos: n + 5,
            },
        ) == Ok::<(Expr, ParseState), EvalFailure>(
            (
                Expr::Binary {
                    operator: BinaryOperator::LogicalOr,
                    left: Box::new(e),
                    right: Box::new(Expr::Integer(0)),
                    offset: (n + 3) as usize,
                },
                ParseState {
                    current: Token { kind: TokenKind::End, offset: (n + 7) as usize },
                    pos: n + 7,
                },
            ),
        ),
{
    let or = ParseState {
        current: Token { kind: TokenKind::LogicalOr, offset: (n + 3) as usize },
        pos: n + 5,
    };
    let zero = ParseState {
        current: Token { kind: TokenKind::Integer(0), offset: (n + 6) as usize },
        pos: n + 7,
    };
    let last = ParseState {
        current: Token { kind: TokenKind::End, offset: (n + 7) as usize },
        pos: n + 7,
    };
    assert(advance(big, or) == Ok::<ParseState, EvalFailure>(zero));
    assert(advance(big, zero) == Ok::<ParseState, EvalFailure>(last));
    let right = Expr::Integer(0);
    assert(parse_primary(big, zero) == Ok::<(Expr, ParseState), EvalFailure>((right, last)));
    assert(parse_unary(big, zero) == Ok::<(Expr, ParseState), EvalFailure>((right, last)));
    assert(binary_tail(big, right, 2, last) == Ok::<(Expr, ParseState), EvalFailure>(
        (right, last),
    ));
    assert(parse_binary(big, 2, zero) == Ok::<(Expr, ParseState), EvalFailure>((right, last)));
    let whole = Expr::Binary {
        operator: BinaryOperator::LogicalOr,
        left: Box::new(e),
        right: Box::new(right),
        offset: (n + 3) as usize,
    };
    assert(binary_tail(big, whole, 1, last) == Ok::<(Expr, ParseState), EvalFailure>(
        (whole, last),
    ));
}

proof fn lemma_or_zero_layout(s: Seq<u8>)
    requires
        s.len() + 7 <= usize::MAX,
    ensures
        ({
            let n = s.len() as int;
            let big = seq![0x28u8] + s + seq![0x29u8, 0x20, 0x7c, 0x7c, 0x20, 0x30];
            &&& big.len() == n + 7
            &&& big[0] == 0x28
            &&& big[n + 2] == 0x20
            &&& big[n + 3] == 0x7c
            &&& big[n + 4] == 0x7c
            &&& big[n + 5] == 0x20
            &&& big[n + 6] == 0x30
            &&& embedded(s, big, 1)
        }),
{
    let n = s.len() as int;
    let big = seq![0x28u8] + s + seq![0x29u8, 0x20, 0x7c, 0x7c, 0x20, 0x30];
    assert forall|i: int| 0 <= i < n implies big[1 + i] == #[trigger] s[i] by {}
    assert(big[1 + n] == 0x29);
}

/// `e || 0` is 1 exactly when `e` is not 0.
proof fn lemma_or_zero_value(big: Seq<u8>, e: Expr, v: i128, offset: usize)
    requires
        eval(big, e) == Ok::<i128, EvalFailure>(v),
    ensures
        eval(
            big,
            Expr::Binary {
                operator: BinaryOperator::LogicalOr,
                left: Box::new(e),
                right: Box::new(Expr::Integer(0)),
                offset,
            },
        ) == Ok::<i128, EvalFailure>(truth(v != 0)),
{
    assert(eval(big, Expr::Integer(0)) == Ok::<i128, EvalFailure>(0));
}

proof fn lemma_or_zero(s: Seq<u8>, v: i128)
    requires
        evaluate_expression(s) == Ok::<i128, EvalFailure>(v),
        s.len() + 7 <= usize::MAX,
    ensures
        evaluate_expression(seq![0x28u8] + s + seq![0x29u8, 0x20, 0x7c, 0x7c, 0x20, 0x30])
            == Ok::<i128, EvalFailure>(truth(v != 0)),
{
    let n = s.len() as int;
    let big = seq![0x28u8] + s + seq![0x29u8, 0x20, 0x7c, 0x7c, 0x20, 0x30];
    lemma_or_zero_layout(s);
    lemma_or_zero_tokens(big, n);
    let or = ParseState {
        current: Token { kind: TokenKind::LogicalOr, offset: (n + 3) as usize },
        pos: n + 5,
    };
    let last = ParseState {
        current: Token { kind: TokenKind::End, offset: (n + 7) as usize },
        pos: n + 7,
    };
    let e = lemma_group_shifted(s, big, 1, v, or);
    lemma_or_zero_tail(big, n, e);
    let whole = Expr::Binary {
        operator: BinaryOperator::LogicalOr,
        left: Box::new(e),
        right: Box::new(Expr::Integer(0)),
        offset: (n + 3) as usize,
    };
    let open = ParseState { current: Token { kind: TokenKind::LeftParen, offset: 0 }, pos: 1 };
    assert(parse_primary(big, open) == Ok::<(Expr, ParseState), EvalFailure>((e, or)));
    assert(parse_unary(big, open) == Ok::<(Expr, ParseState), EvalFailure>((e, or)));
    assert(parse_binary(big, 1, open) == Ok::<(Expr, ParseState), EvalFailure>((whole, last)));
    assert(parse_conditional(big, open) == Ok::<(Expr, ParseState), EvalFailure>(
        (whole, last),
    ));
    assert(skip_space(big, 0) == 0);
    assert(next_token(big, 0) == Ok::<(Token, int), EvalFailure>((open.current, 1)));
    lemma_or_zero_value(big, e, v, (n + 3) as usize);
}

/// An expression keeps its meaning inside a larger one: where `s` evaluates
/// to `v`, `(s)` evaluates to `v`, `!(s)` to 1 if `v` is 0 and to 0
/// otherwise, `~(s)` to the bitwise complement of `v`, and `(s) || 0` to 1 if
/// `v` is not 0 and to 0 otherwise.
pub proof fn lemma_enclosed_expression(s: Seq<u8>, v: i128)
    requires
        evaluate_expression(s) == Ok::<i128, EvalFailure>(v),
        s.len() + 7 <= usize::MAX,
    ensures
        evaluate_expression(seq![0x28u8] + s + seq![0x29u8]) == Ok::<i128, EvalFailure>(v),
        evaluate_expression(seq![0x21u8, 0x28] + s + seq![0x29u8]) == Ok::<i128, EvalFailure>(
            truth(v == 0),
        ),
        evaluate_expression(seq![0x7eu8, 0x28] + s + seq![0x29u8]) == Ok::<i128, EvalFailure>(
            !v,
        ),
        evaluate_expression(seq![0x28u8] + s + seq![0x29u8, 0x20, 0x7c, 0x7c, 0x20, 0x30])
            == Ok::<i128, EvalFailure>(truth(v != 0)),
{
    lemma_parenthesised(s, v);
    lemma_prefixed(s, v, 0x21, UnaryOperator::LogicalNot);
    lemma_prefixed(s, v, 0x7e, UnaryOperator::BitwiseNot);
    lemma_or_zero(s, v);
}

} // verus!
