//! How binary operators group: `a op1 b op2 c` is read as C reads it, by
//! the binding strength of C's operators and from left to right among
//! operators of the same strength.

use vstd::prelude::*;

use crate::expression::{
    advance, binary_operator_of, binary_tail, eval, evaluate_expression, is_word_byte,
    literal_value, next_token, parse_binary, parse_conditional, parse_primary, parse_unary,
    precedence, skip_space, word_end, BinaryOperator, EvalFailure, Expr, ParseState, Token,
    TokenKind,
};

verus! {

/// The binding strength of a binary operator in C, loosest first: `||`,
/// `&&`, `|`, `^`, `&`, equality, relational operators, shifts, additive,
/// multiplicative operators.
pub open spec fn c_binding(op: BinaryOperator) -> int {
    match op {
        BinaryOperator::LogicalOr => 1,
        BinaryOperator::LogicalAnd => 2,
        BinaryOperator::BitwiseOr => 3,
        BinaryOperator::BitwiseXor => 4,
        BinaryOperator::BitwiseAnd => 5,
        BinaryOperator::Equal => 6,
        BinaryOperator::NotEqual => 6,
        BinaryOperator::Less => 7,
        BinaryOperator::LessEqual => 7,
        BinaryOperator::Greater => 7,
        BinaryOperator::GreaterEqual => 7,
        BinaryOperator::ShiftLeft => 8,
        BinaryOperator::ShiftRight => 8,
        BinaryOperator::Add => 9,
        BinaryOperator::Subtract => 9,
        BinaryOperator::Multiply => 10,
        BinaryOperator::Divide => 10,
        BinaryOperator::Remainder => 10,
    }
}

/// How a binary operator is spelled.
pub open spec fn op_text(op: BinaryOperator) -> Seq<u8> {
    match op {
        BinaryOperator::Multiply => seq![0x2au8],
        BinaryOperator::Divide => seq![0x2fu8],
        BinaryOperator::Remainder => seq![0x25u8],
        BinaryOperator::Add => seq![0x2bu8],
        BinaryOperator::Subtract => seq![0x2du8],
        BinaryOperator::ShiftLeft => seq![0x3cu8, 0x3c],
        BinaryOperator::ShiftRight => seq![0x3eu8, 0x3e],
        BinaryOperator::Less => seq![0x3cu8],
        BinaryOperator::LessEqual => seq![0x3cu8, 0x3d],
        BinaryOperator::Greater => seq![0x3eu8],
        BinaryOperator::GreaterEqual => seq![0x3eu8, 0x3d],
        BinaryOperator::Equal => seq![0x3du8, 0x3d],
        BinaryOperator::NotEqual => seq![0x21u8, 0x3d],
        BinaryOperator::BitwiseAnd => seq![0x26u8],
        BinaryOperator::BitwiseXor => seq![0x5eu8],
        BinaryOperator::BitwiseOr => seq![0x7cu8],
        BinaryOperator::LogicalAnd => seq![0x26u8, 0x26],
        BinaryOperator::LogicalOr => seq![0x7cu8, 0x7c],
    }
}

/// A decimal-digit literal: one or more ASCII digits.
pub open spec fn is_digit_literal(l: Seq<u8>) -> bool {
    l.len() > 0 && forall|i: int| 0 <= i < l.len() ==> 0x30 <= #[trigger] l[i] <= 0x39
}

/// `l1 op1 l2 op2 l3`, with one space around each operator.
pub open spec fn chain(
    l1: Seq<u8>,
    op1: BinaryOperator,
    l2: Seq<u8>,
    op2: BinaryOperator,
    l3: Seq<u8>,
) -> Seq<u8> {
    l1 + seq![0x20u8] + op_text(op1) + seq![0x20u8] + l2 + seq![0x20u8] + op_text(op2) + seq![
        0x20u8,
    ] + l3
}

/// `big` holds `l` from `p` on.
spec fn holds_at(big: Seq<u8>, p: int, l: Seq<u8>) -> bool {
    0 <= p && p + l.len() <= big.len() && forall|i: int|
        0 <= i < l.len() ==> big[p + i] == #[trigger] l[i]
}

proof fn lemma_digits_end(big: Seq<u8>, p: int, e: int)
    requires
        0 <= p <= e <= big.len(),
        forall|i: int| p <= i < e ==> 0x30 <= #[trigger] big[i] <= 0x39,
        e == big.len() || big[e] == 0x20,
    ensures
        word_end(big, p) == e,
    decreases e - p,
{
    if p < e {
        assert(0x30 <= big[p] <= 0x39);
        lemma_digits_end(big, p + 1, e);
    }
}

proof fn lemma_literal_token(big: Seq<u8>, from: int, p: int, l: Seq<u8>, v: i128)
    requires
        holds_at(big, p, l),
        big.len() <= usize::MAX,
        is_digit_literal(l),
        literal_value(l) == Ok::<i128, Seq<char>>(v),
        p + l.len() == big.len() || big[p + l.len()] == 0x20,
        from == p || (from == p - 1 && from >= 0 && big[from] == 0x20),
    ensures
        next_token(big, from) == Ok::<(Token, int), EvalFailure>(
            (Token { kind: TokenKind::Integer(v), offset: p as usize }, p + l.len()),
        ),
{
    assert(big[p + 0] == l[0]);
    assert(skip_space(big, p) == p);
    if from != p {
        assert(from + 1 == p);
        assert(skip_space(big, from) == skip_space(big, from + 1));
    }
    let e = p + l.len();
    assert forall|i: int| p <= i < e implies 0x30 <= #[trigger] big[i] <= 0x39 by {
        assert(big[p + (i - p)] == l[i - p]);
    }
    lemma_digits_end(big, p, e);
    assert(big.subrange(p, e) =~= l) by {
        assert forall|i: int| 0 <= i < l.len() implies big.subrange(p, e)[i] == l[i] by {
            assert(big[p + i] == l[i]);
        }
    }
}

/// The token of an operator.
pub open spec fn op_token(op: BinaryOperator) -> TokenKind {
    match op {
        BinaryOperator::Multiply => TokenKind::Star,
        BinaryOperator::Divide => TokenKind::Slash,
        BinaryOperator::Remainder => TokenKind::Percent,
        BinaryOperator::Add => TokenKind::Plus,
        BinaryOperator::Subtract => TokenKind::Minus,
        BinaryOperator::ShiftLeft => TokenKind::ShiftLeft,
        BinaryOperator::ShiftRight => TokenKind::ShiftRight,
        BinaryOperator::Less => TokenKind::Less,
        BinaryOperator::LessEqual => TokenKind::LessEqual,
        BinaryOperator::Greater => TokenKind::Greater,
        BinaryOperator::GreaterEqual => TokenKind::GreaterEqual,
        BinaryOperator::Equal => TokenKind::EqualEqual,
        BinaryOperator::NotEqual => TokenKind::NotEqual,
        BinaryOperator::BitwiseAnd => TokenKind::Ampersand,
        BinaryOperator::BitwiseXor => TokenKind::Caret,
        BinaryOperator::BitwiseOr => TokenKind::Pipe,
        BinaryOperator::LogicalAnd => TokenKind::LogicalAnd,
        BinaryOperator::LogicalOr => TokenKind::LogicalOr,
    }
}

proof fn lemma_operator_token(big: Seq<u8>, p: int, op: BinaryOperator)
    requires
        holds_at(big, p, op_text(op)),
        p >= 1,
        big[p - 1] == 0x20,
        p + op_text(op).len() < big.len() <= usize::MAX,
        big[p + op_text(op).len()] == 0x20,
    ensures
        next_token(big, p - 1) == Ok::<(Token, int), EvalFailure>(
            (Token { kind: op_token(op), offset: p as usize }, p + op_text(op).len()),
        ),
        binary_operator_of(op_token(op)) == Some(op),
{
    let t = op_text(op);
    assert(big[p + 0] == t[0]);
    if t.len() == 2 {
        assert(big[p + 1] == t[1]);
    }
    assert(skip_space(big, p) == p);
    assert(skip_space(big, p - 1) == p);
}


/// Where the parts of `l1 op1 l2 op2 l3` stand in `big`.
#[verifier::opaque]
spec fn laid_out(
    big: Seq<u8>,
    l1: Seq<u8>,
    op1: BinaryOperator,
    l2: Seq<u8>,
    op2: BinaryOperator,
    l3: Seq<u8>,
) -> bool {
    let (n1, m1, n2, m2, n3) = (
        l1.len() as int,
        op_text(op1).len() as int,
        l2.len() as int,
        op_text(op2).len() as int,
        l3.len() as int,
    );
    &&& big.len() == n1 + m1 + n2 + m2 + n3 + 4
    &&& holds_at(big, 0, l1)
    &&& big[n1] == 0x20
    &&& holds_at(big, n1 + 1, op_text(op1))
    &&& big[n1 + m1 + 1] == 0x20
    &&& holds_at(big, n1 + m1 + 2, l2)
    &&& big[n1 + m1 + n2 + 2] == 0x20
    &&& holds_at(big, n1 + m1 + n2 + 3, op_text(op2))
    &&& big[n1 + m1 + n2 + m2 + 3] == 0x20
    &&& holds_at(big, n1 + m1 + n2 + m2 + 4, l3)
}

proof fn lemma_chain_layout(
    l1: Seq<u8>,
    op1: BinaryOperator,
    l2: Seq<u8>,
    op2: BinaryOperator,
    l3: Seq<u8>,
)
    ensures
        laid_out(chain(l1, op1, l2, op2, l3), l1, op1, l2, op2, l3),
{
    reveal(laid_out);
    let sp = seq![0x20u8];
    let (o1, o2) = (op_text(op1), op_text(op2));
    let x1 = l1 + sp;
    let x2 = x1 + o1;
    let x3 = x2 + sp;
    let x4 = x3 + l2;
    let x5 = x4 + sp;
    let x6 = x5 + o2;
    let x7 = x6 + sp;
    let big = x7 + l3;
    assert(big == chain(l1, op1, l2, op2, l3));
    assert forall|i: int| 0 <= i < l1.len() implies big[0 + i] == #[trigger] l1[i] by {
        assert(x1[i] == l1[i]);
    }
    assert forall|i: int| 0 <= i < o1.len() implies big[x1.len() + i] == #[trigger] o1[i] by {
        assert(x2[x1.len() + i] == o1[i]);
    }
    assert forall|i: int| 0 <= i < l2.len() implies big[x3.len() + i] == #[trigger] l2[i] by {
        assert(x4[x3.len() + i] == l2[i]);
    }
    assert forall|i: int| 0 <= i < o2.len() implies big[x5.len() + i] == #[trigger] o2[i] by {
        assert(x6[x5.len() + i] == o2[i]);
    }
    assert forall|i: int| 0 <= i < l3.len() implies big[x7.len() + i] == #[trigger] l3[i] by {}
    assert(big[l1.len() as int] == 0x20);
    assert(big[x2.len() as int] == 0x20);
    assert(big[x4.len() as int] == 0x20);
    assert(big[x6.len() as int] == 0x20);
}

/// An integer token alone, followed by the token of `next`.
proof fn lemma_literal_operand(big: Seq<u8>, st: ParseState, v: i128, next: ParseState)
    requires
        st.current.kind == TokenKind::Integer(v),
        0 <= st.pos <= next.pos <= big.len() <= usize::MAX,
        advance(big, st) == Ok::<ParseState, EvalFailure>(next),
    ensures
        parse_unary(big, st) == Ok::<(Expr, ParseState), EvalFailure>((Expr::Integer(v), next)),
{
    assert(parse_primary(big, st) == Ok::<(Expr, ParseState), EvalFailure>(
        (Expr::Integer(v), next),
    ));
}

/// A last operand `c` before the end, parsed at any binding strength.
proof fn lemma_last_operand(big: Seq<u8>, st: ParseState, c: i128, end: ParseState, min: u8)
    requires
        st.current.kind == TokenKind::Integer(c),
        end.current.kind == TokenKind::End,
        0 <= st.pos <= end.pos == big.len() <= usize::MAX,
        advance(big, st) == Ok::<ParseState, EvalFailure>(end),
    ensures
        parse_binary(big, min, st) == Ok::<(Expr, ParseState), EvalFailure>(
            (Expr::Integer(c), end),
        ),
        forall|e: Expr|
            binary_tail(big, e, min, end) == Ok::<(Expr, ParseState), EvalFailure>(
                (e, end),
            ),
{
    lemma_literal_operand(big, st, c, end);
    assert forall|e: Expr|
        binary_tail(big, e, min, end) == Ok::<(Expr, ParseState), EvalFailure>((e, end)) by {}
    assert(binary_tail(big, Expr::Integer(c), min, end) == Ok::<(Expr, ParseState), EvalFailure>(
        (Expr::Integer(c), end),
    ));
}


/// The six states the parser of `a op1 b op2 c` goes through.
spec fn walk(
    big: Seq<u8>,
    s0: ParseState,
    s1: ParseState,
    s2: ParseState,
    s3: ParseState,
    s4: ParseState,
    s5: ParseState,
    a: i128,
    b: i128,
    c: i128,
    op1: BinaryOperator,
    op2: BinaryOperator,
) -> bool {
    &&& s0.current.kind == TokenKind::Integer(a)
    &&& s1.current.kind == op_token(op1)
    &&& s2.current.kind == TokenKind::Integer(b)
    &&& s3.current.kind == op_token(op2)
    &&& s4.current.kind == TokenKind::Integer(c)
    &&& s5.current.kind == TokenKind::End
    &&& 0 <= s0.pos < s1.pos < s2.pos < s3.pos < s4.pos <= s5.pos
    &&& s5.pos == big.len() <= usize::MAX
    &&& advance(big, s0) == Ok::<ParseState, EvalFailure>(s1)
    &&& advance(big, s1) == Ok::<ParseState, EvalFailure>(s2)
    &&& advance(big, s2) == Ok::<ParseState, EvalFailure>(s3)
    &&& advance(big, s3) == Ok::<ParseState, EvalFailure>(s4)
    &&& advance(big, s4) == Ok::<ParseState, EvalFailure>(s5)
    &&& binary_operator_of(op_token(op1)) == Some(op1)
    &&& binary_operator_of(op_token(op2)) == Some(op2)
    &&& 1 <= precedence(op1) && 1 <= precedence(op2) < 255
}

/// `a op1 (b op2 c)` where `op2` binds more tightly.
proof fn lemma_walk_right(
    big: Seq<u8>,
    s0: ParseState,
    s1: ParseState,
    s2: ParseState,
    s3: ParseState,
    s4: ParseState,
    s5: ParseState,
    a: i128,
    b: i128,
    c: i128,
    op1: BinaryOperator,
    op2: BinaryOperator,
)
    requires
        walk(big, s0, s1, s2, s3, s4, s5, a, b, c, op1, op2),
        precedence(op1) < precedence(op2),
    ensures
        parse_conditional(big, s0) == Ok::<(Expr, ParseState), EvalFailure>(
            (
                Expr::Binary {
                    operator: op1,
                    left: Box::new(Expr::Integer(a)),
                    right: Box::new(
                        Expr::Binary {
                            operator: op2,
                            left: Box::new(Expr::Integer(b)),
                            right: Box::new(Expr::Integer(c)),
                            offset: s3.current.offset,
                        },
                    ),
                    offset: s1.current.offset,
                },
                s5,
            ),
        ),
{
    let (ea, eb, ec) = (Expr::Integer(a), Expr::Integer(b), Expr::Integer(c));
    let p1 = (precedence(op1) + 1) as u8;
    let p2 = (precedence(op2) + 1) as u8;
    lemma_last_operand(big, s4, c, s5, p2);
    lemma_last_operand(big, s4, c, s5, p1);
    lemma_last_operand(big, s4, c, s5, 1);
    let r = Expr::Binary {
        operator: op2,
        left: Box::new(eb),
        right: Box::new(ec),
        offset: s3.current.offset,
    };
    assert(binary_tail(big, r, p1, s5) == Ok::<(Expr, ParseState), EvalFailure>((r, s5)));
    assert(binary_tail(big, eb, p1, s3) == Ok::<(Expr, ParseState), EvalFailure>((r, s5)));
    lemma_literal_operand(big, s2, b, s3);
    assert(parse_binary(big, p1, s2) == Ok::<(Expr, ParseState), EvalFailure>((r, s5)));
    let w = Expr::Binary {
        operator: op1,
        left: Box::new(ea),
        right: Box::new(r),
        offset: s1.current.offset,
    };
    assert(binary_tail(big, w, 1, s5) == Ok::<(Expr, ParseState), EvalFailure>((w, s5)));
    assert(binary_tail(big, ea, 1, s1) == Ok::<(Expr, ParseState), EvalFailure>((w, s5)));
    lemma_literal_operand(big, s0, a, s1);
    assert(parse_binary(big, 1, s0) == Ok::<(Expr, ParseState), EvalFailure>((w, s5)));
}

/// `(a op1 b) op2 c` where `op2` binds no more tightly.
proof fn lemma_walk_left(
    big: Seq<u8>,
    s0: ParseState,
    s1: ParseState,
    s2: ParseState,
    s3: ParseState,
    s4: ParseState,
    s5: ParseState,
    a: i128,
    b: i128,
    c: i128,
    op1: BinaryOperator,
    op2: BinaryOperator,
)
    requires
        walk(big, s0, s1, s2, s3, s4, s5, a, b, c, op1, op2),
        precedence(op1) >= precedence(op2),
    ensures
        parse_conditional(big, s0) == Ok::<(Expr, ParseState), EvalFailure>(
            (
                Expr::Binary {
                    operator: op2,
                    left: Box::new(
                        Expr::Binary {
                            operator: op1,
                            left: Box::new(Expr::Integer(a)),
                            right: Box::new(Expr::Integer(b)),
                            offset: s1.current.offset,
                        },
                    ),
                    right: Box::new(Expr::Integer(c)),
                    offset: s3.current.offset,
                },
                s5,
            ),
        ),
{
    let (ea, eb, ec) = (Expr::Integer(a), Expr::Integer(b), Expr::Integer(c));
    let p1 = (precedence(op1) + 1) as u8;
    let p2 = (precedence(op2) + 1) as u8;
    lemma_last_operand(big, s4, c, s5, p2);
    lemma_last_operand(big, s4, c, s5, 1);
    assert(binary_tail(big, eb, p1, s3) == Ok::<(Expr, ParseState), EvalFailure>((eb, s3)));
    lemma_literal_operand(big, s2, b, s3);
    assert(parse_binary(big, p1, s2) == Ok::<(Expr, ParseState), EvalFailure>((eb, s3)));
    let l = Expr::Binary {
        operator: op1,
        left: Box::new(ea),
        right: Box::new(eb),
        offset: s1.current.offset,
    };
    let w = Expr::Binary {
        operator: op2,
        left: Box::new(l),
        right: Box::new(ec),
        offset: s3.current.offset,
    };
    assert(binary_tail(big, w, 1, s5) == Ok::<(Expr, ParseState), EvalFailure>((w, s5)));
    assert(binary_tail(big, l, 1, s3) == Ok::<(Expr, ParseState), EvalFailure>((w, s5)));
    assert(binary_tail(big, ea, 1, s1) == Ok::<(Expr, ParseState), EvalFailure>((w, s5)));
    lemma_literal_operand(big, s0, a, s1);
    assert(parse_binary(big, 1, s0) == Ok::<(Expr, ParseState), EvalFailure>((w, s5)));
}


proof fn lemma_c_binding(op: BinaryOperator)
    ensures
        precedence(op) == c_binding(op),
{
}

/// The tokens of `l1 op1 l2 op2 l3` laid out in `big`, and the states the
/// parser goes through.
/// The tokens of `l1 op1 l2 op2 l3` laid out in `big`.
proof fn lemma_tokens_of_layout(
    big: Seq<u8>,
    l1: Seq<u8>,
    op1: BinaryOperator,
    l2: Seq<u8>,
    op2: BinaryOperator,
    l3: Seq<u8>,
    a: i128,
    b: i128,
    c: i128,
)
    requires
        laid_out(big, l1, op1, l2, op2, l3),
        big.len() <= usize::MAX,
        is_digit_literal(l1),
        is_digit_literal(l2),
        is_digit_literal(l3),
        literal_value(l1) == Ok::<i128, Seq<char>>(a),
        literal_value(l2) == Ok::<i128, Seq<char>>(b),
        literal_value(l3) == Ok::<i128, Seq<char>>(c),
    ensures
        ({
            let (n1, m1, n2, m2) = (
                l1.len() as int,
                op_text(op1).len() as int,
                l2.len() as int,
                op_text(op2).len() as int,
            );
            let (q1, q2, q3, q4) = (n1 + 1, n1 + m1 + 2, n1 + m1 + n2 + 3, n1 + m1 + n2 + m2 + 4);
            let end = big.len() as int;
            &&& next_token(big, 0) == Ok::<(Token, int), EvalFailure>(
                (Token { kind: TokenKind::Integer(a), offset: 0 }, n1),
            )
            &&& next_token(big, n1) == Ok::<(Token, int), EvalFailure>(
                (Token { kind: op_token(op1), offset: q1 as usize }, q1 + m1),
            )
            &&& next_token(big, q1 + m1) == Ok::<(Token, int), EvalFailure>(
                (Token { kind: TokenKind::Integer(b), offset: q2 as usize }, q2 + n2),
            )
            &&& next_token(big, q2 + n2) == Ok::<(Token, int), EvalFailure>(
                (Token { kind: op_token(op2), offset: q3 as usize }, q3 + m2),
            )
            &&& next_token(big, q3 + m2) == Ok::<(Token, int), EvalFailure>(
                (Token { kind: TokenKind::Integer(c), offset: q4 as usize }, end),
            )
            &&& next_token(big, end) == Ok::<(Token, int), EvalFailure>(
                (Token { kind: TokenKind::End, offset: end as usize }, end),
            )
            &&& binary_operator_of(op_token(op1)) == Some(op1)
            &&& binary_operator_of(op_token(op2)) == Some(op2)
        }),
{
    let n1 = l1.len() as int;
    let m1 = op_text(op1).len() as int;
    let n2 = l2.len() as int;
    let m2 = op_text(op2).len() as int;
    let q1 = n1 + 1;
    let q2 = n1 + m1 + 2;
    let q3 = n1 + m1 + n2 + 3;
    let q4 = n1 + m1 + n2 + m2 + 4;
    let end = big.len() as int;
    reveal(laid_out);
    lemma_literal_token(big, 0, 0, l1, a);
    lemma_operator_token(big, q1, op1);
    lemma_literal_token(big, q2 - 1, q2, l2, b);
    lemma_operator_token(big, q3, op2);
    lemma_literal_token(big, q4 - 1, q4, l3, c);
    assert(skip_space(big, end) == end);
}

/// The states the parser goes through on `l1 op1 l2 op2 l3` laid out in
/// `big`.
proof fn lemma_walk_of_layout(
    big: Seq<u8>,
    l1: Seq<u8>,
    op1: BinaryOperator,
    l2: Seq<u8>,
    op2: BinaryOperator,
    l3: Seq<u8>,
    a: i128,
    b: i128,
    c: i128,
) -> (s: (ParseState, ParseState, ParseState, ParseState, ParseState, ParseState))
    requires
        laid_out(big, l1, op1, l2, op2, l3),
        big.len() <= usize::MAX,
        is_digit_literal(l1),
        is_digit_literal(l2),
        is_digit_literal(l3),
        literal_value(l1) == Ok::<i128, Seq<char>>(a),
        literal_value(l2) == Ok::<i128, Seq<char>>(b),
        literal_value(l3) == Ok::<i128, Seq<char>>(c),
    ensures
        walk(big, s.0, s.1, s.2, s.3, s.4, s.5, a, b, c, op1, op2),
        next_token(big, 0) == Ok::<(Token, int), EvalFailure>((s.0.current, s.0.pos)),
        s.1.current.offset == (l1.len() + 1) as usize,
        s.3.current.offset == (l1.len() + op_text(op1).len() + l2.len() + 3) as usize,
{
    lemma_c_binding(op1);
    lemma_c_binding(op2);
    lemma_tokens_of_layout(big, l1, op1, l2, op2, l3, a, b, c);
    let n1 = l1.len() as int;
    let m1 = op_text(op1).len() as int;
    let n2 = l2.len() as int;
    let m2 = op_text(op2).len() as int;
    let q1 = n1 + 1;
    let q2 = n1 + m1 + 2;
    let q3 = n1 + m1 + n2 + 3;
    let q4 = n1 + m1 + n2 + m2 + 4;
    let end = big.len() as int;
    let s0 = ParseState { current: Token { kind: TokenKind::Integer(a), offset: 0 }, pos: n1 };
    let s1 = ParseState {
        current: Token { kind: op_token(op1), offset: q1 as usize },
        pos: q1 + m1,
    };
    let s2 = ParseState {
        current: Token { kind: TokenKind::Integer(b), offset: q2 as usize },
        pos: q2 + n2,
    };
    let s3 = ParseState {
        current: Token { kind: op_token(op2), offset: q3 as usize },
        pos: q3 + m2,
    };
    let s4 = ParseState {
        current: Token { kind: TokenKind::Integer(c), offset: q4 as usize },
        pos: end,
    };
    let s5 = ParseState { current: Token { kind: TokenKind::End, offset: end as usize }, pos: end };
    (s0, s1, s2, s3, s4, s5)
}

/// Binary operators group as in C: in `a op1 b op2 c`, written with integer
/// literals and one space around each operator, `op2` takes `b` as its left
/// operand when it binds more tightly than `op1` in C's table, giving
/// `a op1 (b op2 c)`; otherwise `op1` takes `b`, giving `(a op1 b) op2 c`.
/// So `6 ^ 3 & 1` is `6 ^ (3 & 1)` and `6 - 3 - 1` is `(6 - 3) - 1`. The
/// value, or the failure, is that of the grouped expression, with each
/// operator at its own offset.
pub proof fn lemma_operators_group_as_in_c(
    l1: Seq<u8>,
    op1: BinaryOperator,
    l2: Seq<u8>,
    op2: BinaryOperator,
    l3: Seq<u8>,
    a: i128,
    b: i128,
    c: i128,
)
    requires
        is_digit_literal(l1),
        is_digit_literal(l2),
        is_digit_literal(l3),
        literal_value(l1) == Ok::<i128, Seq<char>>(a),
        literal_value(l2) == Ok::<i128, Seq<char>>(b),
        literal_value(l3) == Ok::<i128, Seq<char>>(c),
        chain(l1, op1, l2, op2, l3).len() <= usize::MAX,
    ensures
        ({
            let text = chain(l1, op1, l2, op2, l3);
            let at1 = (l1.len() + 1) as usize;
            let at2 = (l1.len() + op_text(op1).len() + l2.len() + 3) as usize;
            let (ea, eb, ec) = (Expr::Integer(a), Expr::Integer(b), Expr::Integer(c));
            &&& c_binding(op1) < c_binding(op2) ==> evaluate_expression(text) == eval(
                text,
                Expr::Binary {
                    operator: op1,
                    left: Box::new(ea),
                    right: Box::new(
                        Expr::Binary {
                            operator: op2,
                            left: Box::new(eb),
                            right: Box::new(ec),
                            offset: at2,
                        },
                    ),
                    offset: at1,
                },
            )
            &&& c_binding(op1) >= c_binding(op2) ==> evaluate_expression(text) == eval(
                text,
                Expr::Binary {
                    operator: op2,
                    left: Box::new(
                        Expr::Binary {
                            operator: op1,
                            left: Box::new(ea),
                            right: Box::new(eb),
                            offset: at1,
                        },
                    ),
                    right: Box::new(ec),
                    offset: at2,
                },
            )
        }),
{
    let big = chain(l1, op1, l2, op2, l3);
    lemma_chain_layout(l1, op1, l2, op2, l3);
    lemma_c_binding(op1);
    lemma_c_binding(op2);
    let (s0, s1, s2, s3, s4, s5) = lemma_walk_of_layout(big, l1, op1, l2, op2, l3, a, b, c);
    if c_binding(op1) < c_binding(op2) {
        lemma_walk_right(big, s0, s1, s2, s3, s4, s5, a, b, c, op1, op2);
    } else {
        lemma_walk_left(big, s0, s1, s2, s3, s4, s5, a, b, c, op1, op2);
    }
}

} // verus!
