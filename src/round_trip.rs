//! Infix text that reads back as the tree it was rendered from.
use vstd::prelude::*;
use crate::ast::{decimal, digit_char, int_text, is_atom, op_text, paren, render, Operator, Term};
use crate::parser::{
    binary_op, char_at, chain, digit_val, digits_end, digits_value, expr, is_digit, is_space,
    literal, operand, pair_at, postfix, skip_space,
};

verus! {

/// `w` stands in `s` from position `p` on.
pub open spec fn text_at(s: Seq<char>, p: int, w: Seq<char>) -> bool {
    &&& 0 <= p
    &&& p + w.len() <= s.len()
    &&& forall|i: int| 0 <= i < w.len() ==> s[p + i] == w[i]
}

/// An arithmetic expression: literals under unary `+` and `-` and binary
/// `+ - * /`, nested in any way.
pub open spec fn arith(t: Term) -> bool
    decreases t,
{
    match t {
        Term::Literal(_) => true,
        Term::Unary { child, op } => (op == Operator::Add || op == Operator::Sub) && arith(*child),
        Term::Binary { lhs, op, rhs } => {
            &&& binary_op(op_text(op)[0]) == Some(op)
            &&& arith(*lhs)
            &&& arith(*rhs)
        },
        _ => false,
    }
}

/// The expression holds no unary operator.
pub open spec fn no_unary(t: Term) -> bool
    decreases t,
{
    match t {
        Term::Unary { .. } => false,
        Term::Binary { lhs, rhs, .. } => no_unary(*lhs) && no_unary(*rhs),
        _ => true,
    }
}

/// The value of a literal under unary `+` signs.
pub open spec fn atom_value(t: Term) -> i32
    decreases t,
{
    match t {
        Term::Unary { child, .. } => atom_value(*child),
        Term::Literal(i) => i,
        _ => 0,
    }
}

/// The tree that the text of an arithmetic expression reads back as: a
/// unary `+` disappears, and a unary `-` on a literal that is not negative
/// becomes the negative literal.
pub open spec fn norm(t: Term) -> Term
    decreases t,
{
    match t {
        Term::Unary { child, op } => {
            if op == Operator::Add {
                norm(*child)
            } else if is_atom(*child) {
                if atom_value(*child) >= 0 {
                    Term::Literal((-atom_value(*child)) as i32)
                } else {
                    Term::Unary { child: Box::new(Term::Literal(atom_value(*child))), op }
                }
            } else {
                Term::Unary { child: Box::new(norm(*child)), op }
            }
        },
        Term::Binary { lhs, op, rhs } => Term::Binary {
            lhs: Box::new(norm(*lhs)),
            op,
            rhs: Box::new(norm(*rhs)),
        },
        _ => t,
    }
}

/// The first operand of an expression's chain of binary operators.
pub open spec fn head(t: Term) -> Term
    decreases t,
{
    match t {
        Term::Binary { lhs, .. } => head(*lhs),
        Term::Unary { child, op } => if op == Operator::Add { head(*child) } else { t },
        _ => t,
    }
}

proof fn lemma_atom(t: Term)
    requires
        arith(t),
        is_atom(t),
    ensures
        render(t) == int_text(atom_value(t) as int),
        norm(t) == Term::Literal(atom_value(t)),
    decreases t,
{
    match t {
        Term::Unary { child, .. } => lemma_atom(*child),
        _ => {},
    }
}

proof fn lemma_head(t: Term)
    requires
        arith(t),
    ensures
        arith(head(t)),
        head(t) is Literal || (head(t) is Unary && head(t)->Unary_op == Operator::Sub),
    decreases t,
{
    match t {
        Term::Binary { lhs, .. } => lemma_head(*lhs),
        Term::Unary { child, op } => if op == Operator::Add { lemma_head(*child) },
        _ => {},
    }
}

/// What may follow a rendered left chain inside a longer rendering: either a
/// character that continues no token of an expression, or ` op ` for one of
/// the four binary operators.
pub open spec fn ends_chain(s: Seq<char>, e: int) -> bool {
    let c = char_at(s, e);
    ||| (!is_space(c) && !is_digit(c) && binary_op(c) is None)
    ||| (c == ' ' && binary_op(char_at(s, e + 1)) is Some && char_at(s, e + 2) == ' ')
}

proof fn lemma_ends_chain(s: Seq<char>, e: int)
    requires
        ends_chain(s, e),
    ensures
        !is_digit(char_at(s, e)),
        skip_space(s, e) == if char_at(s, e) == ' ' { e + 1 } else { e },
        !pair_at(s, skip_space(s, e), '+', '+'),
        !pair_at(s, skip_space(s, e), '-', '-'),
{
    if char_at(s, e) == ' ' {
        assert(skip_space(s, e + 1) == e + 1);
    }
}

proof fn lemma_digit_char(d: nat)
    requires
        d < 10,
    ensures
        is_digit(digit_char(d)),
        digit_val(digit_char(d)) == d,
{
}

proof fn lemma_decimal(s: Seq<char>, a: int, n: nat)
    requires
        text_at(s, a, decimal(n)),
    ensures
        decimal(n).len() >= 1,
        digits_value(s, a, a + decimal(n).len()) == n,
        forall|j: int| a <= j < a + decimal(n).len() ==> is_digit(s[j]),
    decreases n,
{
    if n < 10 {
        lemma_digit_char(n);
        assert(s[a + 0] == decimal(n)[0]);
        assert(digits_value(s, a, a) == 0);
    } else {
        let w = decimal(n / 10);
        assert(text_at(s, a, w)) by {
            assert forall|i: int| 0 <= i < w.len() implies s[a + i] == w[i] by {
                assert(decimal(n)[i] == w[i]);
            }
        }
        lemma_decimal(s, a, n / 10);
        lemma_digit_char(n % 10);
        let l = w.len() as int;
        assert(s[a + l] == decimal(n)[l]);
        assert(decimal(n)[l] == digit_char(n % 10));
        assert forall|j: int| a <= j < a + decimal(n).len() implies is_digit(s[j]) by {
            if j < a + l {
            } else {
                assert(j == a + l);
            }
        }
    }
}

proof fn lemma_digits_end_at(s: Seq<char>, a: int, b: int)
    requires
        0 <= a <= b <= s.len(),
        forall|j: int| a <= j < b ==> is_digit(s[j]),
        !is_digit(char_at(s, b)),
    ensures
        digits_end(s, a) == b,
    decreases b - a,
{
    if a < b {
        lemma_digits_end_at(s, a + 1, b);
    }
}

/// A rendered literal reads back as that literal.
proof fn lemma_literal(s: Seq<char>, p: int, i: i32)
    requires
        text_at(s, p, int_text(i as int)),
        !is_digit(char_at(s, p + int_text(i as int).len())),
    ensures
        operand(s, p) == Ok::<(Term, int), int>((Term::Literal(i), p + int_text(i as int).len())),
{
    let e = p + int_text(i as int).len();
    if i < 0 {
        let n = (-i) as nat;
        let w = decimal(n);
        assert(s[p + 0] == int_text(i as int)[0]);
        assert(text_at(s, p + 1, w)) by {
            assert forall|k: int| 0 <= k < w.len() implies s[p + 1 + k] == w[k] by {
                assert(int_text(i as int)[k + 1] == w[k]);
            }
        }
        lemma_decimal(s, p + 1, n);
        lemma_digits_end_at(s, p + 1, e);
        assert(is_digit(s[p + 1]));
        assert(literal(s, p) == Ok::<(Term, int), int>((Term::Literal(i), e)));
    } else {
        let n = i as nat;
        lemma_decimal(s, p, n);
        lemma_digits_end_at(s, p, e);
        assert(is_digit(s[p]));
        assert(char_at(s, p) != '-');
        assert(literal(s, p) == Ok::<(Term, int), int>((Term::Literal(i), e)));
    }
}

/// The text of an integer starts with neither a space nor a parenthesis.
proof fn lemma_int_start(s: Seq<char>, c: int, j: i32)
    requires
        text_at(s, c, int_text(j as int)),
    ensures
        !is_space(char_at(s, c)),
        char_at(s, c) == '-' || is_digit(char_at(s, c)),
{
    if j < 0 {
        assert(s[c + 0] == int_text(j as int)[0]);
    } else {
        lemma_decimal(s, c, j as nat);
    }
}

/// A rendered unary minus, or a literal, as the first operand of a chain,
/// reads back through the operand rule as its normal form.
proof fn lemma_first(s: Seq<char>, p: int, h: Term)
    requires
        arith(h),
        h is Literal || (h is Unary && h->Unary_op == Operator::Sub),
        text_at(s, p, render(h)),
        ends_chain(s, p + render(h).len()),
    ensures
        operand(s, p) == Ok::<(Term, int), int>((norm(h), p + render(h).len())),
        postfix(s, p) == Ok::<(Term, int), int>((norm(h), p + render(h).len())),
        !is_space(char_at(s, p)),
    decreases h, 0int,
{
    let w = render(h);
    let e = p + w.len();
    lemma_ends_chain(s, e);
    match h {
        Term::Literal(j) => {
            assert(w == int_text(j as int));
            assert(norm(h) == h);
            lemma_literal(s, p, j);
            lemma_int_start(s, p, j);
        },
        Term::Unary { child, op } => {
            let c = *child;
            let cw = paren(render(c), is_atom(c));
            assert(w == seq!['-'] + cw);
            assert(s[p + 0] == w[0]);
            assert(char_at(s, p) == '-');
            assert(text_at(s, p + 1, cw)) by {
                assert forall|i: int| 0 <= i < cw.len() implies s[p + 1 + i] == cw[i] by {
                    assert(w[1 + i] == cw[i]);
                }
            }
            if is_atom(c) {
                lemma_atom(c);
                let n = atom_value(c);
                if n >= 0 {
                    lemma_decimal(s, p + 1, n as nat);
                    lemma_digits_end_at(s, p + 1, e);
                    assert(is_digit(s[p + 1]));
                    assert(literal(s, p) == Ok::<(Term, int), int>((Term::Literal((-n) as i32), e)));
                    assert(norm(h) == Term::Literal((-n) as i32));
                } else {
                    lemma_int_start(s, p + 1, n);
                    assert(s[p + 1 + 0] == int_text(n as int)[0]);
                    assert(char_at(s, p + 1) == '-');
                    assert(!is_digit(char_at(s, p + 1)));
                    lemma_literal(s, p + 1, n);
                    assert(skip_space(s, p + 1) == p + 1);
                    assert(norm(h) == Term::Unary { child: Box::new(Term::Literal(n)), op: Operator::Sub });
                }
            } else {
                lemma_operand(s, p + 1, c);
                assert(s[p + 1] == cw[0]);
                assert(char_at(s, p + 1) == '(');
                assert(!is_digit(char_at(s, p + 1)));
                assert(skip_space(s, p + 1) == p + 1);
                assert(norm(h) == Term::Unary { child: Box::new(norm(c)), op: Operator::Sub });
            }
        },
        _ => {},
    }
}

/// Reading a rendered expression from the end of its first operand onward
/// builds its normal form, ending where its text ends.
proof fn lemma_chain(s: Seq<char>, p: int, t: Term)
    requires
        arith(t),
        text_at(s, p, render(t)),
        ends_chain(s, p + render(t).len()),
    ensures
        text_at(s, p, render(head(t))),
        ends_chain(s, p + render(head(t)).len()),
        chain(s, norm(head(t)), p + render(head(t)).len()) == chain(
            s,
            norm(t),
            p + render(t).len(),
        ),
        postfix(s, p) == Ok::<(Term, int), int>((norm(head(t)), p + render(head(t)).len())),
        !is_space(char_at(s, p)),
    decreases t, 1int,
{
    match t {
        Term::Literal(_) => {
            lemma_first(s, p, t);
        },
        Term::Unary { child, op } => {
            if op == Operator::Add {
                lemma_chain(s, p, *child);
            } else {
                lemma_first(s, p, t);
            }
        },
        Term::Binary { lhs, op, rhs } => {
            let lt = render(*lhs);
            let l = lt.len() as int;
            let whole = render(t);
            let tail = paren(render(*rhs), is_atom(*rhs));
            assert(op == Operator::Add || op == Operator::Sub || op == Operator::Mul || op
                == Operator::Div);
            assert(whole == lt + seq![' '] + op_text(op) + seq![' '] + tail);
            assert(op_text(op).len() == 1);
            assert(text_at(s, p, lt)) by {
                assert forall|i: int| 0 <= i < l implies s[p + i] == lt[i] by {
                    assert(whole[i] == lt[i]);
                }
            }
            let q = p + l;
            assert(s[q] == whole[l]);
            assert(s[q + 1] == whole[l + 1]);
            assert(s[q + 2] == whole[l + 2]);
            assert(char_at(s, q) == ' ');
            assert(char_at(s, q + 1) == op_text(op)[0]);
            assert(char_at(s, q + 2) == ' ');
            lemma_chain(s, p, *lhs);
            let c = q + 3;
            assert(text_at(s, c, tail)) by {
                assert forall|i: int| 0 <= i < tail.len() implies s[c + i] == tail[i] by {
                    assert(whole[l + 3 + i] == tail[i]);
                }
            }
            let e = c + tail.len();
            assert(e == p + whole.len());
            lemma_operand(s, c, *rhs);
            assert(skip_space(s, c) == c);
            assert(skip_space(s, q + 2) == c);
            assert(skip_space(s, q + 1) == q + 1);
            assert(skip_space(s, q) == q + 1);
            assert(chain(s, norm(*lhs), q) == chain(s, norm(t), e));
        },
        _ => {},
    }
}

/// An operand written as `paren` writes it reads back through the operand
/// and postfix rules as its normal form.
proof fn lemma_operand(s: Seq<char>, c: int, r: Term)
    requires
        arith(r),
        text_at(s, c, paren(render(r), is_atom(r))),
        ends_chain(s, c + paren(render(r), is_atom(r)).len()),
    ensures
        operand(s, c) == Ok::<(Term, int), int>((norm(r), c + paren(render(r), is_atom(r)).len())),
        postfix(s, c) == Ok::<(Term, int), int>((norm(r), c + paren(render(r), is_atom(r)).len())),
        !is_space(char_at(s, c)),
    decreases r, 3int,
{
    let w = paren(render(r), is_atom(r));
    let e = c + w.len();
    lemma_ends_chain(s, e);
    if is_atom(r) {
        lemma_atom(r);
        lemma_literal(s, c, atom_value(r));
        lemma_int_start(s, c, atom_value(r));
    } else {
            let inner = render(r);
            let n = inner.len() as int;
            assert(w == seq!['('] + inner + seq![')']);
            assert(s[c + 0] == w[0]);
            assert(char_at(s, c) == '(');
            assert(text_at(s, c + 1, inner)) by {
                assert forall|i: int| 0 <= i < n implies s[c + 1 + i] == inner[i] by {
                    assert(w[1 + i] == inner[i]);
                }
            }
            assert(s[c + 1 + n] == w[1 + n]);
            assert(char_at(s, c + 1 + n) == ')');
            lemma_expr(s, c + 1, r);
            assert(skip_space(s, c + 1) == c + 1);
            assert(skip_space(s, c + 1 + n) == c + 1 + n);
            assert(operand(s, c) == Ok::<(Term, int), int>((norm(r), e)));
    }
}

/// A rendered expression followed by a character that continues no token
/// reads back through the expression rule as itself.
proof fn lemma_expr(s: Seq<char>, p: int, t: Term)
    requires
        arith(t),
        text_at(s, p, render(t)),
        ({
            let c = char_at(s, p + render(t).len());
            !is_space(c) && !is_digit(c) && binary_op(c) is None
        }),
    ensures
        expr(s, p) == Ok::<(Term, int), int>((norm(t), p + render(t).len())),
        !is_space(char_at(s, p)),
    decreases t, 2int,
{
    let n = p + render(t).len();
    lemma_chain(s, p, t);
    lemma_head(t);
    let h = head(t);
    let e0 = p + render(h).len();
    assert(skip_space(s, n) == n);
    assert(binary_op(char_at(s, n)) is None);
}

/// An expression with no unary operator is its own normal form.
pub proof fn lemma_norm_without_unary(t: Term)
    requires
        arith(t),
        no_unary(t),
    ensures
        norm(t) == t,
    decreases t,
{
    match t {
        Term::Binary { lhs, rhs, .. } => {
            lemma_norm_without_unary(*lhs);
            lemma_norm_without_unary(*rhs);
        },
        _ => {},
    }
}

/// Rendering an arithmetic expression as infix text and reading the text
/// back with the expression rule gives the same tree up to unary signs (see
/// `norm`; a tree without unary operators comes back unchanged), and the
/// whole text is consumed.
pub proof fn lemma_round_trip(t: Term)
    requires
        arith(t),
    ensures
        expr(render(t) + seq![';'], 0) == Ok::<(Term, int), int>((norm(t), render(t).len() as int)),
        no_unary(t) ==> norm(t) == t,
{
    let s = render(t) + seq![';'];
    let n = render(t).len() as int;
    assert(text_at(s, 0, render(t))) by {
        assert forall|i: int| 0 <= i < n implies s[0 + i] == render(t)[i] by {}
    }
    assert(char_at(s, n) == ';');
    lemma_expr(s, 0, t);
    if no_unary(t) {
        lemma_norm_without_unary(t);
    }
}

} // verus!
