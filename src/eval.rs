use vstd::prelude::*;
use crate::ast::{Expr, Operator, Term};
use crate::error::Error;
use crate::memory::Memory;

verus! {

/// `a / b` rounded toward zero, as Rust's integer division does.
pub open spec fn trunc_div(a: int, b: int) -> int {
    let q = (if a < 0 { -a } else { a }) / (if b < 0 { -b } else { b });
    if (a < 0) != (b < 0) { -q } else { q }
}

/// What a prefix operator makes of its operand's value. Negation wraps, so
/// `-i32::MIN` is `i32::MIN`.
pub open spec fn apply_unary(op: Operator, v: i32) -> Result<i32, Error> {
    match op {
        Operator::Add => Ok(v),
        Operator::Sub => Ok(0i32.wrapping_sub(v)),
        _ => Err(Error::InvalidOperator),
    }
}

/// What an infix operator makes of its operands' values. Addition and
/// subtraction wrap; multiplication and division fail instead of wrapping.
/// `Incr` and `Decr` add or take one from the left value and accept only `1`
/// as the right one; `Comp` complements the left value.
pub open spec fn apply_binary(op: Operator, l: i32, r: i32) -> Result<i32, Error> {
    match op {
        Operator::Add => Ok(l.wrapping_add(r)),
        Operator::Sub => Ok(l.wrapping_sub(r)),
        Operator::Mul => {
            let p = l as int * r as int;
            if i32::MIN <= p <= i32::MAX {
                Ok(p as i32)
            } else {
                Err(Error::MultiplyOverflow)
            }
        },
        Operator::Div => {
            if r == 0 {
                Err(Error::DivisionByZero)
            } else if l == i32::MIN && r == -1 {
                Err(Error::DivisionOverflow)
            } else {
                Ok(trunc_div(l as int, r as int) as i32)
            }
        },
        Operator::Incr => if r == 1 { Ok(l.wrapping_add(1)) } else { Err(Error::InvalidOperator) },
        Operator::Decr => if r == 1 { Ok(l.wrapping_sub(1)) } else { Err(Error::InvalidOperator) },
        Operator::Comp => Ok(!l),
    }
}

/// The value of `e` in the environment `m`, where `fuel` bounds how deeply
/// references may nest while being resolved.
///
/// A reference is replaced by the expression bound to its name and that is
/// evaluated afresh (no value is cached). Operands are evaluated left before
/// right, and the first failure is the result.
pub open spec fn eval_expr(m: Map<Seq<char>, Term>, e: Term, fuel: nat) -> Result<i32, Error>
    decreases fuel, e,
{
    match e {
        Term::Literal(n) => Ok(n),
        Term::Reference(name) => {
            if !m.contains_key(name) {
                Err(Error::UndefinedVariable)
            } else if fuel == 0 {
                Err(Error::CyclicReference)
            } else {
                eval_expr(m, m[name], (fuel - 1) as nat)
            }
        },
        Term::Unary { child, op } => match eval_expr(m, *child, fuel) {
            Err(err) => Err(err),
            Ok(v) => apply_unary(op, v),
        },
        Term::Binary { lhs, op, rhs } => match eval_expr(m, *lhs, fuel) {
            Err(err) => Err(err),
            Ok(l) => match eval_expr(m, *rhs, fuel) {
                Err(err) => Err(err),
                Ok(r) => apply_binary(op, l, r),
            },
        },
    }
}

/// The value of `e` in the environment of `mem`. References may nest as
/// deeply as `mem` has bindings: a chain that avoids a cycle never passes
/// through more, so running out means the chain went round a cycle.
pub open spec fn value_in(mem: Memory, e: Term) -> Result<i32, Error> {
    eval_expr(mem@, e, mem.size())
}

/// References resolve transitively: a name bound to a reference to another
/// name evaluates to whatever that other name evaluates to, one level of
/// nesting deeper.
pub proof fn lemma_reference_chain(m: Map<Seq<char>, Term>, a: Seq<char>, b: Seq<char>, fuel: nat)
    requires
        m.contains_key(b),
        m[b] == Term::Reference(a),
    ensures
        eval_expr(m, Term::Reference(b), fuel + 1) == eval_expr(m, Term::Reference(a), fuel),
{
}

/// Division by zero fails with `DivisionByZero`, whatever the left operand's
/// value, once both operands have been evaluated.
pub proof fn lemma_division_by_zero(m: Map<Seq<char>, Term>, lhs: Term, rhs: Term, fuel: nat)
    requires
        eval_expr(m, lhs, fuel) is Ok,
        eval_expr(m, rhs, fuel) == Ok::<i32, Error>(0),
    ensures
        eval_expr(m, Term::Binary { lhs: Box::new(lhs), op: Operator::Div, rhs: Box::new(rhs) }, fuel)
            == Err::<i32, Error>(Error::DivisionByZero),
        forall|l: i32| apply_binary(Operator::Div, l, 0) == Err::<i32, Error>(Error::DivisionByZero),
{
}

fn apply_unary_exec(op: Operator, v: i32) -> (r: Result<i32, Error>)
    ensures
        r == apply_unary(op, v),
{
    match op {
        Operator::Add => Ok(v),
        Operator::Sub => Ok(0i32.wrapping_sub(v)),
        _ => Err(Error::InvalidOperator),
    }
}

fn div_toward_zero(l: i32, r: i32) -> (q: i32)
    requires
        r != 0,
        !(l == i32::MIN && r == -1),
    ensures
        q as int == trunc_div(l as int, r as int),
{
    let a: u64 = if l < 0 { (-(l as i64)) as u64 } else { l as u64 };
    let b: u64 = if r < 0 { (-(r as i64)) as u64 } else { r as u64 };
    let q: u64 = a / b;
    proof {
        assert(q <= a) by (nonlinear_arith)
            requires
                q == a / b,
                b >= 1,
        ;
        if a == 0x8000_0000 && (l < 0) == (r < 0) {
            assert(b >= 2);
            assert(q <= a / 2) by (nonlinear_arith)
                requires
                    q == a / b,
                    b >= 2,
            ;
        }
    }
    if (l < 0) != (r < 0) {
        -(q as i64) as i32
    } else {
        q as i32
    }
}

fn apply_binary_exec(op: Operator, l: i32, r: i32) -> (res: Result<i32, Error>)
    ensures
        res == apply_binary(op, l, r),
{
    match op {
        Operator::Add => Ok(l.wrapping_add(r)),
        Operator::Sub => Ok(l.wrapping_sub(r)),
        Operator::Mul => {
            proof {
                let (x, y) = (l as int, r as int);
                assert(-0x4000_0000_0000_0000 <= x * y <= 0x4000_0000_0000_0000) by (nonlinear_arith)
                    requires
                        -0x8000_0000 <= x <= 0x8000_0000,
                        -0x8000_0000 <= y <= 0x8000_0000,
                ;
            }
            let p: i64 = l as i64 * r as i64;
            if i32::MIN as i64 <= p && p <= i32::MAX as i64 {
                Ok(p as i32)
            } else {
                Err(Error::MultiplyOverflow)
            }
        },
        Operator::Div => {
            if r == 0 {
                Err(Error::DivisionByZero)
            } else if l == i32::MIN && r == -1 {
                Err(Error::DivisionOverflow)
            } else {
                Ok(div_toward_zero(l, r))
            }
        },
        Operator::Incr => if r == 1 { Ok(l.wrapping_add(1)) } else { Err(Error::InvalidOperator) },
        Operator::Decr => if r == 1 { Ok(l.wrapping_sub(1)) } else { Err(Error::InvalidOperator) },
        Operator::Comp => Ok(!l),
    }
}

/// A tree-walking evaluator over an environment of bindings.
pub struct Eval {
    pub memory: Memory,
}

impl Eval {
    pub fn new(memory: Memory) -> (r: Self)
        ensures
            r.memory == memory,
    {
        Eval { memory }
    }

    /// Evaluates `node` in this evaluator's memory, without changing either.
    pub fn eval(&self, node: &Expr) -> (r: Result<i32, Error>)
        ensures
            r == value_in(self.memory, node@),
    {
        let fuel = self.memory.len();
        self.eval_with(node, fuel)
    }

    fn eval_with(&self, node: &Expr, fuel: usize) -> (r: Result<i32, Error>)
        ensures
            r == eval_expr(self.memory@, node@, fuel as nat),
        decreases fuel, node,
    {
        match node {
            Expr::Literal(n) => Ok(*n),
            Expr::Reference(name) => {
                match self.memory.find(name.as_str()) {
                    Err(_) => Err(Error::UndefinedVariable),
                    Ok(e) => {
                        if fuel == 0 {
                            Err(Error::CyclicReference)
                        } else {
                            self.eval_with(e, fuel - 1)
                        }
                    },
                }
            },
            Expr::Unary { child, op } => {
                match self.eval_with(child, fuel) {
                    Err(err) => Err(err),
                    Ok(v) => apply_unary_exec(*op, v),
                }
            },
            Expr::Binary { lhs, op, rhs } => {
                match self.eval_with(lhs, fuel) {
                    Err(err) => Err(err),
                    Ok(l) => match self.eval_with(rhs, fuel) {
                        Err(err) => Err(err),
                        Ok(r) => apply_binary_exec(*op, l, r),
                    },
                }
            },
        }
    }
}

impl Default for Eval {
    fn default() -> (r: Self)
        ensures
            r.memory@ == Map::<Seq<char>, Term>::empty(),
            r.memory.size() == 0,
    {
        Eval { memory: Memory::new() }
    }
}

} // verus!
