use vstd::prelude::*;
use vstd::string::*;

verus! {

/// A program unit: `fn name(args) { ... }`, or the flat `main { ... }`.
#[derive(Debug)]
pub struct Function {
    pub name: String,
    /// The text between the parentheses of the header, as written.
    pub args: String,
    /// The variable bindings of the body, in declaration order.
    pub vars: Vec<Var>,
    /// The expression statements of the body, in declaration order.
    pub exprs: Vec<Expr>,
    /// Reserved for a return value; always zero.
    pub ret: i32,
    /// Written as the flat `main { ... }` rather than as `fn name(...) { ... }`.
    pub flat: bool,
}

/// A named binding to an unevaluated expression.
#[derive(Debug)]
pub struct Var {
    pub name: String,
    pub expr: Expr,
}

#[derive(Debug)]
pub enum Expr {
    /// A prefix operator applied to a term.
    Unary { child: Box<Expr>, op: Operator },
    /// An infix operator; `Incr`, `Decr` and `Comp` use only `lhs`.
    Binary { lhs: Box<Expr>, op: Operator, rhs: Box<Expr> },
    Literal(i32),
    /// A variable, resolved only when evaluated.
    Reference(String),
}

#[derive(Debug, PartialEq, Eq, Structural, Clone, Copy)]
pub enum Operator {
    Add,
    Sub,
    Mul,
    Div,
    Incr,
    Decr,
    Comp,
}

/// The mathematical form of an [`Expr`]: names are character sequences.
pub enum Term {
    Unary { child: Box<Term>, op: Operator },
    Binary { lhs: Box<Term>, op: Operator, rhs: Box<Term> },
    Literal(i32),
    Reference(Seq<char>),
}

/// The mathematical form of a [`Var`].
pub struct VarModel {
    pub name: Seq<char>,
    pub expr: Term,
}

/// The mathematical form of a [`Function`].
pub struct FunctionModel {
    pub name: Seq<char>,
    pub args: Seq<char>,
    pub vars: Seq<VarModel>,
    pub exprs: Seq<Term>,
    pub ret: i32,
    pub flat: bool,
}

pub open spec fn term_of(e: Expr) -> Term
    decreases e,
{
    match e {
        Expr::Unary { child, op } => Term::Unary { child: Box::new(term_of(*child)), op },
        Expr::Binary { lhs, op, rhs } => Term::Binary {
            lhs: Box::new(term_of(*lhs)),
            op,
            rhs: Box::new(term_of(*rhs)),
        },
        Expr::Literal(i) => Term::Literal(i),
        Expr::Reference(s) => Term::Reference(s@),
    }
}

impl View for Expr {
    type V = Term;

    open spec fn view(&self) -> Term {
        term_of(*self)
    }
}

impl View for Var {
    type V = VarModel;

    open spec fn view(&self) -> VarModel {
        VarModel { name: self.name@, expr: self.expr@ }
    }
}

impl View for Function {
    type V = FunctionModel;

    open spec fn view(&self) -> FunctionModel {
        FunctionModel {
            name: self.name@,
            args: self.args@,
            vars: self.vars@.map_values(|v: Var| v@),
            exprs: self.exprs@.map_values(|e: Expr| e@),
            ret: self.ret,
            flat: self.flat,
        }
    }
}

/// The decimal digit `d` as a character.
pub open spec fn digit_char(d: nat) -> char {
    if d == 0 { '0' } else if d == 1 { '1' } else if d == 2 { '2' } else if d == 3 { '3' }
    else if d == 4 { '4' } else if d == 5 { '5' } else if d == 6 { '6' } else if d == 7 { '7' }
    else if d == 8 { '8' } else { '9' }
}

/// The decimal digits of `n`, without leading zeros.
pub open spec fn decimal(n: nat) -> Seq<char>
    decreases n,
{
    if n < 10 {
        seq![digit_char(n)]
    } else {
        decimal(n / 10).push(digit_char(n % 10))
    }
}

/// The text of an integer: its digits, after a `-` when it is negative.
pub open spec fn int_text(i: int) -> Seq<char> {
    if i < 0 {
        seq!['-'] + decimal((-i) as nat)
    } else {
        decimal(i as nat)
    }
}

/// The infix spelling of an operator.
pub open spec fn op_text(op: Operator) -> Seq<char> {
    match op {
        Operator::Add => seq!['+'],
        Operator::Sub => seq!['-'],
        Operator::Mul => seq!['*'],
        Operator::Div => seq!['/'],
        Operator::Incr => seq!['+', '+'],
        Operator::Decr => seq!['-', '-'],
        Operator::Comp => seq!['!'],
    }
}

/// The expression needs no parentheses as an operand: a literal or a name,
/// possibly under unary `+` signs, which render as nothing.
pub open spec fn is_atom(e: Term) -> bool
    decreases e,
{
    match e {
        Term::Unary { child, op } => op == Operator::Add && is_atom(*child),
        Term::Binary { .. } => false,
        Term::Literal(_) => true,
        Term::Reference(_) => true,
    }
}

/// `w` as an operand: in parentheses unless it is the text of an atom.
pub open spec fn paren(w: Seq<char>, atom: bool) -> Seq<char> {
    if atom { w } else { seq!['('] + w + seq![')'] }
}

/// Infix text of an expression: binary operators between their operands with
/// a space on each side, `++` and `--` after their operand, `!` before it, a
/// unary `+` as nothing and a unary `-` as a sign. A right operand, and the
/// operand of a unary or postfix operator, stands in parentheses unless it is
/// an atom, so that the text reads back as the same tree.
pub open spec fn render(e: Term) -> Seq<char>
    decreases e,
{
    match e {
        Term::Unary { child, op } => match op {
            Operator::Add => render(*child),
            _ => op_text(op) + paren(render(*child), is_atom(*child)),
        },
        Term::Binary { lhs, op, rhs } => match op {
            Operator::Incr => paren(render(*lhs), is_atom(*lhs)) + seq!['+', '+'],
            Operator::Decr => paren(render(*lhs), is_atom(*lhs)) + seq!['-', '-'],
            Operator::Comp => seq!['!'] + paren(render(*lhs), is_atom(*lhs)),
            _ => render(*lhs) + seq![' '] + op_text(op) + seq![' '] + paren(
                render(*rhs),
                is_atom(*rhs),
            ),
        },
        Term::Literal(i) => int_text(i as int),
        Term::Reference(s) => s,
    }
}

fn digit_str(d: u32) -> (r: &'static str)
    requires
        d < 10,
    ensures
        r@ == seq![digit_char(d as nat)],
{
    proof {
        reveal_strlit("0");
        reveal_strlit("1");
        reveal_strlit("2");
        reveal_strlit("3");
        reveal_strlit("4");
        reveal_strlit("5");
        reveal_strlit("6");
        reveal_strlit("7");
        reveal_strlit("8");
        reveal_strlit("9");
    }
    if d == 0 { "0" } else if d == 1 { "1" } else if d == 2 { "2" } else if d == 3 { "3" }
    else if d == 4 { "4" } else if d == 5 { "5" } else if d == 6 { "6" } else if d == 7 { "7" }
    else if d == 8 { "8" } else { "9" }
}

fn push_decimal(out: &mut String, n: u32)
    ensures
        final(out)@ == old(out)@ + decimal(n as nat),
    decreases n,
{
    if n >= 10 {
        push_decimal(out, n / 10);
    }
    out.append(digit_str(n % 10));
    assert(final(out)@ =~= old(out)@ + decimal(n as nat));
}

fn push_op(out: &mut String, op: Operator)
    ensures
        final(out)@ == old(out)@ + op_text(op),
{
    proof {
        reveal_strlit("+");
        reveal_strlit("-");
        reveal_strlit("*");
        reveal_strlit("/");
        reveal_strlit("++");
        reveal_strlit("--");
        reveal_strlit("!");
    }
    match op {
        Operator::Add => out.append("+"),
        Operator::Sub => out.append("-"),
        Operator::Mul => out.append("*"),
        Operator::Div => out.append("/"),
        Operator::Incr => out.append("++"),
        Operator::Decr => out.append("--"),
        Operator::Comp => out.append("!"),
    }
}

impl Expr {
    /// A deep copy of the expression.
    pub fn duplicate(&self) -> (r: Expr)
        ensures
            r == *self,
        decreases self,
    {
        match self {
            Expr::Unary { child, op } => Expr::Unary { child: Box::new(child.duplicate()), op: *op },
            Expr::Binary { lhs, op, rhs } => Expr::Binary {
                lhs: Box::new(lhs.duplicate()),
                op: *op,
                rhs: Box::new(rhs.duplicate()),
            },
            Expr::Literal(i) => Expr::Literal(*i),
            Expr::Reference(s) => Expr::Reference(s.clone()),
        }
    }

    /// Whether the expression needs no parentheses as an operand.
    pub fn is_atom(&self) -> (r: bool)
        ensures
            r == is_atom(self@),
        decreases self,
    {
        match self {
            Expr::Unary { child, op } => match op {
                Operator::Add => child.is_atom(),
                _ => false,
            },
            Expr::Binary { .. } => false,
            Expr::Literal(_) => true,
            Expr::Reference(_) => true,
        }
    }

    /// Appends the text of the expression as an operand to `out`.
    fn write_operand(&self, out: &mut String)
        ensures
            final(out)@ == old(out)@ + paren(render(self@), is_atom(self@)),
        decreases self, 1int,
    {
        proof {
            reveal_strlit("(");
            reveal_strlit(")");
        }
        if self.is_atom() {
            self.write_infix(out);
        } else {
            out.append("(");
            self.write_infix(out);
            out.append(")");
        }
        assert(final(out)@ =~= old(out)@ + paren(render(self@), is_atom(self@)));
    }

    /// Appends the infix text of the expression to `out`.
    pub fn write_infix(&self, out: &mut String)
        ensures
            final(out)@ == old(out)@ + render(self@),
        decreases self, 0int,
    {
        proof {
            reveal_strlit(" ");
            reveal_strlit("++");
            reveal_strlit("--");
            reveal_strlit("!");
            reveal_strlit("-");
        }
        match self {
            Expr::Unary { child, op } => {
                match op {
                    Operator::Add => child.write_infix(out),
                    _ => {
                        push_op(out, *op);
                        child.write_operand(out);
                    },
                }
            },
            Expr::Binary { lhs, op, rhs } => {
                match op {
                    Operator::Incr => {
                        lhs.write_operand(out);
                        out.append("++");
                    },
                    Operator::Decr => {
                        lhs.write_operand(out);
                        out.append("--");
                    },
                    Operator::Comp => {
                        out.append("!");
                        lhs.write_operand(out);
                    },
                    _ => {
                        lhs.write_infix(out);
                        out.append(" ");
                        push_op(out, *op);
                        out.append(" ");
                        rhs.write_operand(out);
                    },
                }
            },
            Expr::Literal(i) => {
                if *i < 0 {
                    out.append("-");
                    push_decimal(out, (-(*i as i64)) as u32);
                } else {
                    push_decimal(out, *i as u32);
                }
            },
            Expr::Reference(s) => {
                out.append(s.as_str());
            },
        }
        assert(final(out)@ =~= old(out)@ + render(self@));
    }

    /// The infix text of the expression.
    pub fn to_infix(&self) -> (r: String)
        ensures
            r@ == render(self@),
    {
        let mut out = String::new();
        self.write_infix(&mut out);
        assert(out@ =~= render(self@));
        out
    }
}

impl Var {
    /// A deep copy of the binding.
    pub fn duplicate(&self) -> (r: Var)
        ensures
            r == *self,
    {
        Var { name: self.name.clone(), expr: self.expr.duplicate() }
    }
}

} // verus!
