use vstd::prelude::*;
use vstd::string::*;
use crate::ast::{Expr, Function, FunctionModel, Operator, Term, Var, VarModel};
use crate::error::Error;

verus! {

// ---------------------------------------------------------------------------
// The grammar, as functions on the characters of the source.
//
// Each rule takes the text `s` and a position `p` and gives either what it
// matched with the position just after it, or the position at which the text
// stopped matching. Spaces, tabs and line breaks may stand between tokens.
//
//   program  := unit*
//   unit     := 'fn' name '(' <any text but ')'> ')' '{' stmt* '}'
//             | 'main' '{' stmt* '}'
//   stmt     := 'let' name '=' expr ';' | name '=' expr ';' | expr ';'
//   expr     := postfix (('+' | '-' | '*' | '/') postfix)*     (left to right)
//   postfix  := operand ('++' | '--')?
//   operand  := integer | '-' integer | ('+' | '-') operand
//             | '(' expr ')' | name | name '(' ')'
// ---------------------------------------------------------------------------

/// The character at `i`, or NUL past either end.
pub open spec fn char_at(s: Seq<char>, i: int) -> char {
    if 0 <= i < s.len() { s[i] } else { '\0' }
}

pub open spec fn is_space(c: char) -> bool {
    c == ' ' || c == '\t' || c == '\n' || c == '\r'
}

pub open spec fn is_digit(c: char) -> bool {
    48 <= (c as u32) <= 57
}

pub open spec fn is_name_start(c: char) -> bool {
    (97 <= (c as u32) <= 122) || (65 <= (c as u32) <= 90) || c == '_'
}

pub open spec fn is_name_char(c: char) -> bool {
    is_name_start(c) || is_digit(c)
}

pub open spec fn digit_val(c: char) -> nat {
    ((c as u32) - 48) as nat
}

/// The first position at or after `p` that does not hold a space.
pub open spec fn skip_space(s: Seq<char>, p: int) -> int
    decreases s.len() - p,
{
    if 0 <= p < s.len() && is_space(s[p]) { skip_space(s, p + 1) } else { p }
}

/// The end of the run of digits that starts at `p`.
pub open spec fn digits_end(s: Seq<char>, p: int) -> int
    decreases s.len() - p,
{
    if 0 <= p < s.len() && is_digit(s[p]) { digits_end(s, p + 1) } else { p }
}

/// The end of the run of name characters that starts at `p`.
pub open spec fn name_end(s: Seq<char>, p: int) -> int
    decreases s.len() - p,
{
    if 0 <= p < s.len() && is_name_char(s[p]) { name_end(s, p + 1) } else { p }
}

/// The first position at or after `p` that holds `)`, or the end of `s`.
pub open spec fn close_paren(s: Seq<char>, p: int) -> int
    decreases s.len() - p,
{
    if 0 <= p < s.len() && s[p] != ')' { close_paren(s, p + 1) } else { p }
}

/// The number that the digits in `s[a..b]` spell in decimal.
pub open spec fn digits_value(s: Seq<char>, a: int, b: int) -> nat
    decreases b - a,
{
    if b <= a { 0 } else { digits_value(s, a, b - 1) * 10 + digit_val(char_at(s, b - 1)) }
}

/// `s` holds the two characters `c1 c2` at `p`.
pub open spec fn pair_at(s: Seq<char>, p: int, c1: char, c2: char) -> bool {
    char_at(s, p) == c1 && char_at(s, p + 1) == c2
}

/// The keyword `let` at `p`, not followed by a name character.
pub open spec fn let_at(s: Seq<char>, p: int) -> bool {
    pair_at(s, p, 'l', 'e') && char_at(s, p + 2) == 't' && !is_name_char(char_at(s, p + 3))
}

/// The keyword `fn` at `p`, not followed by a name character.
pub open spec fn fn_at(s: Seq<char>, p: int) -> bool {
    pair_at(s, p, 'f', 'n') && !is_name_char(char_at(s, p + 2))
}

/// The keyword `main` at `p`, not followed by a name character.
pub open spec fn main_at(s: Seq<char>, p: int) -> bool {
    pair_at(s, p, 'm', 'a') && pair_at(s, p + 2, 'i', 'n') && !is_name_char(char_at(s, p + 4))
}

pub open spec fn binary_op(c: char) -> Option<Operator> {
    if c == '+' {
        Some(Operator::Add)
    } else if c == '-' {
        Some(Operator::Sub)
    } else if c == '*' {
        Some(Operator::Mul)
    } else if c == '/' {
        Some(Operator::Div)
    } else {
        None
    }
}

pub proof fn lemma_skip_space(s: Seq<char>, p: int)
    ensures
        skip_space(s, p) >= p,
        0 <= p <= s.len() ==> skip_space(s, p) <= s.len(),
    decreases s.len() - p,
{
    if 0 <= p < s.len() && is_space(s[p]) {
        lemma_skip_space(s, p + 1);
    }
}

pub proof fn lemma_digits_end(s: Seq<char>, p: int)
    ensures
        digits_end(s, p) >= p,
        forall|j: int| p <= j < digits_end(s, p) ==> 0 <= j < s.len() && is_digit(s[j]),
        0 <= p <= s.len() ==> digits_end(s, p) <= s.len(),
    decreases s.len() - p,
{
    if 0 <= p < s.len() && is_digit(s[p]) {
        lemma_digits_end(s, p + 1);
    }
}

pub proof fn lemma_name_end(s: Seq<char>, p: int)
    ensures
        name_end(s, p) >= p,
        forall|j: int| p <= j < name_end(s, p) ==> 0 <= j < s.len() && is_name_char(s[j]),
        0 <= p <= s.len() ==> name_end(s, p) <= s.len(),
    decreases s.len() - p,
{
    if 0 <= p < s.len() && is_name_char(s[p]) {
        lemma_name_end(s, p + 1);
    }
}

/// An integer literal at `p`: digits, possibly right after a `-`.
pub open spec fn literal(s: Seq<char>, p: int) -> Result<(Term, int), int> {
    let neg = char_at(s, p) == '-';
    let a = if neg { p + 1 } else { p };
    let b = digits_end(s, a);
    let v: int = if neg { -(digits_value(s, a, b) as int) } else { digits_value(s, a, b) as int };
    if i32::MIN <= v <= i32::MAX {
        Ok((Term::Literal(v as i32), b))
    } else {
        Err(p)
    }
}

/// A name at `p`, or a call `name()`, which stands for the name alone.
pub open spec fn name_operand(s: Seq<char>, p: int) -> Result<(Term, int), int> {
    let b = name_end(s, p);
    let t = Term::Reference(s.subrange(p, b));
    let q = skip_space(s, b);
    if char_at(s, q) == '(' {
        let r = skip_space(s, q + 1);
        if char_at(s, r) == ')' { Ok((t, r + 1)) } else { Err(r) }
    } else {
        Ok((t, b))
    }
}

/// The operand rule: a literal, a prefix sign on an operand, a group in
/// parentheses, or a name.
pub open spec fn operand(s: Seq<char>, p: int) -> Result<(Term, int), int>
    decreases s.len() - p, 0int,
{
    let c = char_at(s, p);
    if is_digit(c) || (c == '-' && is_digit(char_at(s, p + 1))) {
        literal(s, p)
    } else if c == '+' || c == '-' {
        proof {
            lemma_skip_space(s, p + 1);
        }
        match operand(s, skip_space(s, p + 1)) {
            Err(e) => Err(e),
            Ok((t, q)) => Ok(
                (
                    Term::Unary {
                        child: Box::new(t),
                        op: if c == '+' { Operator::Add } else { Operator::Sub },
                    },
                    q,
                ),
            ),
        }
    } else if c == '(' {
        proof {
            lemma_skip_space(s, p + 1);
        }
        match expr(s, skip_space(s, p + 1)) {
            Err(e) => Err(e),
            Ok((t, q)) => {
                let r = skip_space(s, q);
                if char_at(s, r) == ')' { Ok((t, r + 1)) } else { Err(r) }
            },
        }
    } else if is_name_start(c) {
        name_operand(s, p)
    } else {
        Err(p)
    }
}

/// The postfix rule: `x++` is `x + 1` written as `Binary { x, Incr, 1 }`.
pub open spec fn postfix(s: Seq<char>, p: int) -> Result<(Term, int), int>
    decreases s.len() - p, 1int,
{
    match operand(s, p) {
        Err(e) => Err(e),
        Ok((t, q)) => {
            let r = skip_space(s, q);
            if pair_at(s, r, '+', '+') {
                Ok((Term::Binary { lhs: Box::new(t), op: Operator::Incr, rhs: Box::new(Term::Literal(1)) }, r + 2))
            } else if pair_at(s, r, '-', '-') {
                Ok((Term::Binary { lhs: Box::new(t), op: Operator::Decr, rhs: Box::new(Term::Literal(1)) }, r + 2))
            } else {
                Ok((t, q))
            }
        },
    }
}

/// The rest of an expression after `acc`, which ends at `q`: binary
/// operators group from the left, with no precedence among them.
pub open spec fn chain(s: Seq<char>, acc: Term, q: int) -> Result<(Term, int), int>
    decreases s.len() - q, 2int,
{
    let r = skip_space(s, q);
    match binary_op(char_at(s, r)) {
        None => Ok((acc, q)),
        Some(op) => {
            proof {
                lemma_skip_space(s, q);
                lemma_skip_space(s, r + 1);
            }
            match postfix(s, skip_space(s, r + 1)) {
                Err(e) => Err(e),
                Ok((rhs, q2)) => {
                    if q < q2 <= s.len() {
                        chain(s, Term::Binary { lhs: Box::new(acc), op, rhs: Box::new(rhs) }, q2)
                    } else {
                        Err(q2)
                    }
                },
            }
        },
    }
}

/// The expression rule.
pub open spec fn expr(s: Seq<char>, p: int) -> Result<(Term, int), int>
    decreases s.len() - p, 3int,
{
    match postfix(s, p) {
        Err(e) => Err(e),
        Ok((t, q)) => if p < q <= s.len() { chain(s, t, q) } else { Err(q) },
    }
}

/// A statement of a body.
pub enum StmtModel {
    Bind(VarModel),
    Bare(Term),
}

/// `name = expr ;`, with the name starting at `a`.
pub open spec fn binding(s: Seq<char>, a: int) -> Result<(VarModel, int), int> {
    let b = name_end(s, a);
    let q = skip_space(s, b);
    if char_at(s, q) != '=' {
        Err(q)
    } else {
        match expr(s, skip_space(s, q + 1)) {
            Err(e) => Err(e),
            Ok((t, r)) => {
                let r1 = skip_space(s, r);
                if char_at(s, r1) == ';' {
                    Ok((VarModel { name: s.subrange(a, b), expr: t }, r1 + 1))
                } else {
                    Err(r1)
                }
            },
        }
    }
}

/// The statement rule.
pub open spec fn stmt(s: Seq<char>, p: int) -> Result<(StmtModel, int), int> {
    if let_at(s, p) {
        let a = skip_space(s, p + 3);
        if is_name_start(char_at(s, a)) {
            match binding(s, a) {
                Err(e) => Err(e),
                Ok((v, q)) => Ok((StmtModel::Bind(v), q)),
            }
        } else {
            Err(a)
        }
    } else if is_name_start(char_at(s, p)) && char_at(s, skip_space(s, name_end(s, p))) == '=' {
        match binding(s, p) {
            Err(e) => Err(e),
            Ok((v, q)) => Ok((StmtModel::Bind(v), q)),
        }
    } else {
        match expr(s, p) {
            Err(e) => Err(e),
            Ok((t, r)) => {
                let r1 = skip_space(s, r);
                if char_at(s, r1) == ';' { Ok((StmtModel::Bare(t), r1 + 1)) } else { Err(r1) }
            },
        }
    }
}

/// The statements from `p` up to and including the closing `}`, added to
/// the bindings and expressions already read.
pub open spec fn body(s: Seq<char>, p: int, vars: Seq<VarModel>, exprs: Seq<Term>) -> Result<
    (Seq<VarModel>, Seq<Term>, int),
    int,
>
    decreases s.len() - p,
{
    let p1 = skip_space(s, p);
    if char_at(s, p1) == '}' {
        Ok((vars, exprs, p1 + 1))
    } else {
        match stmt(s, p1) {
            Err(e) => Err(e),
            Ok((st, q)) => {
                if p < q <= s.len() {
                    match st {
                        StmtModel::Bind(v) => body(s, q, vars.push(v), exprs),
                        StmtModel::Bare(t) => body(s, q, vars, exprs.push(t)),
                    }
                } else {
                    Err(q)
                }
            },
        }
    }
}

/// The unit rule: a function, or the flat `main { ... }`.
pub open spec fn unit(s: Seq<char>, p: int) -> Result<(FunctionModel, int), int> {
    if fn_at(s, p) {
        let a = skip_space(s, p + 2);
        let b = name_end(s, a);
        let c = skip_space(s, b);
        let d = close_paren(s, c + 1);
        let e = skip_space(s, d + 1);
        if !is_name_start(char_at(s, a)) {
            Err(a)
        } else if char_at(s, c) != '(' {
            Err(c)
        } else if char_at(s, d) != ')' {
            Err(d)
        } else if char_at(s, e) != '{' {
            Err(e)
        } else {
            match body(s, e + 1, seq![], seq![]) {
                Err(x) => Err(x),
                Ok((vs, es, q)) => Ok(
                    (
                        FunctionModel {
                            name: s.subrange(a, b),
                            args: s.subrange(c + 1, d),
                            vars: vs,
                            exprs: es,
                            ret: 0,
                            flat: false,
                        },
                        q,
                    ),
                ),
            }
        }
    } else if main_at(s, p) && char_at(s, skip_space(s, p + 4)) == '{' {
        match body(s, skip_space(s, p + 4) + 1, seq![], seq![]) {
            Err(x) => Err(x),
            Ok((vs, es, q)) => Ok(
                (
                    FunctionModel {
                        name: s.subrange(p, p + 4),
                        args: seq![],
                        vars: vs,
                        exprs: es,
                        ret: 0,
                        flat: true,
                    },
                    q,
                ),
            ),
        }
    } else {
        Err(p)
    }
}

/// The units from `p` to the end of `s`, after the units `fs` already read.
/// A unit that cannot even begin is `CannotParse` when it would be the first
/// and `TrailingInput` after another; a unit that breaks off later is a
/// `SyntaxError` at the position where it stopped matching.
pub open spec fn units(s: Seq<char>, p: int, fs: Seq<FunctionModel>) -> Result<Seq<FunctionModel>, Error>
    decreases s.len() - p,
{
    let p1 = skip_space(s, p);
    if p1 >= s.len() {
        Ok(fs)
    } else {
        match unit(s, p1) {
            Err(q) => Err(
                if q == p1 {
                    if fs.len() == 0 { Error::CannotParse } else { Error::TrailingInput }
                } else {
                    Error::SyntaxError(q as usize)
                },
            ),
            Ok((f, q)) => {
                if p < q <= s.len() {
                    units(s, q, fs.push(f))
                } else {
                    Err(Error::SyntaxError(q as usize))
                }
            },
        }
    }
}

pub open spec fn is_main(f: FunctionModel) -> bool {
    f.name == seq!['m', 'a', 'i', 'n']
}

pub open spec fn has_main(fs: Seq<FunctionModel>) -> bool {
    exists|i: int| 0 <= i < fs.len() && is_main(#[trigger] fs[i])
}

/// The units in declaration order, except that each unit named `main` is
/// moved to the front as it is met (so the last `main` ends up first).
pub open spec fn main_first(fs: Seq<FunctionModel>) -> Seq<FunctionModel>
    decreases fs.len(),
{
    if fs.len() == 0 {
        seq![]
    } else {
        let r = main_first(fs.drop_last());
        if is_main(fs.last()) { seq![fs.last()] + r } else { r.push(fs.last()) }
    }
}

/// What parsing a whole source text gives: its units with `main` first, or
/// the first error.
pub open spec fn parse_program(s: Seq<char>) -> Result<Seq<FunctionModel>, Error> {
    match units(s, 0, seq![]) {
        Err(e) => Err(e),
        Ok(fs) => if has_main(fs) { Ok(main_first(fs)) } else { Err(Error::MissingMain) },
    }
}

/// A program whose units all parse, none of them named `main`, is rejected
/// with `MissingMain`; one that has a `main` unit yields it first.
pub proof fn lemma_main_required(s: Seq<char>)
    requires
        units(s, 0, seq![]) is Ok,
    ensures
        !has_main(units(s, 0, seq![])->Ok_0) ==> parse_program(s) == Err::<
            Seq<FunctionModel>,
            Error,
        >(Error::MissingMain),
        has_main(units(s, 0, seq![])->Ok_0) ==> parse_program(s) is Ok && is_main(
            parse_program(s)->Ok_0[0],
        ),
{
    lemma_main_first(units(s, 0, seq![])->Ok_0);
}

pub open spec fn functions_view(v: Seq<Function>) -> Seq<FunctionModel> {
    v.map_values(|f: Function| f@)
}

pub open spec fn program_result(r: Result<Vec<Function>, Error>) -> Result<Seq<FunctionModel>, Error> {
    match r {
        Ok(v) => Ok(functions_view(v@)),
        Err(e) => Err(e),
    }
}

proof fn lemma_main_first(fs: Seq<FunctionModel>)
    ensures
        main_first(fs).len() == fs.len(),
        has_main(fs) ==> is_main(main_first(fs)[0]),
    decreases fs.len(),
{
    if fs.len() > 0 {
        let init = fs.drop_last();
        lemma_main_first(init);
        if !is_main(fs.last()) && has_main(fs) {
            let i = choose|i: int| 0 <= i < fs.len() && is_main(#[trigger] fs[i]);
            assert(init[i] == fs[i]);
            assert(has_main(init));
        }
    }
}

/// A parse result of an expression rule, in terms of the models.
pub open spec fn term_result(r: Result<(Expr, usize), usize>) -> Result<(Term, int), int> {
    match r {
        Ok((e, q)) => Ok((e@, q as int)),
        Err(q) => Err(q as int),
    }
}

/// What an exec rule promises besides matching its grammar rule: a match
/// consumes text, and every position stays inside the source.
pub open spec fn advances<T>(r: Result<(T, usize), usize>, p: usize, n: usize) -> bool {
    match r {
        Ok((_, q)) => p < q <= n,
        Err(q) => q <= n,
    }
}

fn char_at_exec(src: &str, n: usize, i: usize) -> (c: char)
    requires
        n == src@.len(),
    ensures
        c == char_at(src@, i as int),
{
    if i < n {
        src.get_char(i)
    } else {
        '\0'
    }
}

fn is_space_exec(c: char) -> (r: bool)
    ensures
        r == is_space(c),
{
    c == ' ' || c == '\t' || c == '\n' || c == '\r'
}

fn is_digit_exec(c: char) -> (r: bool)
    ensures
        r == is_digit(c),
{
    let u = c as u32;
    48 <= u && u <= 57
}

fn is_name_start_exec(c: char) -> (r: bool)
    ensures
        r == is_name_start(c),
{
    let u = c as u32;
    (97 <= u && u <= 122) || (65 <= u && u <= 90) || c == '_'
}

fn is_name_char_exec(c: char) -> (r: bool)
    ensures
        r == is_name_char(c),
{
    is_name_start_exec(c) || is_digit_exec(c)
}

fn skip_space_exec(src: &str, n: usize, p: usize) -> (r: usize)
    requires
        n == src@.len(),
        p <= n,
    ensures
        r == skip_space(src@, p as int),
        p <= r <= n,
{
    let mut i = p;
    while i < n && is_space_exec(char_at_exec(src, n, i))
        invariant
            n == src@.len(),
            p <= i <= n,
            skip_space(src@, i as int) == skip_space(src@, p as int),
        decreases n - i,
    {
        i = i + 1;
    }
    i
}

fn digits_end_exec(src: &str, n: usize, p: usize) -> (r: usize)
    requires
        n == src@.len(),
        p <= n,
    ensures
        r == digits_end(src@, p as int),
        p <= r <= n,
{
    let mut i = p;
    while i < n && is_digit_exec(char_at_exec(src, n, i))
        invariant
            n == src@.len(),
            p <= i <= n,
            digits_end(src@, i as int) == digits_end(src@, p as int),
        decreases n - i,
    {
        i = i + 1;
    }
    i
}

fn name_end_exec(src: &str, n: usize, p: usize) -> (r: usize)
    requires
        n == src@.len(),
        p <= n,
    ensures
        r == name_end(src@, p as int),
        p <= r <= n,
{
    let mut i = p;
    while i < n && is_name_char_exec(char_at_exec(src, n, i))
        invariant
            n == src@.len(),
            p <= i <= n,
            name_end(src@, i as int) == name_end(src@, p as int),
        decreases n - i,
    {
        i = i + 1;
    }
    i
}

fn close_paren_exec(src: &str, n: usize, p: usize) -> (r: usize)
    requires
        n == src@.len(),
        p <= n,
    ensures
        r == close_paren(src@, p as int),
        p <= r <= n,
{
    let mut i = p;
    while i < n && char_at_exec(src, n, i) != ')'
        invariant
            n == src@.len(),
            p <= i <= n,
            close_paren(src@, i as int) == close_paren(src@, p as int),
        decreases n - i,
    {
        i = i + 1;
    }
    i
}

fn binary_op_exec(c: char) -> (r: Option<Operator>)
    ensures
        r == binary_op(c),
{
    if c == '+' {
        Some(Operator::Add)
    } else if c == '-' {
        Some(Operator::Sub)
    } else if c == '*' {
        Some(Operator::Mul)
    } else if c == '/' {
        Some(Operator::Div)
    } else {
        None
    }
}

enum Statement {
    Bind(Var),
    Bare(Expr),
}

spec fn statement_result(r: Result<(Statement, usize), usize>) -> Result<(StmtModel, int), int> {
    match r {
        Ok((Statement::Bind(v), q)) => Ok((StmtModel::Bind(v@), q as int)),
        Ok((Statement::Bare(e), q)) => Ok((StmtModel::Bare(e@), q as int)),
        Err(q) => Err(q as int),
    }
}

fn let_at_exec(src: &str, n: usize, p: usize) -> (r: bool)
    requires
        n == src@.len(),
        p <= n,
    ensures
        r == let_at(src@, p as int),
{
    n - p >= 3 && char_at_exec(src, n, p) == 'l' && char_at_exec(src, n, p + 1) == 'e'
        && char_at_exec(src, n, p + 2) == 't' && !is_name_char_exec(char_at_exec(src, n, p + 3))
}

fn fn_at_exec(src: &str, n: usize, p: usize) -> (r: bool)
    requires
        n == src@.len(),
        p <= n,
    ensures
        r == fn_at(src@, p as int),
{
    n - p >= 2 && char_at_exec(src, n, p) == 'f' && char_at_exec(src, n, p + 1) == 'n'
        && !is_name_char_exec(char_at_exec(src, n, p + 2))
}

fn main_at_exec(src: &str, n: usize, p: usize) -> (r: bool)
    requires
        n == src@.len(),
        p <= n,
    ensures
        r == main_at(src@, p as int),
{
    n - p >= 4 && char_at_exec(src, n, p) == 'm' && char_at_exec(src, n, p + 1) == 'a'
        && char_at_exec(src, n, p + 2) == 'i' && char_at_exec(src, n, p + 3) == 'n'
        && !is_name_char_exec(char_at_exec(src, n, p + 4))
}

spec fn vars_view(v: Seq<Var>) -> Seq<VarModel> {
    v.map_values(|x: Var| x@)
}

spec fn exprs_view(v: Seq<Expr>) -> Seq<Term> {
    v.map_values(|x: Expr| x@)
}

fn function_of(name: String, args: String, flat: bool, parts: (Vec<Var>, Vec<Expr>, usize)) -> (r: (Function, usize))
    ensures
        r.0@ == (FunctionModel {
            name: name@,
            args: args@,
            vars: vars_view(parts.0@),
            exprs: exprs_view(parts.1@),
            ret: 0,
            flat,
        }),
        r.1 == parts.2,
{
    let (vars, exprs, q) = parts;
    (Function { name, args, vars, exprs, ret: 0, flat }, q)
}

fn is_main_exec(f: &Function) -> (r: bool)
    ensures
        r == is_main(f@),
{
    proof {
        reveal_strlit("main");
    }
    let main_name = String::from_str("main");
    assert(main_name@ =~= seq!['m', 'a', 'i', 'n']);
    f.name == main_name
}

/// Parses source text into program units.
#[derive(Default)]
pub struct CodeParser;

impl CodeParser {
    /// Parses `source` into its units, `main` first, or says why it cannot.
    pub fn parse(&self, source: &str) -> (r: Result<Vec<Function>, Error>)
        ensures
            program_result(r) == parse_program(source@),
            r is Ok ==> r->Ok_0@.len() > 0 && is_main(r->Ok_0@[0]@),
    {
        let ghost s = source@;
        let n = source.unicode_len();
        let mut out: Vec<Function> = Vec::new();
        let ghost mut fs: Seq<FunctionModel> = seq![];
        let mut found_main = false;
        let mut pos: usize = 0;
        assert(functions_view(out@) =~= main_first(fs));
        loop
            invariant
                n == source@.len(),
                s == source@,
                pos <= n,
                units(s, pos as int, fs) == units(s, 0, seq![]),
                functions_view(out@) == main_first(fs),
                found_main == has_main(fs),
            ensures
                units(s, 0, seq![]) == Ok::<Seq<FunctionModel>, Error>(fs),
                functions_view(out@) == main_first(fs),
                found_main == has_main(fs),
            decreases n - pos,
        {
            let p1 = skip_space_exec(source, n, pos);
            if p1 >= n {
                break;
            }
            match self.parse_unit(source, n, p1) {
                Err(q) => {
                    if q == p1 {
                        if out.len() == 0 {
                            proof {
                                lemma_main_first(fs);
                            }
                            return Err(Error::CannotParse);
                        } else {
                            proof {
                                lemma_main_first(fs);
                            }
                            return Err(Error::TrailingInput);
                        }
                    } else {
                        return Err(Error::SyntaxError(q));
                    }
                },
                Ok((f, q)) => {
                    let ghost old_out = out@;
                    let ghost old_fs = fs;
                    let main = is_main_exec(&f);
                    proof {
                        fs = fs.push(f@);
                        assert(fs.drop_last() =~= old_fs);
                        if has_main(fs) && !has_main(old_fs) {
                            assert(is_main(f@));
                        }
                        if has_main(old_fs) {
                            let i = choose|i: int| 0 <= i < old_fs.len() && is_main(#[trigger] old_fs[i]);
                            assert(fs[i] == old_fs[i]);
                        }
                        if main {
                            assert(fs[fs.len() - 1] == f@);
                        }
                    }
                    if main {
                        out.insert(0, f);
                        found_main = true;
                        assert(functions_view(out@) =~= seq![fs.last()] + functions_view(old_out));
                    } else {
                        out.push(f);
                        assert(functions_view(out@) =~= functions_view(old_out).push(fs.last()));
                    }
                    pos = q;
                },
            }
        }
        proof {
            lemma_main_first(fs);
        }
        if found_main {
            Ok(out)
        } else {
            Err(Error::MissingMain)
        }
    }

    /// The expression that starts at position `p` of `src`, with the position
    /// just after it; or the position at which the text stops matching.
    pub fn build_ast_from_expr(&self, src: &str, p: usize) -> (r: Result<(Expr, usize), usize>)
        ensures
            term_result(r) == expr(src@, p as int),
    {
        let n = src.unicode_len();
        if p > n {
            return Err(p);
        }
        self.parse_expr(src, n, p)
    }

    /// The binding `name = expr ;` that starts at position `a` of `src`, with
    /// the position just after it; or the position at which it stops matching.
    pub fn build_var_from_expr(&self, src: &str, a: usize) -> (r: Result<(Var, usize), usize>)
        ensures
            match r {
                Ok((v, q)) => binding(src@, a as int) == Ok::<(VarModel, int), int>((v@, q as int)),
                Err(q) => binding(src@, a as int) == Err::<(VarModel, int), int>(q as int),
            },
    {
        let n = src.unicode_len();
        if a > n {
            proof {
                assert(name_end(src@, a as int) == a);
                assert(skip_space(src@, a as int) == a);
            }
            return Err(a);
        }
        self.parse_binding(src, n, a)
    }

    /// The program unit that starts at position `p` of `src`, with the
    /// position just after it; or the position at which it stops matching.
    pub fn build_ast(&self, src: &str, p: usize) -> (r: Result<(Function, usize), usize>)
        ensures
            match r {
                Ok((f, q)) => unit(src@, p as int) == Ok::<(FunctionModel, int), int>((f@, q as int)),
                Err(q) => unit(src@, p as int) == Err::<(FunctionModel, int), int>(q as int),
            },
    {
        let n = src.unicode_len();
        if p > n {
            return Err(p);
        }
        self.parse_unit(src, n, p)
    }

    /// The integer literal at `p`.
    fn parse_term(&self, src: &str, n: usize, p: usize) -> (r: Result<(Expr, usize), usize>)
        requires
            n == src@.len(),
            p <= n,
            is_digit(char_at(src@, p as int)) || (char_at(src@, p as int) == '-' && is_digit(
                char_at(src@, p + 1),
            )),
        ensures
            term_result(r) == literal(src@, p as int),
            advances(r, p, n),
    {
        let ghost s = src@;
        let neg = char_at_exec(src, n, p) == '-';
        let a: usize = if neg { p + 1 } else { p };
        let b = digits_end_exec(src, n, a);
        proof {
            lemma_digits_end(s, a as int);
            lemma_digits_end(s, a + 1);
        }
        let mut v: u64 = 0;
        let mut big = false;
        let mut i: usize = a;
        while i < b
            invariant
                n == src@.len(),
                s == src@,
                a <= i <= b <= n,
                b == digits_end(s, a as int),
                forall|j: int| a <= j < b ==> 0 <= j < s.len() && is_digit(s[j]),
                big ==> digits_value(s, a as int, i as int) > 0x8000_0000,
                !big ==> v == digits_value(s, a as int, i as int),
                v <= 0x8000_0000,
            decreases b - i,
        {
            let d = (char_at_exec(src, n, i) as u32 - 48) as u64;
            assert(digits_value(s, a as int, i + 1) == digits_value(s, a as int, i as int) * 10
                + digit_val(char_at(s, i as int)));
            if big {
                assert(digits_value(s, a as int, i + 1) > 0x8000_0000) by (nonlinear_arith)
                    requires
                        digits_value(s, a as int, i + 1) >= digits_value(s, a as int, i as int) * 10,
                        digits_value(s, a as int, i as int) > 0x8000_0000,
                ;
            } else {
                let w = v * 10 + d;
                if w > 0x8000_0000 {
                    big = true;
                } else {
                    v = w;
                }
            }
            i = i + 1;
        }
        assert(b > a);
        if big {
            Err(p)
        } else if neg {
            Ok((Expr::Literal((-(v as i64)) as i32), b))
        } else if v > 0x7fff_ffff {
            Err(p)
        } else {
            Ok((Expr::Literal(v as i32), b))
        }
    }

    /// The name or call at `p`.
    fn parse_name(&self, src: &str, n: usize, p: usize) -> (r: Result<(Expr, usize), usize>)
        requires
            n == src@.len(),
            p <= n,
            is_name_start(char_at(src@, p as int)),
        ensures
            term_result(r) == name_operand(src@, p as int),
            advances(r, p, n),
    {
        let b = name_end_exec(src, n, p);
        proof {
            lemma_name_end(src@, p + 1);
        }
        let name = String::from_str(src.substring_char(p, b));
        let q = skip_space_exec(src, n, b);
        if char_at_exec(src, n, q) == '(' {
            let r = skip_space_exec(src, n, q + 1);
            if char_at_exec(src, n, r) == ')' {
                Ok((Expr::Reference(name), r + 1))
            } else {
                Err(r)
            }
        } else {
            Ok((Expr::Reference(name), b))
        }
    }

    /// The operand rule at `p`.
    fn parse_operand(&self, src: &str, n: usize, p: usize) -> (r: Result<(Expr, usize), usize>)
        requires
            n == src@.len(),
            p <= n,
        ensures
            term_result(r) == operand(src@, p as int),
            advances(r, p, n),
        decreases n - p, 0int,
    {
        let c = char_at_exec(src, n, p);
        if is_digit_exec(c) || (c == '-' && is_digit_exec(char_at_exec(src, n, p + 1))) {
            self.parse_term(src, n, p)
        } else if c == '+' || c == '-' {
            let q = skip_space_exec(src, n, p + 1);
            match self.parse_operand(src, n, q) {
                Err(e) => Err(e),
                Ok((t, q2)) => {
                    let op = if c == '+' { Operator::Add } else { Operator::Sub };
                    Ok((Expr::Unary { child: Box::new(t), op }, q2))
                },
            }
        } else if c == '(' {
            let q = skip_space_exec(src, n, p + 1);
            match self.parse_expr(src, n, q) {
                Err(e) => Err(e),
                Ok((t, q2)) => {
                    let r = skip_space_exec(src, n, q2);
                    if char_at_exec(src, n, r) == ')' {
                        Ok((t, r + 1))
                    } else {
                        Err(r)
                    }
                },
            }
        } else if is_name_start_exec(c) {
            self.parse_name(src, n, p)
        } else {
            Err(p)
        }
    }

    /// The postfix rule at `p`.
    fn parse_postfix(&self, src: &str, n: usize, p: usize) -> (r: Result<(Expr, usize), usize>)
        requires
            n == src@.len(),
            p <= n,
        ensures
            term_result(r) == postfix(src@, p as int),
            advances(r, p, n),
        decreases n - p, 1int,
    {
        match self.parse_operand(src, n, p) {
            Err(e) => Err(e),
            Ok((t, q)) => {
                let r = skip_space_exec(src, n, q);
                let c1 = char_at_exec(src, n, r);
                let c2 = if r < n { char_at_exec(src, n, r + 1) } else { '\0' };
                let one = Expr::Literal(1);
                assert(one@ == Term::Literal(1));
                if c1 == '+' && c2 == '+' {
                    Ok((Expr::Binary { lhs: Box::new(t), op: Operator::Incr, rhs: Box::new(one) }, r + 2))
                } else if c1 == '-' && c2 == '-' {
                    Ok((Expr::Binary { lhs: Box::new(t), op: Operator::Decr, rhs: Box::new(one) }, r + 2))
                } else {
                    Ok((t, q))
                }
            },
        }
    }

    /// The expression rule at `p`.
    fn parse_expr(&self, src: &str, n: usize, p: usize) -> (r: Result<(Expr, usize), usize>)
        requires
            n == src@.len(),
            p <= n,
        ensures
            term_result(r) == expr(src@, p as int),
            advances(r, p, n),
        decreases n - p, 3int,
    {
        let ghost s = src@;
        match self.parse_postfix(src, n, p) {
            Err(e) => Err(e),
            Ok((t, q0)) => {
                let ghost goal = chain(s, t@, q0 as int);
                assert(goal == expr(s, p as int));
                let mut acc = t;
                let mut q = q0;
                loop
                    invariant
                        n == src@.len(),
                        s == src@,
                        p < q <= n,
                        chain(s, acc@, q as int) == goal,
                        goal == expr(s, p as int),
                    decreases n - q,
                {
                    let r = skip_space_exec(src, n, q);
                    match binary_op_exec(char_at_exec(src, n, r)) {
                        None => {
                            return Ok((acc, q));
                        },
                        Some(op) => {
                            let r1 = skip_space_exec(src, n, r + 1);
                            match self.parse_postfix(src, n, r1) {
                                Err(e) => {
                                    return Err(e);
                                },
                                Ok((rhs, q2)) => {
                                    acc = Expr::Binary { lhs: Box::new(acc), op, rhs: Box::new(rhs) };
                                    q = q2;
                                },
                            }
                        },
                    }
                }
            },
        }
    }

    /// The binding `name = expr ;` whose name starts at `a`.
    fn parse_binding(&self, src: &str, n: usize, a: usize) -> (r: Result<(Var, usize), usize>)
        requires
            n == src@.len(),
            a <= n,
        ensures
            match r {
                Ok((v, q)) => binding(src@, a as int) == Ok::<(VarModel, int), int>((v@, q as int)),
                Err(q) => binding(src@, a as int) == Err::<(VarModel, int), int>(q as int),
            },
            advances(r, a, n),
    {
        let b = name_end_exec(src, n, a);
        let q = skip_space_exec(src, n, b);
        if char_at_exec(src, n, q) != '=' {
            return Err(q);
        }
        let q1 = skip_space_exec(src, n, q + 1);
        match self.parse_expr(src, n, q1) {
            Err(e) => Err(e),
            Ok((t, r)) => {
                let r1 = skip_space_exec(src, n, r);
                if char_at_exec(src, n, r1) == ';' {
                    let name = String::from_str(src.substring_char(a, b));
                    Ok((Var { name, expr: t }, r1 + 1))
                } else {
                    Err(r1)
                }
            },
        }
    }

    /// The statement rule at `p`.
    fn parse_statement(&self, src: &str, n: usize, p: usize) -> (r: Result<(Statement, usize), usize>)
        requires
            n == src@.len(),
            p <= n,
        ensures
            statement_result(r) == stmt(src@, p as int),
            advances(r, p, n),
    {
        if let_at_exec(src, n, p) {
            let a = skip_space_exec(src, n, p + 3);
            if is_name_start_exec(char_at_exec(src, n, a)) {
                match self.parse_binding(src, n, a) {
                    Err(e) => Err(e),
                    Ok((v, q)) => Ok((Statement::Bind(v), q)),
                }
            } else {
                Err(a)
            }
        } else if is_name_start_exec(char_at_exec(src, n, p)) && char_at_exec(
            src,
            n,
            skip_space_exec(src, n, name_end_exec(src, n, p)),
        ) == '=' {
            match self.parse_binding(src, n, p) {
                Err(e) => Err(e),
                Ok((v, q)) => Ok((Statement::Bind(v), q)),
            }
        } else {
            match self.parse_expr(src, n, p) {
                Err(e) => Err(e),
                Ok((t, r)) => {
                    let r1 = skip_space_exec(src, n, r);
                    if char_at_exec(src, n, r1) == ';' {
                        Ok((Statement::Bare(t), r1 + 1))
                    } else {
                        Err(r1)
                    }
                },
            }
        }
    }

    /// The statements of a body from `p` through its closing brace.
    fn parse_body(&self, src: &str, n: usize, p: usize) -> (r: Result<(Vec<Var>, Vec<Expr>, usize), usize>)
        requires
            n == src@.len(),
            p <= n,
        ensures
            match r {
                Ok((vs, es, q)) => body(src@, p as int, seq![], seq![]) == Ok::<
                    (Seq<VarModel>, Seq<Term>, int),
                    int,
                >((vars_view(vs@), exprs_view(es@), q as int)) && p < q <= n,
                Err(q) => body(src@, p as int, seq![], seq![]) == Err::<
                    (Seq<VarModel>, Seq<Term>, int),
                    int,
                >(q as int) && q <= n,
            },
    {
        let ghost s = src@;
        let mut vars: Vec<Var> = Vec::new();
        let mut exprs: Vec<Expr> = Vec::new();
        let mut pos = p;
        assert(vars_view(vars@) =~= seq![]);
        assert(exprs_view(exprs@) =~= seq![]);
        loop
            invariant
                n == src@.len(),
                s == src@,
                p <= pos <= n,
                body(s, pos as int, vars_view(vars@), exprs_view(exprs@)) == body(
                    s,
                    p as int,
                    seq![],
                    seq![],
                ),
            decreases n - pos,
        {
            let p1 = skip_space_exec(src, n, pos);
            if char_at_exec(src, n, p1) == '}' {
                return Ok((vars, exprs, p1 + 1));
            }
            match self.parse_statement(src, n, p1) {
                Err(e) => {
                    return Err(e);
                },
                Ok((Statement::Bind(v), q)) => {
                    let ghost old_vars = vars@;
                    vars.push(v);
                    assert(vars_view(vars@) =~= vars_view(old_vars).push(v@));
                    pos = q;
                },
                Ok((Statement::Bare(t), q)) => {
                    let ghost old_exprs = exprs@;
                    exprs.push(t);
                    assert(exprs_view(exprs@) =~= exprs_view(old_exprs).push(t@));
                    pos = q;
                },
            }
        }
    }

    /// The unit rule at `p`.
    fn parse_unit(&self, src: &str, n: usize, p: usize) -> (r: Result<(Function, usize), usize>)
        requires
            n == src@.len(),
            p <= n,
        ensures
            match r {
                Ok((f, q)) => unit(src@, p as int) == Ok::<(FunctionModel, int), int>((f@, q as int)),
                Err(q) => unit(src@, p as int) == Err::<(FunctionModel, int), int>(q as int),
            },
            advances(r, p, n),
    {
        if fn_at_exec(src, n, p) {
            let a = skip_space_exec(src, n, p + 2);
            let b = name_end_exec(src, n, a);
            let c = skip_space_exec(src, n, b);
            if !is_name_start_exec(char_at_exec(src, n, a)) {
                return Err(a);
            }
            if char_at_exec(src, n, c) != '(' {
                return Err(c);
            }
            let d = close_paren_exec(src, n, c + 1);
            if char_at_exec(src, n, d) != ')' {
                return Err(d);
            }
            let e = skip_space_exec(src, n, d + 1);
            if char_at_exec(src, n, e) != '{' {
                return Err(e);
            }
            match self.parse_body(src, n, e + 1) {
                Err(x) => Err(x),
                Ok(parts) => {
                    let name = String::from_str(src.substring_char(a, b));
                    let args = String::from_str(src.substring_char(c + 1, d));
                    Ok(function_of(name, args, false, parts))
                },
            }
        } else if main_at_exec(src, n, p) && char_at_exec(src, n, skip_space_exec(src, n, p + 4))
            == '{' {
            let e = skip_space_exec(src, n, p + 4);
            match self.parse_body(src, n, e + 1) {
                Err(x) => Err(x),
                Ok(parts) => {
                    let name = String::from_str(src.substring_char(p, p + 4));
                    let args = String::new();
                    Ok(function_of(name, args, true, parts))
                },
            }
        } else {
            Err(p)
        }
    }
}

} // verus!
