use vstd::prelude::*;
use vstd::string::*;
use crate::ast::{Function, FunctionModel, Term, VarModel};
use crate::error::Error;
use crate::ast::Operator;
use crate::eval::{eval_expr, lemma_division_by_zero, Eval};
use crate::memory::Memory;
use crate::parser::{functions_view, parse_program, CodeParser};

verus! {

/// Where a run stands: the bindings made so far, how many were made, and
/// the wrapping sum of the values of the flat units' bindings so far.
pub struct RunState {
    pub env: Map<Seq<char>, Term>,
    pub size: nat,
    pub total: i32,
}

pub open spec fn start() -> RunState {
    RunState { env: Map::empty(), size: 0, total: 0 }
}

/// Runs bindings in declaration order: each expression is evaluated in the
/// bindings made before it, its value is added to the total when the unit
/// is flat, and then its name is bound to the (unevaluated) expression.
pub open spec fn run_vars(st: RunState, vars: Seq<VarModel>, flat: bool) -> Result<RunState, Error>
    decreases vars.len(),
{
    if vars.len() == 0 {
        Ok(st)
    } else {
        match eval_expr(st.env, vars[0].expr, st.size) {
            Err(e) => Err(e),
            Ok(v) => run_vars(
                RunState {
                    env: st.env.insert(vars[0].name, vars[0].expr),
                    size: st.size + 1,
                    total: if flat { st.total.wrapping_add(v) } else { st.total },
                },
                vars.drop_first(),
                flat,
            ),
        }
    }
}

/// Runs expression statements in declaration order; their values are
/// computed and dropped.
pub open spec fn run_exprs(st: RunState, exprs: Seq<Term>) -> Result<RunState, Error>
    decreases exprs.len(),
{
    if exprs.len() == 0 {
        Ok(st)
    } else {
        match eval_expr(st.env, exprs[0], st.size) {
            Err(e) => Err(e),
            Ok(_) => run_exprs(st, exprs.drop_first()),
        }
    }
}

/// Runs a unit: all of its bindings, then all of its expression statements.
pub open spec fn run_function(st: RunState, f: FunctionModel) -> Result<RunState, Error> {
    match run_vars(st, f.vars, f.flat) {
        Err(e) => Err(e),
        Ok(st2) => run_exprs(st2, f.exprs),
    }
}

/// Runs units in the order given, sharing one environment.
pub open spec fn run_functions(st: RunState, fs: Seq<FunctionModel>) -> Result<RunState, Error>
    decreases fs.len(),
{
    if fs.len() == 0 {
        Ok(st)
    } else {
        match run_function(st, fs[0]) {
            Err(e) => Err(e),
            Ok(st2) => run_functions(st2, fs.drop_first()),
        }
    }
}

/// The result of a program, once every statement has run: the wrapping sum
/// of the binding values of its flat units, so 0 for a program of `fn`
/// units; or the first failure.
pub open spec fn run_program(fs: Seq<FunctionModel>) -> Result<i32, Error> {
    match run_functions(start(), fs) {
        Err(e) => Err(e),
        Ok(st) => Ok(st.total),
    }
}

/// Bindings run strictly in declaration order: running `a` followed by `b`
/// is running `a`, then running `b` in the state that `a` left.
pub proof fn lemma_vars_in_order(st: RunState, a: Seq<VarModel>, b: Seq<VarModel>, flat: bool)
    ensures
        run_vars(st, a + b, flat) == match run_vars(st, a, flat) {
            Err(e) => Err(e),
            Ok(st2) => run_vars(st2, b, flat),
        },
    decreases a.len(),
{
    if a.len() == 0 {
        assert(a + b =~= b);
    } else {
        assert((a + b)[0] == a[0]);
        assert((a + b).drop_first() =~= a.drop_first() + b);
        match eval_expr(st.env, a[0].expr, st.size) {
            Err(_) => {},
            Ok(v) => {
                lemma_vars_in_order(
                    RunState {
                        env: st.env.insert(a[0].name, a[0].expr),
                        size: st.size + 1,
                        total: if flat { st.total.wrapping_add(v) } else { st.total },
                    },
                    a.drop_first(),
                    b,
                    flat,
                );
            },
        }
    }
}

/// Expression statements run strictly in declaration order.
pub proof fn lemma_exprs_in_order(st: RunState, a: Seq<Term>, b: Seq<Term>)
    ensures
        run_exprs(st, a + b) == match run_exprs(st, a) {
            Err(e) => Err(e),
            Ok(st2) => run_exprs(st2, b),
        },
    decreases a.len(),
{
    if a.len() == 0 {
        assert(a + b =~= b);
    } else {
        assert((a + b)[0] == a[0]);
        assert((a + b).drop_first() =~= a.drop_first() + b);
        match eval_expr(st.env, a[0], st.size) {
            Err(_) => {},
            Ok(_) => {
                lemma_exprs_in_order(st, a.drop_first(), b);
            },
        }
    }
}

/// Units run strictly in the order of the sequence, each from the state the
/// previous ones left.
pub proof fn lemma_units_in_order(st: RunState, a: Seq<FunctionModel>, b: Seq<FunctionModel>)
    ensures
        run_functions(st, a + b) == match run_functions(st, a) {
            Err(e) => Err(e),
            Ok(st2) => run_functions(st2, b),
        },
    decreases a.len(),
{
    if a.len() == 0 {
        assert(a + b =~= b);
    } else {
        assert((a + b)[0] == a[0]);
        assert((a + b).drop_first() =~= a.drop_first() + b);
        match run_function(st, a[0]) {
            Err(_) => {},
            Ok(st2) => {
                lemma_units_in_order(st2, a.drop_first(), b);
            },
        }
    }
}

/// A binding sees only the bindings made before it: one that refers to a
/// name not yet bound fails with `UndefinedVariable`, whatever later
/// bindings would bind that name.
pub proof fn lemma_no_forward_reference(
    st: RunState,
    fs: Seq<FunctionModel>,
    x: Seq<char>,
)
    requires
        fs.len() > 0,
        fs[0].vars.len() > 0,
        fs[0].vars[0].expr == Term::Reference(x),
        !st.env.contains_key(x),
    ensures
        run_functions(st, fs) == Err::<RunState, Error>(Error::UndefinedVariable),
{
}

/// A program whose first statement to run divides by an expression worth
/// zero fails with `DivisionByZero`, whatever the left operand is worth and
/// in either form of unit.
pub proof fn lemma_program_division_by_zero(fs: Seq<FunctionModel>, lhs: Term, rhs: Term)
    requires
        fs.len() > 0,
        fs[0].vars.len() > 0,
        fs[0].vars[0].expr == (Term::Binary { lhs: Box::new(lhs), op: Operator::Div, rhs: Box::new(rhs) }),
        eval_expr(Map::empty(), lhs, 0) is Ok,
        eval_expr(Map::empty(), rhs, 0) == Ok::<i32, Error>(0),
    ensures
        run_program(fs) == Err::<i32, Error>(Error::DivisionByZero),
{
    lemma_division_by_zero(Map::empty(), lhs, rhs, 0);
}

/// What compiling an already parsed program gives.
pub open spec fn ast_result(ast: Result<Vec<Function>, Error>) -> Result<i32, Error> {
    match ast {
        Err(e) => Err(e),
        Ok(fs) => run_program(functions_view(fs@)),
    }
}

/// The text with every carriage return and line feed taken out.
pub open spec fn strip_line_breaks(s: Seq<char>) -> Seq<char>
    decreases s.len(),
{
    if s.len() == 0 {
        seq![]
    } else {
        let r = strip_line_breaks(s.drop_last());
        if s.last() == '\r' || s.last() == '\n' { r } else { r.push(s.last()) }
    }
}

/// What compiling source text gives: line breaks are taken out, then the
/// rest is parsed and run.
pub open spec fn source_result(s: Seq<char>) -> Result<i32, Error> {
    match parse_program(strip_line_breaks(s)) {
        Err(e) => Err(e),
        Ok(fs) => run_program(fs),
    }
}

/// Turns a program into its result.
pub trait Compile {
    /// Runs a parsed program, or passes its parse error on.
    fn from_ast(ast: Result<Vec<Function>, Error>) -> (r: Result<i32, Error>)
        ensures
            r == ast_result(ast),
    ;

    /// Parses and runs source text.
    fn from_source(source: &str) -> (r: Result<i32, Error>)
        ensures
            r == source_result(source@),
    ;
}

fn remove_line_breaks(source: &str) -> (r: String)
    ensures
        r@ == strip_line_breaks(source@),
{
    let n = source.unicode_len();
    let mut out = String::new();
    let mut i: usize = 0;
    assert(source@.subrange(0, 0) =~= seq![]);
    while i < n
        invariant
            n == source@.len(),
            i <= n,
            out@ == strip_line_breaks(source@.subrange(0, i as int)),
        decreases n - i,
    {
        let c = source.get_char(i);
        assert(source@.subrange(0, i + 1).drop_last() =~= source@.subrange(0, i as int));
        if c != '\r' && c != '\n' {
            let ghost before = out@;
            out.append(source.substring_char(i, i + 1));
            assert(out@ =~= before.push(c));
        }
        i = i + 1;
    }
    assert(source@.subrange(0, n as int) =~= source@);
    out
}

/// The tree-walking interpreter.
pub struct Interpreter;

/// Runs one unit on the evaluator's memory, adding each statement's value
/// to `total`.
fn run_unit(ev: &mut Eval, total: &mut i32, f: &Function) -> (r: Result<(), Error>)
    ensures
        match run_function(
            RunState { env: old(ev).memory@, size: old(ev).memory.size(), total: *old(total) },
            f@,
        ) {
            Ok(st) => r is Ok && final(ev).memory@ == st.env && final(ev).memory.size() == st.size
                && *final(total) == st.total,
            Err(e) => r == Err::<(), Error>(e),
        },
{
    let ghost st0 = RunState { env: ev.memory@, size: ev.memory.size(), total: *total };
    let ghost vm = f@.vars;
    let ghost em = f@.exprs;
    let ghost goal = run_vars(st0, vm, f.flat);
    let mut i: usize = 0;
    assert(vm.subrange(0, vm.len() as int) =~= vm);
    while i < f.vars.len()
        invariant
            st0 == (RunState { env: old(ev).memory@, size: old(ev).memory.size(), total: *old(total) }),
            goal == run_vars(st0, vm, f.flat),
            vm == f@.vars,
            vm.len() == f.vars@.len(),
            i <= vm.len(),
            run_vars(
                RunState { env: ev.memory@, size: ev.memory.size(), total: *total },
                vm.subrange(i as int, vm.len() as int),
                f.flat,
            ) == goal,
        decreases f.vars@.len() - i,
    {
        let v = &f.vars[i];
        assert(vm[i as int] == v@);
        let ghost rest = vm.subrange(i as int, vm.len() as int);
        assert(rest.drop_first() =~= vm.subrange(i + 1, vm.len() as int));
        assert(rest[0] == v@);
        let ghost cur = RunState { env: ev.memory@, size: ev.memory.size(), total: *total };
        match ev.eval(&v.expr) {
            Err(e) => {
                assert(run_vars(cur, rest, f.flat) == Err::<RunState, Error>(e));
                assert(goal == Err::<RunState, Error>(e));
                return Err(e);
            },
            Ok(x) => {
                if f.flat {
                    *total = total.wrapping_add(x);
                }
                ev.memory.add(v);
            },
        }
        i = i + 1;
    }
    assert(vm.subrange(i as int, vm.len() as int) =~= seq![]);
    let ghost mid = RunState { env: ev.memory@, size: ev.memory.size(), total: *total };
    assert(goal == Ok::<RunState, Error>(mid));
    let ghost goal2 = run_exprs(mid, em);
    let mut j: usize = 0;
    assert(em.subrange(0, em.len() as int) =~= em);
    while j < f.exprs.len()
        invariant
            st0 == (RunState { env: old(ev).memory@, size: old(ev).memory.size(), total: *old(total) }),
            goal == run_vars(st0, vm, f.flat),
            goal == Ok::<RunState, Error>(mid),
            goal2 == run_exprs(mid, em),
            vm == f@.vars,
            em == f@.exprs,
            em.len() == f.exprs@.len(),
            j <= em.len(),
            ev.memory@ == mid.env,
            ev.memory.size() == mid.size,
            run_exprs(
                RunState { env: ev.memory@, size: ev.memory.size(), total: *total },
                em.subrange(j as int, em.len() as int),
            ) == goal2,
        decreases f.exprs@.len() - j,
    {
        let e = &f.exprs[j];
        assert(em[j as int] == e@);
        let ghost rest = em.subrange(j as int, em.len() as int);
        assert(rest.drop_first() =~= em.subrange(j + 1, em.len() as int));
        assert(rest[0] == e@);
        let ghost cur = RunState { env: ev.memory@, size: ev.memory.size(), total: *total };
        match ev.eval(e) {
            Err(err) => {
                assert(run_exprs(cur, rest) == Err::<RunState, Error>(err));
                assert(goal2 == Err::<RunState, Error>(err));
                assert(run_function(st0, f@) == goal2);
                return Err(err);
            },
            Ok(_) => {},
        }
        j = j + 1;
    }
    assert(em.subrange(j as int, em.len() as int) =~= seq![]);
    Ok(())
}

impl Compile for Interpreter {
    fn from_ast(ast: Result<Vec<Function>, Error>) -> (r: Result<i32, Error>) {
        match ast {
            Err(e) => Err(e),
            Ok(fs) => {
                let ghost fm = functions_view(fs@);
                let mut ev = Eval::new(Memory::new());
                let mut total: i32 = 0;
                let mut k: usize = 0;
                assert(fm.subrange(0, fm.len() as int) =~= fm);
                while k < fs.len()
                    invariant
                        ast_result(ast) == run_program(fm),
                        fm == functions_view(fs@),
                        fm.len() == fs@.len(),
                        k <= fm.len(),
                        run_functions(
                            RunState { env: ev.memory@, size: ev.memory.size(), total },
                            fm.subrange(k as int, fm.len() as int),
                        ) == run_functions(start(), fm),
                    decreases fs@.len() - k,
                {
                    let ghost rest = fm.subrange(k as int, fm.len() as int);
                    assert(rest.drop_first() =~= fm.subrange(k + 1, fm.len() as int));
                    assert(rest[0] == fs@[k as int]@);
                    let ghost cur = RunState { env: ev.memory@, size: ev.memory.size(), total };
                    match run_unit(&mut ev, &mut total, &fs[k]) {
                        Err(e) => {
                            assert(run_function(cur, rest[0]) == Err::<RunState, Error>(e));
                            assert(run_functions(cur, rest) == Err::<RunState, Error>(e));
                            return Err(e);
                        },
                        Ok(()) => {},
                    }
                    k = k + 1;
                }
                assert(fm.subrange(k as int, fm.len() as int) =~= seq![]);
                Ok(total)
            },
        }
    }

    fn from_source(source: &str) -> (r: Result<i32, Error>) {
        let text = remove_line_breaks(source);
        let parser = CodeParser;
        let ast = parser.parse(text.as_str());
        Self::from_ast(ast)
    }
}

} // verus!
