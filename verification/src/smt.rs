//! Trusted bindings to the Z3 SMT solver. Z3 terms are opaque here: the
//! library builds constraints through these wrappers, asks Z3 for a model,
//! and then validates everything it reads back with the verified checker,
//! so no correctness claim rests on what Z3 answers.

use vstd::prelude::*;

verus! {

#[verifier::external_type_specification]
#[verifier::external_body]
pub struct ExBool(z3::ast::Bool);

#[verifier::external_type_specification]
#[verifier::external_body]
pub struct ExInt(z3::ast::Int);

#[verifier::external_type_specification]
#[verifier::external_body]
pub struct ExArray(z3::ast::Array);

#[verifier::external_type_specification]
#[verifier::external_body]
pub struct ExSort(z3::Sort);

#[verifier::external_type_specification]
#[verifier::external_body]
pub struct ExSolver(z3::Solver);

#[verifier::external_type_specification]
#[verifier::external_body]
pub struct ExModel(z3::Model);

/// The answer of a satisfiability check.
#[derive(Debug, Clone, Copy, PartialEq, Eq, Structural)]
pub enum SatOutcome {
    Sat,
    Unsat,
    Unknown,
}

/// Whether a variable name is free of the NUL character. The
/// fresh-constant constructors pass the name to Z3 as a C string and
/// panic on a name holding NUL, so their wrappers require this.
pub open spec fn nul_free(s: Seq<char>) -> bool {
    forall|i: int| 0 <= i < s.len() ==> s[i] != '\0'
}

/// Relies on z3::ast::Bool::fresh_const: a fresh boolean constant. The
/// name becomes a C string, so it must hold no NUL character.
#[verifier::external_body]
pub(crate) fn fresh_bool(prefix: &str) -> z3::ast::Bool
    requires
        nul_free(prefix@),
{
    z3::ast::Bool::fresh_const(prefix)
}

/// Relies on z3::ast::Int::fresh_const: a fresh integer constant. The
/// name becomes a C string, so it must hold no NUL character.
#[verifier::external_body]
pub(crate) fn fresh_int(prefix: &str) -> z3::ast::Int
    requires
        nul_free(prefix@),
{
    z3::ast::Int::fresh_const(prefix)
}

/// Relies on z3::Sort::int: the integer sort.
#[verifier::external_body]
pub(crate) fn int_sort() -> z3::Sort {
    z3::Sort::int()
}

/// Relies on z3::ast::Array::fresh_const: a fresh array constant from
/// `domain` to `range`. The name becomes a C string, so it must hold no
/// NUL character.
#[verifier::external_body]
pub(crate) fn fresh_array(prefix: &str, domain: &z3::Sort, range: &z3::Sort) -> z3::ast::Array
    requires
        nul_free(prefix@),
{
    z3::ast::Array::fresh_const(prefix, domain, range)
}

/// Relies on z3::ast::Int::from_i64: an integer literal term.
#[verifier::external_body]
pub(crate) fn int_lit(v: i64) -> z3::ast::Int {
    z3::ast::Int::from_i64(v)
}

/// Relies on z3::ast::Bool::from_bool: a boolean literal term.
#[verifier::external_body]
pub(crate) fn bool_lit(v: bool) -> z3::ast::Bool {
    z3::ast::Bool::from_bool(v)
}

/// Relies on the Clone impl of z3::ast::Bool: another handle to the same term.
#[verifier::external_body]
pub(crate) fn bool_clone(a: &z3::ast::Bool) -> z3::ast::Bool {
    a.clone()
}

/// Relies on the Clone impl of z3::ast::Int: another handle to the same term.
#[verifier::external_body]
pub(crate) fn int_clone(a: &z3::ast::Int) -> z3::ast::Int {
    a.clone()
}

/// Relies on z3::ast::Bool::and: the conjunction of the two terms.
#[verifier::external_body]
pub(crate) fn bool_and(a: &z3::ast::Bool, b: &z3::ast::Bool) -> z3::ast::Bool {
    z3::ast::Bool::and(&[a, b])
}

/// Relies on z3::ast::Bool::or: the disjunction of the two terms.
#[verifier::external_body]
pub(crate) fn bool_or(a: &z3::ast::Bool, b: &z3::ast::Bool) -> z3::ast::Bool {
    z3::ast::Bool::or(&[a, b])
}

/// Relies on z3::ast::Bool::not: the negation of the term.
#[verifier::external_body]
pub(crate) fn bool_not(a: &z3::ast::Bool) -> z3::ast::Bool {
    a.not()
}

/// Relies on z3::ast::Bool::implies: the implication of the two terms.
#[verifier::external_body]
pub(crate) fn bool_implies(a: &z3::ast::Bool, b: &z3::ast::Bool) -> z3::ast::Bool {
    a.implies(b)
}

/// Relies on z3::ast::Bool::xor: the exclusive or of the two terms.
#[verifier::external_body]
pub(crate) fn bool_xor(a: &z3::ast::Bool, b: &z3::ast::Bool) -> z3::ast::Bool {
    a.xor(b)
}

/// Relies on z3::ast::Bool::ite: if `c` then `t` else `e`, over integers.
#[verifier::external_body]
pub(crate) fn ite_int(c: &z3::ast::Bool, t: &z3::ast::Int, e: &z3::ast::Int) -> z3::ast::Int {
    c.ite(t, e)
}

/// Relies on the equality term constructor of z3::ast::Int.
#[verifier::external_body]
pub(crate) fn int_eq(a: &z3::ast::Int, b: &z3::ast::Int) -> z3::ast::Bool {
    a.eq(b)
}

/// Relies on z3::ast::Int::le: the term `a <= b`.
#[verifier::external_body]
pub(crate) fn int_le(a: &z3::ast::Int, b: &z3::ast::Int) -> z3::ast::Bool {
    a.le(b)
}

/// Relies on z3::ast::Int::lt: the term `a < b`.
#[verifier::external_body]
pub(crate) fn int_lt(a: &z3::ast::Int, b: &z3::ast::Int) -> z3::ast::Bool {
    a.lt(b)
}

/// Relies on z3::ast::Int::ge: the term `a >= b`.
#[verifier::external_body]
pub(crate) fn int_ge(a: &z3::ast::Int, b: &z3::ast::Int) -> z3::ast::Bool {
    a.ge(b)
}

/// Relies on z3::ast::Int::add: the term `a + b`.
#[verifier::external_body]
pub(crate) fn int_add(a: &z3::ast::Int, b: &z3::ast::Int) -> z3::ast::Int {
    z3::ast::Int::add(&[a, b])
}

/// Relies on z3::ast::Int::sub: the term `a - b`.
#[verifier::external_body]
pub(crate) fn int_sub(a: &z3::ast::Int, b: &z3::ast::Int) -> z3::ast::Int {
    z3::ast::Int::sub(&[a, b])
}

/// Relies on z3::ast::Int::div: the integer division term `a div b`.
#[verifier::external_body]
pub(crate) fn int_div(a: &z3::ast::Int, b: &z3::ast::Int) -> z3::ast::Int {
    a.div(b)
}

/// Relies on z3::ast::Bool::pb_eq: the pseudo-boolean constraint that the
/// weighted count of true terms equals `k`.
#[verifier::external_body]
pub(crate) fn pb_eq(terms: &Vec<(z3::ast::Bool, i32)>, k: i32) -> z3::ast::Bool {
    let pairs: Vec<(&z3::ast::Bool, i32)> = terms.iter().map(|t| (&t.0, t.1)).collect();
    z3::ast::Bool::pb_eq(&pairs, k)
}

/// Relies on z3::ast::Bool::pb_ge: the pseudo-boolean constraint that the
/// weighted count of true terms is at least `k`.
#[verifier::external_body]
pub(crate) fn pb_ge(terms: &Vec<(z3::ast::Bool, i32)>, k: i32) -> z3::ast::Bool {
    let pairs: Vec<(&z3::ast::Bool, i32)> = terms.iter().map(|t| (&t.0, t.1)).collect();
    z3::ast::Bool::pb_ge(&pairs, k)
}

/// Relies on z3::ast::forall_const: `body` universally quantified over the
/// integer constant `x`.
#[verifier::external_body]
pub(crate) fn forall_int(x: &z3::ast::Int, body: &z3::ast::Bool) -> z3::ast::Bool {
    z3::ast::forall_const(&[x as &dyn z3::ast::Ast], &[], body)
}

/// Relies on z3::ast::Array::select and z3::ast::Dynamic::as_int: the
/// selected element, when it is an integer term.
#[verifier::external_body]
pub(crate) fn array_select_int(a: &z3::ast::Array, i: &z3::ast::Int) -> Option<z3::ast::Int> {
    a.select(i).as_int()
}

/// Relies on z3::Solver::new: a fresh solver.
#[verifier::external_body]
pub(crate) fn solver_new() -> z3::Solver {
    z3::Solver::new()
}

/// Relies on z3::Solver::assert: adds the constraint to the solver.
#[verifier::external_body]
pub(crate) fn solver_assert(s: &z3::Solver, c: &z3::ast::Bool) {
    s.assert(c)
}

/// Relies on z3::Solver::check: asks Z3 whether the asserted constraints
/// are satisfiable. Nothing is assumed of the answer; whatever model comes
/// back is validated by the verified checker.
#[verifier::external_body]
pub(crate) fn solver_check(s: &z3::Solver) -> SatOutcome {
    match s.check() {
        z3::SatResult::Sat => SatOutcome::Sat,
        z3::SatResult::Unsat => SatOutcome::Unsat,
        z3::SatResult::Unknown => SatOutcome::Unknown,
    }
}

/// Relies on z3::Solver::get_model: the model of the last check, if any.
#[verifier::external_body]
pub(crate) fn solver_model(s: &z3::Solver) -> Option<z3::Model> {
    s.get_model()
}

/// Relies on z3::Model::eval and z3::ast::Bool::as_bool: the concrete
/// value of a boolean term under the model, if Z3 can produce one.
#[verifier::external_body]
pub(crate) fn eval_bool(m: &z3::Model, b: &z3::ast::Bool) -> Option<bool> {
    match m.eval(b, true) {
        Some(v) => v.as_bool(),
        None => None,
    }
}

} // verus!
