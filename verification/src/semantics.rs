//! What the emitted code means: evaluation of target expressions and the
//! first-match discipline of the emitted chain, with the laws that lowering
//! preserves it.

use vstd::prelude::*;
use crate::ast::{GuardV, LitV, PatternV};
use crate::target::{TargetV, TargetOp, ArmV};
use crate::guard::{strip_groups, compile_guard_spec, binding_lookup, guard_bound};
use crate::env::{env_lookup, rename_spec};
use crate::matcher::{pattern_test_spec, tuple_test_spec};

verus! {

/// A runtime value of the target language.
pub enum Value {
    Boolean(bool),
    Integer(int),
    Text(Seq<char>),
    Tuple(Seq<Value>),
}

/// Structural equality of runtime values: what the emitted strict comparison
/// decides on the scalar values the compiler compares.
pub open spec fn val_eq(a: Value, b: Value) -> bool
    decreases a,
{
    match (a, b) {
        (Value::Boolean(x), Value::Boolean(y)) => x == y,
        (Value::Integer(x), Value::Integer(y)) => x == y,
        (Value::Text(x), Value::Text(y)) => x == y,
        (Value::Tuple(x), Value::Tuple(y)) => x.len() == y.len() && (forall|i: int|
            0 <= i < x.len() ==> val_eq(#[trigger] x[i], y[i])),
        _ => false,
    }
}

/// The value of a literal.
pub open spec fn lit_value(l: LitV) -> Value {
    match l {
        LitV::Boolean(b) => Value::Boolean(b),
        LitV::Integer(i) => Value::Integer(i),
        LitV::Text(s) => Value::Text(s),
    }
}

/// Evaluation of a target expression under an assignment of identifiers to
/// values; `None` is a runtime fault. The boolean connectives evaluate their
/// left operand first and short-circuit.
pub open spec fn eval_target(t: TargetV, env: Map<Seq<char>, Value>) -> Option<Value>
    decreases t,
{
    match t {
        TargetV::Variable(n) => if env.contains_key(n) {
            Option::Some(env[n])
        } else {
            Option::None
        },
        TargetV::Literal(l) => Option::Some(lit_value(l)),
        TargetV::Index(e, i) => match eval_target(*e, env) {
            Option::Some(Value::Tuple(vs)) => if i < vs.len() {
                Option::Some(vs[i as int])
            } else {
                Option::None
            },
            _ => Option::None,
        },
        TargetV::Binary(op, l, r) => match op {
            TargetOp::And => match eval_target(*l, env) {
                Option::Some(Value::Boolean(false)) => Option::Some(Value::Boolean(false)),
                Option::Some(Value::Boolean(true)) => match eval_target(*r, env) {
                    Option::Some(Value::Boolean(b)) => Option::Some(Value::Boolean(b)),
                    _ => Option::None,
                },
                _ => Option::None,
            },
            TargetOp::Or => match eval_target(*l, env) {
                Option::Some(Value::Boolean(true)) => Option::Some(Value::Boolean(true)),
                Option::Some(Value::Boolean(false)) => match eval_target(*r, env) {
                    Option::Some(Value::Boolean(b)) => Option::Some(Value::Boolean(b)),
                    _ => Option::None,
                },
                _ => Option::None,
            },
            TargetOp::StrictEqual => match (eval_target(*l, env), eval_target(*r, env)) {
                (Option::Some(a), Option::Some(b)) => Option::Some(Value::Boolean(val_eq(a, b))),
                _ => Option::None,
            },
            TargetOp::StrictNotEqual => match (eval_target(*l, env), eval_target(*r, env)) {
                (Option::Some(a), Option::Some(b)) => Option::Some(Value::Boolean(!val_eq(a, b))),
                _ => Option::None,
            },
        },
        TargetV::Grouped(e) => eval_target(*e, env),
    }
}

/// Grouping is presentation only: erasing every grouping node leaves
/// evaluation unchanged.
pub proof fn lemma_strip_groups_preserves_eval(t: TargetV, env: Map<Seq<char>, Value>)
    ensures
        eval_target(strip_groups(t), env) == eval_target(t, env),
    decreases t,
{
    match t {
        TargetV::Index(e, _) => {
            lemma_strip_groups_preserves_eval(*e, env);
        },
        TargetV::Binary(_, l, r) => {
            lemma_strip_groups_preserves_eval(*l, env);
            lemma_strip_groups_preserves_eval(*r, env);
        },
        TargetV::Grouped(e) => {
            lemma_strip_groups_preserves_eval(*e, env);
        },
        _ => {},
    }
}

/// The parenthesization round-trips: a guard compiled under any two parent
/// precedences differs only in grouping, and grouping does not change
/// evaluation, so the printed precedence grouping preserves the guard's
/// value under every assignment.
pub proof fn lemma_parenthesization_preserves_value(
    g: GuardV,
    binds: Seq<(Seq<char>, TargetV)>,
    names: Seq<(Seq<char>, u32)>,
    p1: nat,
    p2: nat,
    env: Map<Seq<char>, Value>,
)
    ensures
        eval_target(compile_guard_spec(g, binds, names, p1), env) == eval_target(
            compile_guard_spec(g, binds, names, p2),
            env,
        ),
{
    crate::guard::lemma_grouping_is_presentation_only(g, binds, names, p1, p2);
    lemma_strip_groups_preserves_eval(compile_guard_spec(g, binds, names, p1), env);
    lemma_strip_groups_preserves_eval(compile_guard_spec(g, binds, names, p2), env);
}

/// Guard short-circuit: when the structural test is already false, the
/// combined test of an arm is false whatever the guard operand holds — the
/// guard is never consulted, and with the bindings materialised only inside
/// the branch, nothing of the failing clause runs.
pub proof fn lemma_failed_test_short_circuits_guard(
    t: TargetV,
    g1: TargetV,
    g2: TargetV,
    env: Map<Seq<char>, Value>,
)
    requires
        eval_target(t, env) == Option::Some(Value::Boolean(false)),
    ensures
        eval_target(TargetV::Binary(TargetOp::And, Box::new(t), Box::new(g1)), env)
            == Option::Some(Value::Boolean(false)),
        eval_target(TargetV::Binary(TargetOp::And, Box::new(t), Box::new(g1)), env)
            == eval_target(TargetV::Binary(TargetOp::And, Box::new(t), Box::new(g2)), env),
{
}

/// Whether an arm is taken under an assignment: an irrefutable arm always
/// is, a tested arm when its test evaluates to true.
pub open spec fn arm_taken(a: ArmV, env: Map<Seq<char>, Value>) -> bool {
    match a.test {
        Option::None => true,
        Option::Some(t) => eval_target(t, env) == Option::Some(Value::Boolean(true)),
    }
}

/// The arm the chain executes: the first one taken, in emitted order.
pub open spec fn selected_arm(arms: Seq<ArmV>, env: Map<Seq<char>, Value>) -> Option<int>
    decreases arms.len(),
{
    if arms.len() == 0 {
        Option::None
    } else if arm_taken(arms[0], env) {
        Option::Some(0)
    } else {
        match selected_arm(arms.drop_first(), env) {
            Option::Some(i) => Option::Some(i + 1),
            Option::None => Option::None,
        }
    }
}

/// First match wins: when every earlier arm's test fails and arm `i` is
/// taken, the chain executes arm `i` — the clause declared first among those
/// that hold determines the executed body, and a chain with no taken arm
/// falls through to the terminal failure.
pub proof fn lemma_first_match_wins(arms: Seq<ArmV>, env: Map<Seq<char>, Value>, i: int)
    requires
        0 <= i < arms.len(),
        arm_taken(arms[i], env),
        forall|j: int| 0 <= j < i ==> !arm_taken(#[trigger] arms[j], env),
    ensures
        selected_arm(arms, env) == Option::Some(i),
    decreases i,
{
    if i > 0 {
        lemma_first_match_wins(arms.drop_first(), env, i - 1);
        assert(arms.drop_first()[i - 1] == arms[i]);
        assert(forall|j: int|
            0 <= j < i - 1 ==> arms.drop_first()[j] == arms[j + 1]);
    }
}

/// A chain with no taken arm selects nothing.
pub proof fn lemma_no_match_falls_through(arms: Seq<ArmV>, env: Map<Seq<char>, Value>)
    requires
        forall|j: int| 0 <= j < arms.len() ==> !arm_taken(#[trigger] arms[j], env),
    ensures
        selected_arm(arms, env) is None,
    decreases arms.len(),
{
    if arms.len() > 0 {
        assert(forall|j: int|
            0 <= j < arms.len() - 1 ==> arms.drop_first()[j] == arms[j + 1]);
        lemma_no_match_falls_through(arms.drop_first(), env);
    }
}


/// Whether a value has the shape a pattern inspects: a tuple pattern needs a
/// tuple of the same arity, element by element. Upstream type checking
/// guarantees this before lowering ever runs.
pub open spec fn shape_ok(p: PatternV, v: Value) -> bool
    decreases p,
{
    match p {
        PatternV::Tuple(elems) => v is Tuple && v->Tuple_0.len() == elems.len() && (forall|i: int|
            0 <= i < elems.len() ==> shape_ok(#[trigger] elems[i], v->Tuple_0[i])),
        _ => true,
    }
}

/// Whether a pattern matches a value: wildcards and variables always do, a
/// literal by equality, a tuple when every element matches.
pub open spec fn pattern_matches(p: PatternV, v: Value) -> bool
    decreases p,
{
    match p {
        PatternV::Wildcard => true,
        PatternV::Variable(_) => true,
        PatternV::Literal(l) => val_eq(v, lit_value(l)),
        PatternV::Tuple(elems) => forall|i: int|
            0 <= i < elems.len() ==> pattern_matches(#[trigger] elems[i], v->Tuple_0[i]),
    }
}

/// The compiled structural test decides exactly whether the subject's value
/// matches the pattern: an omitted test means the pattern is irrefutable on
/// every well-shaped value, and an emitted test evaluates to that very
/// boolean, at every nesting depth.
pub proof fn lemma_pattern_test_decides_match(
    p: PatternV,
    base: TargetV,
    env: Map<Seq<char>, Value>,
    v: Value,
)
    requires
        eval_target(base, env) == Option::Some(v),
        shape_ok(p, v),
    ensures
        match pattern_test_spec(p, base) {
            Option::None => pattern_matches(p, v),
            Option::Some(t) => eval_target(t, env) == Option::Some(
                Value::Boolean(pattern_matches(p, v)),
            ),
        },
    decreases p,
{
    match p {
        PatternV::Literal(l) => {
            let lit = TargetV::Literal(l);
            assert(eval_target(lit, env) == Option::Some(lit_value(l)));
            let t = TargetV::Binary(TargetOp::StrictEqual, Box::new(base), Box::new(lit));
            assert(pattern_test_spec(p, base) == Option::Some(t));
            assert(eval_target(t, env) == Option::Some(
                Value::Boolean(val_eq(v, lit_value(l))),
            ));
        },
        PatternV::Tuple(elems) => {
            let vs = v->Tuple_0;
            assert(v is Tuple);
            assert(v == Value::Tuple(vs));
            assert forall|i: int| 0 <= i < elems.len() implies shape_ok(
                #[trigger] elems[i],
                vs[i],
            ) by {
                assert(shape_ok(p, v));
            }
            lemma_tuple_test_decides_match(elems, base, env, vs);
            assert(pattern_matches(p, v) == (forall|i: int|
                0 <= i < elems.len() ==> pattern_matches(#[trigger] elems[i], vs[i])));
        },
        _ => {},
    }
}

proof fn lemma_tuple_test_decides_match(
    elems: Seq<PatternV>,
    base: TargetV,
    env: Map<Seq<char>, Value>,
    vs: Seq<Value>,
)
    requires
        eval_target(base, env) == Option::Some(Value::Tuple(vs)),
        elems.len() <= vs.len(),
        forall|i: int| 0 <= i < elems.len() ==> shape_ok(#[trigger] elems[i], vs[i]),
    ensures
        match tuple_test_spec(elems, base) {
            Option::None => forall|i: int|
                0 <= i < elems.len() ==> pattern_matches(#[trigger] elems[i], vs[i]),
            Option::Some(t) => eval_target(t, env) == Option::Some(
                Value::Boolean(
                    forall|i: int|
                        0 <= i < elems.len() ==> pattern_matches(#[trigger] elems[i], vs[i]),
                ),
            ),
        },
    decreases elems,
{
    if elems.len() > 0 {
        let n = elems.len() as int;
        let front = elems.drop_last();
        let last = elems.last();
        lemma_tuple_test_decides_match(front, base, env, vs);
        let elem_base = TargetV::Index(Box::new(base), (n - 1) as nat);
        assert(eval_target(elem_base, env) == Option::Some(vs[n - 1]));
        lemma_pattern_test_decides_match(last, elem_base, env, vs[n - 1]);
        let ghost front_all = forall|i: int|
            0 <= i < n - 1 ==> pattern_matches(#[trigger] front[i], vs[i]);
        let ghost all = forall|i: int|
            0 <= i < n ==> pattern_matches(#[trigger] elems[i], vs[i]);
        assert(forall|i: int| 0 <= i < n - 1 ==> front[i] == elems[i]);
        assert(all == (front_all && pattern_matches(last, vs[n - 1]))) by {
            if front_all && pattern_matches(last, vs[n - 1]) {
                assert forall|i: int| 0 <= i < n implies pattern_matches(
                    #[trigger] elems[i],
                    vs[i],
                ) by {
                    if i < n - 1 {
                        assert(pattern_matches(front[i], vs[i]));
                    }
                }
            }
            if all {
                assert forall|i: int| 0 <= i < n - 1 implies pattern_matches(
                    #[trigger] front[i],
                    vs[i],
                ) by {
                    assert(pattern_matches(elems[i], vs[i]));
                }
                assert(pattern_matches(elems[n - 1], vs[n - 1]));
            }
        }
        match (tuple_test_spec(front, base), pattern_test_spec(last, elem_base)) {
            (Option::None, Option::None) => {
            },
            (Option::None, Option::Some(te)) => {
                assert(tuple_test_spec(elems, base) == Option::Some(te));
            },
            (Option::Some(tp), Option::None) => {
                assert(tuple_test_spec(elems, base) == Option::Some(tp));
            },
            (Option::Some(tp), Option::Some(te)) => {
                let combined = TargetV::Binary(TargetOp::And, Box::new(tp), Box::new(te));
                assert(tuple_test_spec(elems, base) == Option::Some(combined));
                assert(eval_target(tp, env) == Option::Some(Value::Boolean(front_all)));
                if front_all {
                    assert(eval_target(combined, env) == Option::Some(
                        Value::Boolean(pattern_matches(last, vs[n - 1])),
                    ));
                } else {
                    assert(eval_target(combined, env) == Option::Some(Value::Boolean(false)));
                }
            },
        }
    }
}


/// Evaluation of a source guard under an assignment of its variables; the
/// same total, side-effect-free forms as the target expressions.
pub open spec fn eval_guard(g: GuardV, sigma: Map<Seq<char>, Value>) -> Option<Value>
    decreases g,
{
    match g {
        GuardV::VariableRef(n) => if sigma.contains_key(n) {
            Option::Some(sigma[n])
        } else {
            Option::None
        },
        GuardV::Constant(l) => Option::Some(lit_value(l)),
        GuardV::TupleAccess(e, i) => match eval_guard(*e, sigma) {
            Option::Some(Value::Tuple(vs)) => if i < vs.len() {
                Option::Some(vs[i as int])
            } else {
                Option::None
            },
            _ => Option::None,
        },
        GuardV::BinaryOp(op, l, r) => match op {
            crate::ast::BinOp::And => match eval_guard(*l, sigma) {
                Option::Some(Value::Boolean(false)) => Option::Some(Value::Boolean(false)),
                Option::Some(Value::Boolean(true)) => match eval_guard(*r, sigma) {
                    Option::Some(Value::Boolean(b)) => Option::Some(Value::Boolean(b)),
                    _ => Option::None,
                },
                _ => Option::None,
            },
            crate::ast::BinOp::Or => match eval_guard(*l, sigma) {
                Option::Some(Value::Boolean(true)) => Option::Some(Value::Boolean(true)),
                Option::Some(Value::Boolean(false)) => match eval_guard(*r, sigma) {
                    Option::Some(Value::Boolean(b)) => Option::Some(Value::Boolean(b)),
                    _ => Option::None,
                },
                _ => Option::None,
            },
            crate::ast::BinOp::Equal => match (eval_guard(*l, sigma), eval_guard(*r, sigma)) {
                (Option::Some(a), Option::Some(b)) => Option::Some(Value::Boolean(val_eq(a, b))),
                _ => Option::None,
            },
            crate::ast::BinOp::NotEqual => match (eval_guard(*l, sigma), eval_guard(*r, sigma)) {
                (Option::Some(a), Option::Some(b)) => Option::Some(Value::Boolean(!val_eq(a, b))),
                _ => Option::None,
            },
        },
    }
}

/// The guard compiler preserves meaning. When every pattern variable's raw
/// extraction path reads the value the variable stands for, and every outer
/// variable's renamed identifier carries its value, the compiled expression
/// evaluates to exactly what the source guard evaluates to — under any parent
/// precedence, so the raw paths and the conservative grouping change nothing
/// of the guard's value.
pub proof fn lemma_compile_guard_preserves_meaning(
    g: GuardV,
    binds: Seq<(Seq<char>, TargetV)>,
    names: Seq<(Seq<char>, u32)>,
    parent: nat,
    venv: Map<Seq<char>, Value>,
    sigma: Map<Seq<char>, Value>,
)
    requires
        guard_bound(g, binds, names),
        forall|n: Seq<char>| #[trigger] binding_lookup(binds, n) is Some ==> sigma.contains_key(n)
            && eval_target(binding_lookup(binds, n)->0, venv) == Option::Some(sigma[n]),
        forall|n: Seq<char>|
            binding_lookup(binds, n) is None && #[trigger] env_lookup(names, n) is Some
                ==> sigma.contains_key(n) && venv.contains_key(
                rename_spec(n, env_lookup(names, n)->0 as nat),
            ) && venv[rename_spec(n, env_lookup(names, n)->0 as nat)] == sigma[n],
    ensures
        eval_target(compile_guard_spec(g, binds, names, parent), venv) == eval_guard(g, sigma),
    decreases g,
{
    match g {
        GuardV::VariableRef(n) => {
            match binding_lookup(binds, n) {
                Option::Some(path) => {
                    assert(eval_target(path, venv) == Option::Some(sigma[n]));
                },
                Option::None => {
                    let gen = env_lookup(names, n)->0;
                    let ident = rename_spec(n, gen as nat);
                    assert(compile_guard_spec(g, binds, names, parent) == TargetV::Variable(
                        ident,
                    ));
                    assert(eval_target(TargetV::Variable(ident), venv) == Option::Some(sigma[n]));
                },
            }
        },
        GuardV::Constant(_) => {},
        GuardV::TupleAccess(e, i) => {
            lemma_compile_guard_preserves_meaning(
                *e,
                binds,
                names,
                crate::guard::access_precedence(),
                venv,
                sigma,
            );
            let ec = compile_guard_spec(*e, binds, names, crate::guard::access_precedence());
            assert(compile_guard_spec(g, binds, names, parent) == TargetV::Index(
                Box::new(ec),
                i,
            ));
        },
        GuardV::BinaryOp(op, l, r) => {
            let p = crate::target::spec_precedence(op);
            lemma_compile_guard_preserves_meaning(*l, binds, names, p, venv, sigma);
            lemma_compile_guard_preserves_meaning(*r, binds, names, p, venv, sigma);
            let lc = compile_guard_spec(*l, binds, names, p);
            let rc = compile_guard_spec(*r, binds, names, p);
            let node = TargetV::Binary(crate::guard::spec_target_op(op), Box::new(lc), Box::new(rc));
            assert(eval_target(node, venv) == eval_guard(g, sigma));
            if p <= parent {
                assert(compile_guard_spec(g, binds, names, parent) == TargetV::Grouped(
                    Box::new(node),
                ));
                assert(eval_target(TargetV::Grouped(Box::new(node)), venv) == eval_target(
                    node,
                    venv,
                ));
            } else {
                assert(compile_guard_spec(g, binds, names, parent) == node);
            }
        },
    }
}

} // verus!
