//! The guard compiler: turns a guard expression into a boolean-valued target
//! expression, resolving pattern variables to their raw extraction paths and
//! parenthesizing conservatively by operator precedence.

use vstd::prelude::*;
use crate::ast::{BinOp, GuardExpr, GuardV, guard_variables};
use crate::env::{BindingEnvironment, env_lookup, rename_spec};
use crate::target::{
    TargetExpr, TargetV, TargetOp, Binding, bindings_view, opt_target_view, clone_target,
    clone_literal, spec_precedence, precedence,
};

verus! {

/// The extraction path of the first binding for `name`, if any.
pub open spec fn binding_lookup(binds: Seq<(Seq<char>, TargetV)>, name: Seq<char>) -> Option<
    TargetV,
>
    decreases binds,
{
    if binds.len() == 0 {
        Option::None
    } else if binds[0].0 == name {
        Option::Some(binds[0].1)
    } else {
        binding_lookup(binds.drop_first(), name)
    }
}

/// Whether every variable the guard references has an active binding, either
/// as a pattern variable of the clause or in the surrounding environment.
pub open spec fn guard_bound(
    g: GuardV,
    binds: Seq<(Seq<char>, TargetV)>,
    env: Seq<(Seq<char>, u32)>,
) -> bool
    decreases g,
{
    match g {
        GuardV::VariableRef(n) => binding_lookup(binds, n) is Some || env_lookup(env, n) is Some,
        GuardV::Constant(_) => true,
        GuardV::TupleAccess(e, _) => guard_bound(*e, binds, env),
        GuardV::BinaryOp(_, l, r) => guard_bound(*l, binds, env) && guard_bound(*r, binds, env),
    }
}

/// The target operator a source operator maps to.
pub open spec fn spec_target_op(op: BinOp) -> TargetOp {
    match op {
        BinOp::Equal => TargetOp::StrictEqual,
        BinOp::NotEqual => TargetOp::StrictNotEqual,
        BinOp::And => TargetOp::And,
        BinOp::Or => TargetOp::Or,
    }
}

pub fn target_op_of(op: BinOp) -> (r: TargetOp)
    ensures
        r == spec_target_op(op),
{
    match op {
        BinOp::Equal => TargetOp::StrictEqual,
        BinOp::NotEqual => TargetOp::StrictNotEqual,
        BinOp::And => TargetOp::And,
        BinOp::Or => TargetOp::Or,
    }
}

/// The precedence handed to the operand of a tuple-index access: high enough
/// that any binary operand is grouped before it is indexed.
pub open spec fn access_precedence() -> nat {
    4
}

/// What the guard compiler emits. Pattern variables resolve to their raw
/// extraction paths; environment variables to their renamed identifiers; a
/// binary node wraps itself in a group whenever its operator binds no tighter
/// than the operator above it. A reference with no active binding falls back
/// to the bare name; lowering rejects such guards before compiling them.
pub open spec fn compile_guard_spec(
    g: GuardV,
    binds: Seq<(Seq<char>, TargetV)>,
    env: Seq<(Seq<char>, u32)>,
    parent: nat,
) -> TargetV
    decreases g,
{
    match g {
        GuardV::VariableRef(n) => match binding_lookup(binds, n) {
            Option::Some(path) => path,
            Option::None => match env_lookup(env, n) {
                Option::Some(gen) => TargetV::Variable(rename_spec(n, gen as nat)),
                Option::None => TargetV::Variable(n),
            },
        },
        GuardV::Constant(l) => TargetV::Literal(l),
        GuardV::TupleAccess(e, i) => TargetV::Index(
            Box::new(compile_guard_spec(*e, binds, env, access_precedence())),
            i,
        ),
        GuardV::BinaryOp(op, l, r) => {
            let lc = compile_guard_spec(*l, binds, env, spec_precedence(op));
            let rc = compile_guard_spec(*r, binds, env, spec_precedence(op));
            let node = TargetV::Binary(spec_target_op(op), Box::new(lc), Box::new(rc));
            if spec_precedence(op) <= parent {
                TargetV::Grouped(Box::new(node))
            } else {
                node
            }
        },
    }
}

fn resolve_binding(bindings: &Vec<Binding>, name: &String) -> (r: Option<TargetExpr>)
    ensures
        opt_target_view(r) == binding_lookup(bindings_view(bindings@), name@),
{
    let ghost bv = bindings_view(bindings@);
    proof {
        assert(bv.skip(0) =~= bv);
    }
    let n = bindings.len();
    let mut i: usize = 0;
    while i < n
        invariant
            n == bindings.len(),
            i <= n,
            bv == bindings_view(bindings@),
            bv.len() == n,
            forall|j: int| 0 <= j < n ==> bv[j] == bindings@[j].view(),
            forall|j: int| 0 <= j < i ==> bv[j].0 != name@,
            binding_lookup(bv, name@) == binding_lookup(bv.skip(i as int), name@),
        decreases n - i,
    {
        proof {
            assert(bv.skip(i as int).len() == n - i);
            assert(bv.skip(i as int)[0] == bv[i as int]);
            assert(bv.skip(i as int).drop_first() =~= bv.skip(i + 1));
        }
        if bindings[i].name.eq(name) {
            return Option::Some(clone_target(&bindings[i].extraction_path));
        }
        i += 1;
    }
    proof {
        assert(bv.skip(n as int).len() == 0);
    }
    Option::None
}

/// Whether every variable `g` references is bound, as `guard_bound` states.
pub fn check_guard_bound(
    g: &GuardExpr,
    bindings: &Vec<Binding>,
    env: &BindingEnvironment,
) -> (r: bool)
    ensures
        r == guard_bound(g.view(), bindings_view(bindings@), env@),
    decreases g,
{
    match g {
        GuardExpr::VariableRef(n) => {
            let in_binds = resolve_binding(bindings, n);
            if in_binds.is_some() {
                true
            } else {
                env.resolve(n).is_some()
            }
        },
        GuardExpr::Constant(_) => true,
        GuardExpr::TupleAccess(e, _) => check_guard_bound(e, bindings, env),
        GuardExpr::BinaryOp(_, l, r) => {
            let lb = check_guard_bound(l, bindings, env);
            let rb = check_guard_bound(r, bindings, env);
            lb && rb
        },
    }
}

/// Whether the guard references `name`.
pub fn guard_references(g: &GuardExpr, name: &String) -> (r: bool)
    ensures
        r == guard_variables(g.view()).contains(name@),
    decreases g,
{
    match g {
        GuardExpr::VariableRef(n) => {
            let eq = n.eq(name);
            proof {
                assert(guard_variables(g.view()) =~= seq![n@]);
                if eq {
                    assert(guard_variables(g.view())[0] == name@);
                }
            }
            eq
        },
        GuardExpr::Constant(_) => {
            proof {
                assert(guard_variables(g.view()) =~= Seq::<Seq<char>>::empty());
            }
            false
        },
        GuardExpr::TupleAccess(e, _) => {
            let r = guard_references(e, name);
            proof {
                assert(guard_variables(g.view()) == guard_variables(e.view()));
            }
            r
        },
        GuardExpr::BinaryOp(_, l, r) => {
            let lr = guard_references(l, name);
            let rr = guard_references(r, name);
            proof {
                let ghost lv = guard_variables(l.view());
                let ghost rv = guard_variables(r.view());
                assert(guard_variables(g.view()) == lv + rv);
                if lr {
                    assert((lv + rv).contains(name@)) by {
                        let k = choose|k: int| 0 <= k < lv.len() && lv[k] == name@;
                        assert((lv + rv)[k] == name@);
                    }
                }
                if rr {
                    assert((lv + rv).contains(name@)) by {
                        let k = choose|k: int| 0 <= k < rv.len() && rv[k] == name@;
                        assert((lv + rv)[lv.len() + k] == name@);
                    }
                }
                if !lr && !rr {
                    assert(!(lv + rv).contains(name@)) by {
                        if (lv + rv).contains(name@) {
                            let k = choose|k: int|
                                0 <= k < (lv + rv).len() && (lv + rv)[k] == name@;
                            if k < lv.len() {
                                assert(lv[k] == name@);
                            } else {
                                assert(rv[k - lv.len()] == name@);
                            }
                        }
                    }
                }
            }
            lr || rr
        },
    }
}

/// Compiles a guard expression, as `compile_guard_spec` states.
pub fn compile_guard(
    g: &GuardExpr,
    bindings: &Vec<Binding>,
    env: &BindingEnvironment,
    parent_precedence: u32,
) -> (r: TargetExpr)
    ensures
        r.view() == compile_guard_spec(
            g.view(),
            bindings_view(bindings@),
            env@,
            parent_precedence as nat,
        ),
    decreases g,
{
    match g {
        GuardExpr::VariableRef(n) => {
            match resolve_binding(bindings, n) {
                Option::Some(path) => path,
                Option::None => {
                    match env.resolve(n) {
                        Option::Some(gen) => TargetExpr::Variable(env.rename(n, gen)),
                        Option::None => TargetExpr::Variable(n.clone()),
                    }
                },
            }
        },
        GuardExpr::Constant(l) => TargetExpr::Literal(clone_literal(l)),
        GuardExpr::TupleAccess(e, i) => {
            let inner = compile_guard(e, bindings, env, 4);
            let r = TargetExpr::Index(Box::new(inner), *i);
            proof {
                assert(r.view() == TargetV::Index(Box::new(inner.view()), *i as nat));
            }
            r
        },
        GuardExpr::BinaryOp(op, l, r) => {
            let p = precedence(*op);
            let lc = compile_guard(l, bindings, env, p);
            let rc = compile_guard(r, bindings, env, p);
            let node = TargetExpr::Binary(target_op_of(*op), Box::new(lc), Box::new(rc));
            proof {
                assert(node.view() == TargetV::Binary(
                    spec_target_op(*op),
                    Box::new(lc.view()),
                    Box::new(rc.view()),
                ));
            }
            if p <= parent_precedence {
                let grouped = TargetExpr::Grouped(Box::new(node));
                proof {
                    assert(grouped.view() == TargetV::Grouped(Box::new(grouped->Grouped_0.view())));
                }
                grouped
            } else {
                node
            }
        },
    }
}

/// The same expression with every grouping node erased.
pub open spec fn strip_groups(t: TargetV) -> TargetV
    decreases t,
{
    match t {
        TargetV::Variable(n) => TargetV::Variable(n),
        TargetV::Literal(l) => TargetV::Literal(l),
        TargetV::Index(e, i) => TargetV::Index(Box::new(strip_groups(*e)), i),
        TargetV::Binary(op, l, r) => TargetV::Binary(
            op,
            Box::new(strip_groups(*l)),
            Box::new(strip_groups(*r)),
        ),
        TargetV::Grouped(e) => strip_groups(*e),
    }
}

/// The precedence context only decides grouping: two compilations of one
/// guard under different parent precedences agree once grouping is erased, so
/// parenthesization changes how the expression prints, never what it means.
pub proof fn lemma_grouping_is_presentation_only(
    g: GuardV,
    binds: Seq<(Seq<char>, TargetV)>,
    env: Seq<(Seq<char>, u32)>,
    p1: nat,
    p2: nat,
)
    ensures
        strip_groups(compile_guard_spec(g, binds, env, p1)) == strip_groups(
            compile_guard_spec(g, binds, env, p2),
        ),
    decreases g,
{
    match g {
        GuardV::BinaryOp(op, l, r) => {
            lemma_grouping_is_presentation_only(*l, binds, env, spec_precedence(op), spec_precedence(op));
            lemma_grouping_is_presentation_only(*r, binds, env, spec_precedence(op), spec_precedence(op));
        },
        _ => {},
    }
}

} // verus!
