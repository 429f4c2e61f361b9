//! The case-lowering orchestrator: walks clauses in order, combines the
//! pattern matcher's tests with compiled guards, materialises bindings only
//! inside the taken branch, and emits the terminal runtime-failure fallback
//! when no clause is statically exhaustive.

use vstd::prelude::*;
use crate::ast::{
    Pattern, PatternV, GuardExpr, GuardV, pattern_variables, pattern_seq_variables,
    guard_variables,
};
use crate::env::{
    BindingEnvironment, env_lookup, env_bind_spec, env_bind_generation, rename_spec,
};
use crate::matcher::{
    pattern_test_spec, pattern_bindings_spec, and_test, match_pattern, combine_tests,
    lemma_match_binds_declared_variables, lemma_pattern_seq_view_index,
};
use crate::guard::{
    guard_bound, compile_guard_spec, compile_guard, check_guard_bound, guard_references,
};
use crate::target::{
    TargetExpr, TargetV, Binding, MaterializedBinding, Arm, ArmV, Chain, bindings_view,
    binding_names, materialized_view, opt_target_view, clone_target, clone_literal,
};

verus! {

/// One alternative of a case expression: a pattern, an optional boolean
/// guard, and the expression the clause evaluates to. The body uses the same
/// side-effect-free expression forms guards do; anything richer is lowered
/// before it reaches this component.
#[derive(Debug)]
pub struct Clause {
    pub pattern: Pattern,
    pub guard: Option<GuardExpr>,
    pub body: GuardExpr,
}

/// Mathematical view of a clause.
pub struct ClauseV {
    pub pattern: PatternV,
    pub guard: Option<GuardV>,
    pub body: GuardV,
}

impl Clause {
    pub open spec fn view(self) -> ClauseV {
        ClauseV {
            pattern: self.pattern.view(),
            guard: match self.guard {
                Option::None => Option::None,
                Option::Some(g) => Option::Some(g.view()),
            },
            body: self.body.view(),
        }
    }
}

/// A case expression over already-lowered subjects.
#[derive(Debug)]
pub struct CaseExpr {
    pub subjects: Vec<TargetExpr>,
    pub clauses: Vec<Clause>,
}

/// Mathematical view of a case expression.
pub struct CaseExprV {
    pub subjects: Seq<TargetV>,
    pub clauses: Seq<ClauseV>,
}

pub open spec fn targets_view(s: Seq<TargetExpr>) -> Seq<TargetV> {
    s.map_values(|t: TargetExpr| t.view())
}

impl CaseExpr {
    pub open spec fn view(self) -> CaseExprV {
        CaseExprV {
            subjects: targets_view(self.subjects@),
            clauses: self.clauses@.map_values(|c: Clause| c.view()),
        }
    }
}

/// The precondition violations lowering rejects, each naming the offending
/// clause.
#[derive(Debug, Clone, Copy, PartialEq, Eq, Structural)]
pub enum LowerError {
    EmptyClauses,
    ArityMismatch { clause: usize },
    DuplicatePatternVariable { clause: usize },
    UnboundGuardVariable { clause: usize },
}

/// A clause fits the subjects when there is one subject (any pattern), or a
/// tuple pattern with one element per subject.
pub open spec fn arity_ok(p: PatternV, nsubj: nat) -> bool {
    nsubj == 1 || (p is Tuple && p->Tuple_0.len() == nsubj)
}

/// The combined test of the first `k` tuple-pattern elements, each against
/// its own subject.
pub open spec fn multi_test_spec(elems: Seq<PatternV>, subjects: Seq<TargetV>, k: int) -> Option<
    TargetV,
>
    decreases k,
{
    if k <= 0 {
        Option::None
    } else {
        and_test(
            multi_test_spec(elems, subjects, k - 1),
            pattern_test_spec(elems[k - 1], subjects[k - 1]),
        )
    }
}

/// The bindings of the first `k` tuple-pattern elements, each against its own
/// subject.
pub open spec fn multi_bindings_spec(
    elems: Seq<PatternV>,
    subjects: Seq<TargetV>,
    k: int,
) -> Seq<(Seq<char>, TargetV)>
    decreases k,
{
    if k <= 0 {
        Seq::empty()
    } else {
        multi_bindings_spec(elems, subjects, k - 1) + pattern_bindings_spec(
            elems[k - 1],
            subjects[k - 1],
        )
    }
}

/// The structural test of a whole clause against the subjects.
pub open spec fn clause_test_spec(p: PatternV, subjects: Seq<TargetV>) -> Option<TargetV> {
    if subjects.len() == 1 {
        pattern_test_spec(p, subjects[0])
    } else {
        multi_test_spec(p->Tuple_0, subjects, subjects.len() as int)
    }
}

/// The bindings of a whole clause against the subjects.
pub open spec fn clause_bindings_spec(p: PatternV, subjects: Seq<TargetV>) -> Seq<
    (Seq<char>, TargetV),
> {
    if subjects.len() == 1 {
        pattern_bindings_spec(p, subjects[0])
    } else {
        multi_bindings_spec(p->Tuple_0, subjects, subjects.len() as int)
    }
}

/// A clause's bindings carry exactly the pattern's declared variable names,
/// in declaration order.
pub proof fn lemma_clause_binding_names(p: PatternV, subjects: Seq<TargetV>)
    requires
        arity_ok(p, subjects.len()),
    ensures
        binding_names(clause_bindings_spec(p, subjects)) =~= pattern_variables(p),
{
    if subjects.len() == 1 {
        lemma_match_binds_declared_variables(p, subjects[0]);
    } else {
        let elems = p->Tuple_0;
        lemma_multi_binding_names(elems, subjects, elems.len() as int);
        assert(elems.take(elems.len() as int) =~= elems);
    }
}

proof fn lemma_multi_binding_names(elems: Seq<PatternV>, subjects: Seq<TargetV>, k: int)
    requires
        0 <= k <= elems.len(),
    ensures
        binding_names(multi_bindings_spec(elems, subjects, k)) =~= pattern_seq_variables(
            elems.take(k),
        ),
    decreases k,
{
    if k > 0 {
        lemma_multi_binding_names(elems, subjects, k - 1);
        lemma_match_binds_declared_variables(elems[k - 1], subjects[k - 1]);
        assert(elems.take(k).drop_last() =~= elems.take(k - 1));
        assert(elems.take(k).last() == elems[k - 1]);
    }
}

/// Whether a clause binding is referenced by the guard or the body, which is
/// what decides whether it is materialised in the taken branch.
pub open spec fn referenced_spec(name: Seq<char>, guard: Option<GuardV>, body: GuardV) -> bool {
    (match guard {
        Option::Some(g) => guard_variables(g).contains(name),
        Option::None => false,
    }) || guard_variables(body).contains(name)
}

/// The materialised bindings and the environment after the first `k` clause
/// bindings are processed: each referenced one is bound at a fresh generation,
/// in matcher-produced order; unreferenced ones are dropped.
pub open spec fn materialize_prefix(
    binds: Seq<(Seq<char>, TargetV)>,
    guard: Option<GuardV>,
    body: GuardV,
    env0: Seq<(Seq<char>, u32)>,
    k: int,
) -> (Seq<(Seq<char>, nat, TargetV)>, Seq<(Seq<char>, u32)>)
    decreases k,
{
    if k <= 0 {
        (Seq::empty(), env0)
    } else {
        let prev = materialize_prefix(binds, guard, body, env0, k - 1);
        let name = binds[k - 1].0;
        let path = binds[k - 1].1;
        if referenced_spec(name, guard, body) {
            (
                prev.0.push((name, env_bind_generation(prev.1, name) as nat, path)),
                env_bind_spec(prev.1, name),
            )
        } else {
            prev
        }
    }
}

/// Resolution inside a clause body: the generation of the materialised
/// binding for `name`, if the clause materialised one.
pub open spec fn mat_lookup(ms: Seq<(Seq<char>, nat, TargetV)>, name: Seq<char>) -> Option<nat>
    decreases ms,
{
    if ms.len() == 0 {
        Option::None
    } else if ms[0].0 == name {
        Option::Some(ms[0].1)
    } else {
        mat_lookup(ms.drop_first(), name)
    }
}

/// What compiling a clause body emits: pattern variables resolve to the local
/// the branch materialised, everything else as in a guard.
pub open spec fn compile_body_spec(
    g: GuardV,
    ms: Seq<(Seq<char>, nat, TargetV)>,
    env: Seq<(Seq<char>, u32)>,
    parent: nat,
) -> TargetV
    decreases g,
{
    match g {
        GuardV::VariableRef(n) => match mat_lookup(ms, n) {
            Option::Some(gen) => TargetV::Variable(rename_spec(n, gen)),
            Option::None => match env_lookup(env, n) {
                Option::Some(gen) => TargetV::Variable(rename_spec(n, gen as nat)),
                Option::None => TargetV::Variable(n),
            },
        },
        GuardV::Constant(l) => TargetV::Literal(l),
        GuardV::TupleAccess(e, i) => TargetV::Index(
            Box::new(compile_body_spec(*e, ms, env, crate::guard::access_precedence())),
            i,
        ),
        GuardV::BinaryOp(op, l, r) => {
            let p = crate::target::spec_precedence(op);
            let lc = compile_body_spec(*l, ms, env, p);
            let rc = compile_body_spec(*r, ms, env, p);
            let node = TargetV::Binary(crate::guard::spec_target_op(op), Box::new(lc), Box::new(rc));
            if p <= parent {
                TargetV::Grouped(Box::new(node))
            } else {
                node
            }
        },
    }
}

/// The arm one well-formed clause lowers to.
pub open spec fn arm_spec(c: ClauseV, subjects: Seq<TargetV>, env: Seq<(Seq<char>, u32)>) -> ArmV {
    let test = clause_test_spec(c.pattern, subjects);
    let binds = clause_bindings_spec(c.pattern, subjects);
    let gc = match c.guard {
        Option::Some(g) => Option::Some(
            compile_guard_spec(g, binds, env, if test is Some { 2 as nat } else { 0 }),
        ),
        Option::None => Option::None,
    };
    let mat = materialize_prefix(binds, c.guard, c.body, env, binds.len() as int);
    ArmV {
        test: and_test(test, gc),
        bindings: mat.0,
        body: compile_body_spec(c.body, mat.0, mat.1, 0),
    }
}

/// The check one clause fails, if any: wrong arity, duplicate pattern
/// variables, or a guard referencing an unbound name.
pub open spec fn clause_error_spec(
    c: ClauseV,
    subjects: Seq<TargetV>,
    env: Seq<(Seq<char>, u32)>,
    i: int,
) -> Option<LowerError> {
    if !arity_ok(c.pattern, subjects.len()) {
        Option::Some(LowerError::ArityMismatch { clause: i as usize })
    } else if !pattern_variables(c.pattern).no_duplicates() {
        Option::Some(LowerError::DuplicatePatternVariable { clause: i as usize })
    } else if (match c.guard {
        Option::Some(g) => !guard_bound(g, clause_bindings_spec(c.pattern, subjects), env),
        Option::None => false,
    }) {
        Option::Some(LowerError::UnboundGuardVariable { clause: i as usize })
    } else {
        Option::None
    }
}

/// Lowering from clause `i` on: the first offending clause aborts the whole
/// lowering; an irrefutable, guardless clause ends the chain (everything
/// after it is unreachable) and needs no fallback; otherwise the fallback is
/// owed.
pub open spec fn lower_clauses_spec(
    cs: Seq<ClauseV>,
    subjects: Seq<TargetV>,
    env: Seq<(Seq<char>, u32)>,
    i: int,
) -> Result<(Seq<ArmV>, bool), LowerError>
    decreases cs.len() - i,
{
    if i < 0 || i >= cs.len() {
        Result::Ok((Seq::empty(), true))
    } else {
        match clause_error_spec(cs[i], subjects, env, i) {
            Option::Some(e) => Result::Err(e),
            Option::None => {
                let arm = arm_spec(cs[i], subjects, env);
                if arm.test is None {
                    Result::Ok((seq![arm], false))
                } else {
                    match lower_clauses_spec(cs, subjects, env, i + 1) {
                        Result::Err(e) => Result::Err(e),
                        Result::Ok(rest) => Result::Ok((seq![arm] + rest.0, rest.1)),
                    }
                }
            },
        }
    }
}

/// What `lower` returns: the arms of the chain and whether the terminal
/// runtime-failure branch is present.
pub open spec fn lower_spec(cv: CaseExprV, env: Seq<(Seq<char>, u32)>) -> Result<
    (Seq<ArmV>, bool),
    LowerError,
> {
    if cv.clauses.len() == 0 {
        Result::Err(LowerError::EmptyClauses)
    } else {
        lower_clauses_spec(cv.clauses, cv.subjects, env, 0)
    }
}

fn check_arity(p: &Pattern, nsubj: usize) -> (r: bool)
    ensures
        r == arity_ok(p.view(), nsubj as nat),
{
    if nsubj == 1 {
        true
    } else {
        match p {
            Pattern::Tuple(elems) => {
                proof {
                    lemma_pattern_seq_view_index(elems@);
                }
                elems.len() == nsubj
            },
            _ => false,
        }
    }
}

fn binding_names_unique(bindings: &Vec<Binding>) -> (r: bool)
    ensures
        r == binding_names(bindings_view(bindings@)).no_duplicates(),
{
    let ghost names = binding_names(bindings_view(bindings@));
    let n = bindings.len();
    let mut i: usize = 0;
    while i < n
        invariant
            n == bindings.len(),
            i <= n,
            names == binding_names(bindings_view(bindings@)),
            names.len() == n,
            forall|k: int| 0 <= k < n ==> names[k] == bindings@[k].name@,
            forall|k: int, l: int| 0 <= k < l < i ==> names[k] != names[l],
        decreases n - i,
    {
        let mut j: usize = 0;
        while j < i
            invariant
                n == bindings.len(),
                i < n,
                j <= i <= n,
                names == binding_names(bindings_view(bindings@)),
                names.len() == n,
                forall|k: int| 0 <= k < n ==> names[k] == bindings@[k].name@,
                forall|k: int, l: int| 0 <= k < l < i ==> names[k] != names[l],
                forall|k: int| 0 <= k < j ==> names[k] != names[i as int],
            decreases i - j,
        {
            if bindings[j].name.eq(&bindings[i].name) {
                proof {
                    assert(names[j as int] == names[i as int]);
                    assert(!names.no_duplicates());
                }
                return false;
            }
            j += 1;
        }
        i += 1;
    }
    true
}

/// Matches one clause's pattern against the subjects: one subject takes the
/// pattern whole, several take a tuple pattern element by element.
pub fn match_clause(p: &Pattern, subjects: &Vec<TargetExpr>) -> (r: (
    Option<TargetExpr>,
    Vec<Binding>,
))
    requires
        arity_ok(p.view(), subjects@.len() as nat),
    ensures
        opt_target_view(r.0) == clause_test_spec(p.view(), targets_view(subjects@)),
        bindings_view(r.1@) =~= clause_bindings_spec(p.view(), targets_view(subjects@)),
{
    let ghost sv = targets_view(subjects@);
    if subjects.len() == 1 {
        match_pattern(p, &subjects[0])
    } else {
        match p {
            Pattern::Tuple(elems) => {
                let ghost vs = crate::ast::pattern_seq_view(elems@);
                proof {
                    lemma_pattern_seq_view_index(elems@);
                }
                let n = elems.len();
                let mut test: Option<TargetExpr> = Option::None;
                let mut bindings: Vec<Binding> = Vec::new();
                let mut i: usize = 0;
                while i < n
                    invariant
                        n == elems.len(),
                        n == subjects.len(),
                        i <= n,
                        p.view() == PatternV::Tuple(vs),
                        vs == crate::ast::pattern_seq_view(elems@),
                        sv == targets_view(subjects@),
                        vs.len() == n,
                        sv.len() == n,
                        forall|j: int| 0 <= j < n ==> vs[j] == elems@[j].view(),
                        opt_target_view(test) == multi_test_spec(vs, sv, i as int),
                        bindings_view(bindings@) =~= multi_bindings_spec(vs, sv, i as int),
                    decreases n - i,
                {
                    proof {
                        let ghost pv = p.view();
                        assert(decreases_to!(pv => pv->Tuple_0));
                        assert(decreases_to!(vs => vs[i as int]));
                    }
                    let (t, mut bs) = match_pattern(&elems[i], &subjects[i]);
                    let ghost pre_binds = bindings_view(bindings@);
                    test = combine_tests(test, t);
                    bindings.append(&mut bs);
                    proof {
                        assert(bindings_view(bindings@) =~= pre_binds + pattern_bindings_spec(
                            vs[i as int],
                            sv[i as int],
                        ));
                    }
                    i += 1;
                }
                (test, bindings)
            },
            _ => {
                proof {
                    assert(false);
                }
                (Option::None, Vec::new())
            },
        }
    }
}

fn resolve_materialized(ms: &Vec<MaterializedBinding>, name: &String) -> (r: Option<u32>)
    ensures
        match r {
            Option::Some(g) => mat_lookup(materialized_view(ms@), name@) == Option::Some(
                g as nat,
            ),
            Option::None => mat_lookup(materialized_view(ms@), name@) is None,
        },
{
    let ghost mv = materialized_view(ms@);
    proof {
        assert(mv.skip(0) =~= mv);
    }
    let n = ms.len();
    let mut i: usize = 0;
    while i < n
        invariant
            n == ms.len(),
            i <= n,
            mv == materialized_view(ms@),
            mv.len() == n,
            forall|j: int| 0 <= j < n ==> mv[j] == ms@[j].view(),
            forall|j: int| 0 <= j < i ==> mv[j].0 != name@,
            mat_lookup(mv, name@) == mat_lookup(mv.skip(i as int), name@),
        decreases n - i,
    {
        proof {
            assert(mv.skip(i as int).len() == n - i);
            assert(mv.skip(i as int)[0] == mv[i as int]);
            assert(mv.skip(i as int).drop_first() =~= mv.skip(i + 1));
        }
        if ms[i].name.eq(name) {
            return Option::Some(ms[i].generation);
        }
        i += 1;
    }
    proof {
        assert(mv.skip(n as int).len() == 0);
    }
    Option::None
}

/// Compiles a clause body, as `compile_body_spec` states.
pub fn compile_body(
    g: &GuardExpr,
    ms: &Vec<MaterializedBinding>,
    env: &BindingEnvironment,
    parent_precedence: u32,
) -> (r: TargetExpr)
    ensures
        r.view() == compile_body_spec(
            g.view(),
            materialized_view(ms@),
            env@,
            parent_precedence as nat,
        ),
    decreases g,
{
    match g {
        GuardExpr::VariableRef(n) => {
            match resolve_materialized(ms, n) {
                Option::Some(gen) => TargetExpr::Variable(env.rename(n, gen)),
                Option::None => {
                    match env.resolve(n) {
                        Option::Some(gen) => TargetExpr::Variable(env.rename(n, gen)),
                        Option::None => TargetExpr::Variable(n.clone()),
                    }
                },
            }
        },
        GuardExpr::Constant(l) => TargetExpr::Literal(clone_literal(l)),
        GuardExpr::TupleAccess(e, i) => {
            let inner = compile_body(e, ms, env, 4);
            let r = TargetExpr::Index(Box::new(inner), *i);
            proof {
                assert(r.view() == TargetV::Index(Box::new(inner.view()), *i as nat));
            }
            r
        },
        GuardExpr::BinaryOp(op, l, r) => {
            let p = crate::target::precedence(*op);
            let lc = compile_body(l, ms, env, p);
            let rc = compile_body(r, ms, env, p);
            let node = TargetExpr::Binary(crate::guard::target_op_of(*op), Box::new(lc), Box::new(rc));
            proof {
                assert(node.view() == TargetV::Binary(
                    crate::guard::spec_target_op(*op),
                    Box::new(lc.view()),
                    Box::new(rc.view()),
                ));
            }
            if p <= parent_precedence {
                let grouped = TargetExpr::Grouped(Box::new(node));
                proof {
                    assert(grouped.view() == TargetV::Grouped(Box::new(node.view())));
                }
                grouped
            } else {
                node
            }
        },
    }
}

fn clause_references(c: &Clause, name: &String) -> (r: bool)
    ensures
        r == referenced_spec(name@, c.view().guard, c.view().body),
{
    let in_guard = match &c.guard {
        Option::Some(g) => guard_references(g, name),
        Option::None => false,
    };
    if in_guard {
        true
    } else {
        guard_references(&c.body, name)
    }
}

/// Lowers a case expression against the bindings visible around it into an
/// if/else-if chain, as `lower_spec` states: clauses are tested in declaration
/// order, each arm's test is the pattern test conjoined with its compiled
/// guard, bindings are materialised only inside the arm taken and only when
/// the guard or the body references them, and the terminal failure branch is
/// owed exactly when no irrefutable, guardless clause ends the chain.
pub fn lower(case: &CaseExpr, env: &BindingEnvironment) -> (r: Result<Chain, LowerError>)
    requires
        env.wf(),
        forall|k: int| 0 <= k < env@.len() ==> (#[trigger] env@[k]).1 < u32::MAX,
    ensures
        match r {
            Result::Ok(chain) => lower_spec(case.view(), env@) is Ok && chain.view().arms
                =~~= lower_spec(case.view(), env@)->Ok_0.0 && chain.has_fallback == lower_spec(
                case.view(),
                env@,
            )->Ok_0.1,
            Result::Err(e) => lower_spec(case.view(), env@) == Result::<
                (Seq<ArmV>, bool),
                LowerError,
            >::Err(e),
        },
{
    let ghost cv = case.view();
    let ghost csv = cv.clauses;
    let ghost sv = cv.subjects;
    let ghost e0 = env@;
    let n = case.clauses.len();
    if n == 0 {
        return Result::Err(LowerError::EmptyClauses);
    }
    let nsubj = case.subjects.len();
    let mut arms: Vec<Arm> = Vec::new();
    let mut stopped = false;
    let mut i: usize = 0;
    while i < n && !stopped
        invariant
            n == case.clauses.len(),
            nsubj == case.subjects.len(),
            i <= n,
            cv == case.view(),
            csv == cv.clauses,
            sv == cv.subjects,
            e0 == env@,
            env.wf(),
            forall|k: int| 0 <= k < e0.len() ==> (#[trigger] e0[k]).1 < u32::MAX,
            csv.len() == n,
            sv.len() == nsubj,
            forall|k: int| 0 <= k < n ==> csv[k] == case.clauses@[k].view(),
            !stopped ==> arms@.len() == i,
            !stopped ==> (match lower_clauses_spec(csv, sv, e0, i as int) {
                Result::Ok(rest) => lower_clauses_spec(csv, sv, e0, 0) is Ok && lower_clauses_spec(
                    csv,
                    sv,
                    e0,
                    0,
                )->Ok_0.0 =~~= arms@.map_values(|a: Arm| a.view()) + rest.0 && lower_clauses_spec(
                    csv,
                    sv,
                    e0,
                    0,
                )->Ok_0.1 == rest.1,
                Result::Err(e) => lower_clauses_spec(csv, sv, e0, 0) == Result::<
                    (Seq<ArmV>, bool),
                    LowerError,
                >::Err(e),
            }),
            stopped ==> lower_clauses_spec(csv, sv, e0, 0) is Ok && lower_clauses_spec(
                csv,
                sv,
                e0,
                0,
            )->Ok_0.0 =~~= arms@.map_values(|a: Arm| a.view()) && lower_clauses_spec(
                csv,
                sv,
                e0,
                0,
            )->Ok_0.1 == false,
        decreases n - i,
    {
        let clause = &case.clauses[i];
        let ghost ci = csv[i as int];

        // Arity.
        if !check_arity(&clause.pattern, nsubj) {
            proof {
                assert(clause_error_spec(ci, sv, e0, i as int) == Option::Some(
                    LowerError::ArityMismatch { clause: i as usize },
                ));
            }
            return Result::Err(LowerError::ArityMismatch { clause: i });
        }

        // Pattern test and bindings.
        let (test, bindings) = match_clause(&clause.pattern, &case.subjects);

        // Duplicate pattern variables.
        if !binding_names_unique(&bindings) {
            proof {
                lemma_clause_binding_names(ci.pattern, sv);
                assert(!pattern_variables(ci.pattern).no_duplicates());
                assert(clause_error_spec(ci, sv, e0, i as int) == Option::Some(
                    LowerError::DuplicatePatternVariable { clause: i as usize },
                ));
            }
            return Result::Err(LowerError::DuplicatePatternVariable { clause: i });
        }
        proof {
            assert(bindings_view(bindings@) =~= clause_bindings_spec(ci.pattern, sv));
            lemma_clause_binding_names(ci.pattern, sv);
            assert(binding_names(bindings_view(bindings@)) =~= pattern_variables(ci.pattern));
            assert(pattern_variables(ci.pattern).no_duplicates());
        }

        // Guard boundness, then compilation against the raw extraction paths.
        let compiled_guard: Option<TargetExpr> = match &clause.guard {
            Option::Some(g) => {
                if !check_guard_bound(g, &bindings, env) {
                    proof {
                        assert(clause_error_spec(ci, sv, e0, i as int) == Option::Some(
                            LowerError::UnboundGuardVariable { clause: i as usize },
                        ));
                    }
                    return Result::Err(LowerError::UnboundGuardVariable { clause: i });
                }
                let parent: u32 = if test.is_some() {
                    2
                } else {
                    0
                };
                Option::Some(compile_guard(g, &bindings, env, parent))
            },
            Option::None => Option::None,
        };
        proof {
            assert(clause_error_spec(ci, sv, e0, i as int) is None);
        }

        let combined = combine_tests(test, compiled_guard);

        // Materialise the referenced bindings, each at a fresh generation, in
        // matcher-produced order, inside this clause's own scope.
        let ghost bv = bindings_view(bindings@);
        let mut snap = env.snapshot();
        let mut ms: Vec<MaterializedBinding> = Vec::new();
        let nb = bindings.len();
        let mut j: usize = 0;
        while j < nb
            invariant
                nb == bindings.len(),
                j <= nb,
                cv == case.view(),
                csv == cv.clauses,
                sv == cv.subjects,
                e0 == env@,
                csv.len() == n,
                i < n,
                ci == csv[i as int],
                clause.view() == ci,
                forall|k: int| 0 <= k < n ==> csv[k] == case.clauses@[k].view(),
                forall|k: int| 0 <= k < e0.len() ==> (#[trigger] e0[k]).1 < u32::MAX,
                bv == bindings_view(bindings@),
                bv.len() == nb,
                forall|k: int| 0 <= k < nb ==> bv[k] == bindings@[k].view(),
                binding_names(bv).no_duplicates(),
                snap.wf(),
                materialized_view(ms@) =~~= materialize_prefix(
                    bv,
                    ci.guard,
                    ci.body,
                    e0,
                    j as int,
                ).0,
                snap@ == materialize_prefix(bv, ci.guard, ci.body, e0, j as int).1,
                forall|nm: Seq<char>|
                    (forall|l: int| 0 <= l < j ==> bv[l].0 != nm) ==> env_lookup(snap@, nm)
                        == env_lookup(e0, nm),
            decreases nb - j,
        {
            let ghost pre_ms = materialized_view(ms@);
            let ghost pre_env = snap@;
            let name_ref = &bindings[j].name;
            if clause_references(clause, name_ref) {
                proof {
                    assert forall|l: int| 0 <= l < j implies bv[l].0 != bv[j as int].0 by {
                        assert(binding_names(bv)[l] != binding_names(bv)[j as int]);
                    }
                    assert(env_lookup(snap@, name_ref@) == env_lookup(e0, name_ref@));
                    if env_lookup(e0, name_ref@) is Some {
                        crate::env::lemma_env_index_of_props(e0, name_ref@);
                    }
                }
                let gen = snap.bind(name_ref);
                let mb = MaterializedBinding {
                    name: bindings[j].name.clone(),
                    generation: gen,
                    value: clone_target(&bindings[j].extraction_path),
                };
                proof {
                    assert(mb.view() == (bv[j as int].0, gen as nat, bv[j as int].1));
                }
                ms.push(mb);
                proof {
                    assert(materialized_view(ms@) =~~= pre_ms.push(
                        (bv[j as int].0, env_bind_generation(pre_env, bv[j as int].0) as nat, bv[j as int].1),
                    ));
                }
            }
            j += 1;
        }
        proof {
            assert(bv.take(nb as int) =~= bv);
        }

        // The body, compiled against the materialised locals.
        let body = compile_body(&clause.body, &ms, &snap, 0);

        let arm = Arm { test: combined, bindings: ms, body };
        let ghost arm_is_irrefutable = arm.test is None;
        proof {
            assert(arm.view().test == and_test(
                clause_test_spec(ci.pattern, sv),
                match ci.guard {
                    Option::Some(g) => Option::Some(
                        compile_guard_spec(
                            g,
                            clause_bindings_spec(ci.pattern, sv),
                            e0,
                            if clause_test_spec(ci.pattern, sv) is Some { 2 as nat } else { 0 },
                        ),
                    ),
                    Option::None => Option::None,
                },
            ));
            assert(arm.view().bindings =~~= arm_spec(ci, sv, e0).bindings);
            assert(arm.view().body == arm_spec(ci, sv, e0).body);
        }
        let is_final = match &arm.test {
            Option::None => true,
            Option::Some(_) => false,
        };
        let ghost pre_arms = arms@.map_values(|a: Arm| a.view());
        arms.push(arm);
        proof {
            assert(arms@.map_values(|a: Arm| a.view()) =~= pre_arms.push(arms@.last().view()));
            let spec_arm = arm_spec(ci, sv, e0);
            assert(arms@.last().view().test == spec_arm.test);
            if is_final {
                assert(seq![spec_arm] =~~= pre_arms.push(arms@.last().view()).skip(i as int));
            }
        }
        if is_final {
            stopped = true;
        }
        i += 1;
        proof {
            let full = lower_clauses_spec(csv, sv, e0, 0);
            let here = lower_clauses_spec(csv, sv, e0, i - 1);
            let next = lower_clauses_spec(csv, sv, e0, i as int);
            let spec_arm = arm_spec(csv[i - 1], sv, e0);
            assert(clause_error_spec(csv[i - 1], sv, e0, i - 1) is None);
            if is_final {
                assert(here == Result::<(Seq<ArmV>, bool), LowerError>::Ok((seq![spec_arm], false)));
                assert(arms@.map_values(|a: Arm| a.view()) =~~= pre_arms + seq![spec_arm]);
            } else {
                assert(here == (match next {
                    Result::Err(e) => Result::<(Seq<ArmV>, bool), LowerError>::Err(e),
                    Result::Ok(rest) => Result::Ok((seq![spec_arm] + rest.0, rest.1)),
                }));
                if next is Ok {
                    assert(arms@.map_values(|a: Arm| a.view()) + next->Ok_0.0 =~~= pre_arms + (
                    seq![spec_arm] + next->Ok_0.0));
                }
            }
        }
    }
    proof {
        if !stopped {
            assert(i == n);
            assert(lower_clauses_spec(csv, sv, e0, n as int) == Result::<
                (Seq<ArmV>, bool),
                LowerError,
            >::Ok((Seq::empty(), true)));
            assert(arms@.map_values(|a: Arm| a.view()) + Seq::<ArmV>::empty() =~~= arms@.map_values(
                |a: Arm| a.view(),
            ));
        }
    }
    let chain = Chain { arms, has_fallback: !stopped };
    Result::Ok(chain)
}

} // verus!
