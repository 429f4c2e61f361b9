//! The pattern matcher: turns one pattern into a boolean test expression and
//! an ordered list of variable-binding extraction records.

use vstd::prelude::*;
use crate::ast::{Pattern, PatternV, pattern_seq_view, pattern_variables, pattern_seq_variables};
use crate::target::{
    TargetExpr, TargetV, TargetOp, Binding, bindings_view, binding_names, opt_target_view,
    clone_target, clone_literal,
};

verus! {

/// Conjunction of two optional tests; a missing test is trivially true and is
/// omitted rather than emitted.
pub open spec fn and_test(a: Option<TargetV>, b: Option<TargetV>) -> Option<TargetV> {
    match (a, b) {
        (Option::None, x) => x,
        (Option::Some(x), Option::None) => Option::Some(x),
        (Option::Some(x), Option::Some(y)) => Option::Some(
            TargetV::Binary(TargetOp::And, Box::new(x), Box::new(y)),
        ),
    }
}

/// The structural test a pattern compiles to against a given extraction path:
/// nothing for wildcards and variables, a strict-equality comparison for a
/// literal, and the left-to-right conjunction of the element tests for a
/// tuple.
pub open spec fn pattern_test_spec(p: PatternV, base: TargetV) -> Option<TargetV>
    decreases p,
{
    match p {
        PatternV::Wildcard => Option::None,
        PatternV::Variable(_) => Option::None,
        PatternV::Literal(l) => Option::Some(
            TargetV::Binary(
                TargetOp::StrictEqual,
                Box::new(base),
                Box::new(TargetV::Literal(l)),
            ),
        ),
        PatternV::Tuple(elems) => tuple_test_spec(elems, base),
    }
}

pub open spec fn tuple_test_spec(elems: Seq<PatternV>, base: TargetV) -> Option<TargetV>
    decreases elems,
{
    if elems.len() == 0 {
        Option::None
    } else {
        and_test(
            tuple_test_spec(elems.drop_last(), base),
            pattern_test_spec(
                elems.last(),
                TargetV::Index(Box::new(base), (elems.len() - 1) as nat),
            ),
        )
    }
}

/// The bindings a pattern produces against a given extraction path, in
/// left-to-right, depth-first order.
pub open spec fn pattern_bindings_spec(p: PatternV, base: TargetV) -> Seq<(Seq<char>, TargetV)>
    decreases p,
{
    match p {
        PatternV::Wildcard => Seq::empty(),
        PatternV::Literal(_) => Seq::empty(),
        PatternV::Variable(n) => seq![(n, base)],
        PatternV::Tuple(elems) => tuple_bindings_spec(elems, base),
    }
}

pub open spec fn tuple_bindings_spec(elems: Seq<PatternV>, base: TargetV) -> Seq<
    (Seq<char>, TargetV),
>
    decreases elems,
{
    if elems.len() == 0 {
        Seq::empty()
    } else {
        tuple_bindings_spec(elems.drop_last(), base) + pattern_bindings_spec(
            elems.last(),
            TargetV::Index(Box::new(base), (elems.len() - 1) as nat),
        )
    }
}

/// Every element of the view sequence is the view of the element.
pub proof fn lemma_pattern_seq_view_index(s: Seq<Pattern>)
    ensures
        pattern_seq_view(s).len() == s.len(),
        forall|i: int| 0 <= i < s.len() ==> pattern_seq_view(s)[i] == s[i].view(),
    decreases s,
{
    if s.len() > 0 {
        lemma_pattern_seq_view_index(s.drop_last());
    }
}

/// The matcher binds exactly the variables the pattern declares, in
/// declaration order, whatever the nesting depth; the extraction paths are the
/// ones recorded beside them.
pub proof fn lemma_match_binds_declared_variables(p: PatternV, base: TargetV)
    ensures
        binding_names(pattern_bindings_spec(p, base)) =~= pattern_variables(p),
    decreases p,
{
    match p {
        PatternV::Tuple(elems) => {
            lemma_tuple_binds_declared_variables(elems, base);
        },
        _ => {},
    }
}

pub proof fn lemma_tuple_binds_declared_variables(elems: Seq<PatternV>, base: TargetV)
    ensures
        binding_names(tuple_bindings_spec(elems, base)) =~= pattern_seq_variables(elems),
    decreases elems,
{
    if elems.len() > 0 {
        lemma_tuple_binds_declared_variables(elems.drop_last(), base);
        lemma_match_binds_declared_variables(
            elems.last(),
            TargetV::Index(Box::new(base), (elems.len() - 1) as nat),
        );
    }
}

pub fn combine_tests(a: Option<TargetExpr>, b: Option<TargetExpr>) -> (r: Option<TargetExpr>)
    ensures
        opt_target_view(r) == and_test(opt_target_view(a), opt_target_view(b)),
{
    match (a, b) {
        (Option::None, x) => x,
        (Option::Some(x), Option::None) => Option::Some(x),
        (Option::Some(x), Option::Some(y)) => Option::Some(
            TargetExpr::Binary(TargetOp::And, Box::new(x), Box::new(y)),
        ),
    }
}

/// Matches one pattern against the expression `base` reads, producing the
/// boolean test (`None` when the pattern is irrefutable) and the ordered
/// bindings. A pure tree-to-tree transform: total, no side effects.
pub fn match_pattern(p: &Pattern, base: &TargetExpr) -> (r: (Option<TargetExpr>, Vec<Binding>))
    ensures
        opt_target_view(r.0) == pattern_test_spec(p.view(), base.view()),
        bindings_view(r.1@) =~= pattern_bindings_spec(p.view(), base.view()),
    decreases p.view(),
{
    match p {
        Pattern::Wildcard => (Option::None, Vec::new()),
        Pattern::Literal(l) => {
            let base_c = clone_target(base);
            let lit_e = TargetExpr::Literal(clone_literal(l));
            proof {
                assert(lit_e.view() == TargetV::Literal(l.view()));
            }
            let test = TargetExpr::Binary(TargetOp::StrictEqual, Box::new(base_c), Box::new(lit_e));
            proof {
                assert(test.view() == TargetV::Binary(
                    TargetOp::StrictEqual,
                    Box::new(base.view()),
                    Box::new(TargetV::Literal(l.view())),
                ));
            }
            (Option::Some(test), Vec::new())
        },
        Pattern::Variable(n) => {
            let b = Binding { name: n.clone(), extraction_path: clone_target(base) };
            let mut v: Vec<Binding> = Vec::new();
            v.push(b);
            proof {
                assert(bindings_view(v@) =~= pattern_bindings_spec(p.view(), base.view()));
            }
            (Option::None, v)
        },
        Pattern::Tuple(elems) => {
            let ghost vs = pattern_seq_view(elems@);
            proof {
                lemma_pattern_seq_view_index(elems@);
            }
            let n = elems.len();
            let mut test: Option<TargetExpr> = Option::None;
            let mut bindings: Vec<Binding> = Vec::new();
            let mut i: usize = 0;
            while i < n
                invariant
                    n == elems.len(),
                    i <= n,
                    p.view() == PatternV::Tuple(vs),
                    vs == pattern_seq_view(elems@),
                    vs.len() == n,
                    forall|j: int| 0 <= j < n ==> vs[j] == elems@[j].view(),
                    opt_target_view(test) == tuple_test_spec(vs.take(i as int), base.view()),
                    bindings_view(bindings@) =~= tuple_bindings_spec(
                        vs.take(i as int),
                        base.view(),
                    ),
                decreases n - i,
            {
                let elem_base = TargetExpr::Index(Box::new(clone_target(base)), i);
                proof {
                    let ghost pv = p.view();
                    assert(decreases_to!(pv => pv->Tuple_0));
                    assert(decreases_to!(vs => vs[i as int]));
                    assert(decreases_to!(pv => elems@[i as int].view()));
                }
                let (t, mut bs) = match_pattern(&elems[i], &elem_base);
                let ghost pre_test = opt_target_view(test);
                let ghost pre_binds = bindings_view(bindings@);
                test = combine_tests(test, t);
                bindings.append(&mut bs);
                proof {
                    assert(vs.take(i + 1 as int).drop_last() =~= vs.take(i as int));
                    assert(vs.take(i + 1 as int).last() == vs[i as int]);
                    assert(opt_target_view(test) == tuple_test_spec(
                        vs.take(i + 1 as int),
                        base.view(),
                    ));
                    assert(bindings_view(bindings@) =~= pre_binds + pattern_bindings_spec(
                        vs[i as int],
                        TargetV::Index(Box::new(base.view()), i as nat),
                    ));
                    assert(bindings_view(bindings@) =~= tuple_bindings_spec(
                        vs.take(i + 1 as int),
                        base.view(),
                    ));
                }
                i += 1;
            }
            proof {
                assert(vs.take(n as int) =~= vs);
                assert(opt_target_view(test) == pattern_test_spec(p.view(), base.view()));
            }
            (test, bindings)
        },
    }
}

} // verus!
