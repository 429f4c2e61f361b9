use compiler_core::ast::{BinOp, GuardExpr, LiteralValue, Pattern};
use compiler_core::env::BindingEnvironment;
use compiler_core::lower::{CaseExpr, Clause, LowerError, lower};
use compiler_core::matcher::match_pattern;
use compiler_core::printer::{print_chain, print_expr};
use compiler_core::target::TargetExpr;

fn int_lit(i: i64) -> GuardExpr {
    GuardExpr::Constant(LiteralValue::Integer(i))
}

fn var(name: &str) -> GuardExpr {
    GuardExpr::VariableRef(name.to_string())
}

fn subject(name: &str) -> TargetExpr {
    TargetExpr::Variable(name.to_string())
}

fn env_with(params: &[&str]) -> BindingEnvironment {
    let mut env = BindingEnvironment::new();
    for p in params {
        env.bind(&p.to_string());
    }
    env
}

#[test]
fn match_binds_exactly_declared_variables_in_order() {
    // #(a, #(b, 1)) against s: a reads s[0], b reads s[1][0]; nothing else.
    let pattern = Pattern::Tuple(vec![
        Pattern::Variable("a".to_string()),
        Pattern::Tuple(vec![
            Pattern::Variable("b".to_string()),
            Pattern::Literal(LiteralValue::Integer(1)),
        ]),
    ]);
    let (test, bindings) = match_pattern(&pattern, &subject("s"));
    let names: Vec<&str> = bindings.iter().map(|b| b.name.as_str()).collect();
    assert_eq!(names, vec!["a", "b"]);
    assert_eq!(print_expr(&bindings[0].extraction_path), "s[0]");
    assert_eq!(print_expr(&bindings[1].extraction_path), "s[1][0]");
    assert_eq!(print_expr(&test.unwrap()), "s[1][1] === 1");
}

#[test]
fn clauses_are_tested_in_declaration_order() {
    // Two wholly overlapping guarded clauses: whichever is declared first is
    // tested first, under either permutation.
    let env = env_with(&["a", "b"]);
    let ordered = CaseExpr {
        subjects: vec![subject("a")],
        clauses: vec![
            Clause { pattern: Pattern::Wildcard, guard: Some(var("a")), body: int_lit(1) },
            Clause { pattern: Pattern::Wildcard, guard: Some(var("b")), body: int_lit(2) },
        ],
    };
    let swapped = CaseExpr {
        subjects: vec![subject("a")],
        clauses: vec![
            Clause { pattern: Pattern::Wildcard, guard: Some(var("b")), body: int_lit(2) },
            Clause { pattern: Pattern::Wildcard, guard: Some(var("a")), body: int_lit(1) },
        ],
    };
    let t1 = print_chain(&lower(&ordered, &env).unwrap(), 0);
    let t2 = print_chain(&lower(&swapped, &env).unwrap(), 0);
    assert_eq!(
        t1,
        "if (a) {\n  return 1;\n} else if (b) {\n  return 2;\n} else {\n  throw new Error(\"Bad match\");\n}\n"
    );
    assert_eq!(
        t2,
        "if (b) {\n  return 2;\n} else if (a) {\n  return 1;\n} else {\n  throw new Error(\"Bad match\");\n}\n"
    );
}

#[test]
fn first_irrefutable_clause_ends_the_chain() {
    // A leading irrefutable, guardless clause decides the whole case at
    // compile time: no conditional, no fallback.
    let env = env_with(&["a"]);
    let case = CaseExpr {
        subjects: vec![subject("a")],
        clauses: vec![
            Clause { pattern: Pattern::Variable("v".to_string()), guard: None, body: var("v") },
            Clause { pattern: Pattern::Wildcard, guard: None, body: int_lit(0) },
        ],
    };
    let chain = lower(&case, &env).unwrap();
    assert!(!chain.has_fallback);
    assert_eq!(print_chain(&chain, 0), "let v = a;\nreturn v;\n");
}

#[test]
fn shadowing_pattern_variable_gets_fresh_generation() {
    // A pattern variable that shadows an outer binding materialises under a
    // fresh, distinct identifier.
    let env = env_with(&["xs", "x"]);
    let case = CaseExpr {
        subjects: vec![subject("xs")],
        clauses: vec![
            Clause {
                pattern: Pattern::Tuple(vec![Pattern::Variable("x".to_string())]),
                guard: Some(var("x")),
                body: int_lit(1),
            },
            Clause { pattern: Pattern::Wildcard, guard: None, body: int_lit(0) },
        ],
    };
    let text = print_chain(&lower(&case, &env).unwrap(), 0);
    assert_eq!(
        text,
        "if (xs[0]) {\n  let x$1 = xs[0];\n  return 1;\n} else {\n  return 0;\n}\n"
    );
}

#[test]
fn rename_generations_are_pairwise_distinct() {
    let env = BindingEnvironment::new();
    let x = "x".to_string();
    let mut seen: Vec<String> = Vec::new();
    for g in 0..12u32 {
        let ident = env.rename(&x, g);
        assert!(!seen.contains(&ident), "identifier {} repeated", ident);
        seen.push(ident);
    }
    assert_eq!(seen[0], "x");
    assert_eq!(seen[1], "x$1");
    assert_eq!(seen[10], "x$10");
}

#[test]
fn resolve_follows_the_nearest_binding() {
    let mut env = BindingEnvironment::new();
    let a = "a".to_string();
    let b = "b".to_string();
    assert_eq!(env.resolve(&a), None);
    assert_eq!(env.bind(&a), 0);
    assert_eq!(env.bind(&b), 0);
    assert_eq!(env.bind(&a), 1);
    assert_eq!(env.resolve(&a), Some(1));
    assert_eq!(env.resolve(&b), Some(0));
}

#[test]
fn empty_clause_list_is_rejected() {
    let env = env_with(&["a"]);
    let case = CaseExpr { subjects: vec![subject("a")], clauses: vec![] };
    assert_eq!(lower(&case, &env).unwrap_err(), LowerError::EmptyClauses);
}

#[test]
fn arity_mismatch_is_rejected() {
    // Two subjects need a two-element tuple pattern.
    let env = env_with(&["a", "b"]);
    let case = CaseExpr {
        subjects: vec![subject("a"), subject("b")],
        clauses: vec![Clause {
            pattern: Pattern::Tuple(vec![Pattern::Wildcard]),
            guard: None,
            body: int_lit(0),
        }],
    };
    assert_eq!(lower(&case, &env).unwrap_err(), LowerError::ArityMismatch { clause: 0 });
}

#[test]
fn duplicate_pattern_variable_is_rejected() {
    let env = env_with(&["xs"]);
    let case = CaseExpr {
        subjects: vec![subject("xs")],
        clauses: vec![
            Clause {
                pattern: Pattern::Tuple(vec![
                    Pattern::Variable("x".to_string()),
                    Pattern::Variable("x".to_string()),
                ]),
                guard: None,
                body: int_lit(1),
            },
            Clause { pattern: Pattern::Wildcard, guard: None, body: int_lit(0) },
        ],
    };
    assert_eq!(
        lower(&case, &env).unwrap_err(),
        LowerError::DuplicatePatternVariable { clause: 0 }
    );
}

#[test]
fn unbound_guard_variable_is_rejected() {
    let env = env_with(&["a"]);
    let case = CaseExpr {
        subjects: vec![subject("a")],
        clauses: vec![Clause { pattern: Pattern::Wildcard, guard: Some(var("z")), body: int_lit(0) }],
    };
    assert_eq!(lower(&case, &env).unwrap_err(), LowerError::UnboundGuardVariable { clause: 0 });
}

#[test]
fn structural_test_precedes_guard_in_the_conjunction() {
    // The pattern test stands left of the guard, so the target's short-circuit
    // conjunction never evaluates the guard when the structure already failed,
    // and no extraction runs outside the taken branch.
    let env = env_with(&["xs", "y"]);
    let case = CaseExpr {
        subjects: vec![subject("xs")],
        clauses: vec![
            Clause {
                pattern: Pattern::Tuple(vec![
                    Pattern::Variable("x".to_string()),
                    Pattern::Literal(LiteralValue::Integer(7)),
                ]),
                guard: Some(var("y")),
                body: var("x"),
            },
            Clause { pattern: Pattern::Wildcard, guard: None, body: int_lit(0) },
        ],
    };
    let text = print_chain(&lower(&case, &env).unwrap(), 0);
    assert_eq!(
        text,
        "if (xs[1] === 7 && y) {\n  let x = xs[0];\n  return x;\n} else {\n  return 0;\n}\n"
    );
}

#[test]
fn literals_render_exactly() {
    assert_eq!(print_expr(&TargetExpr::Literal(LiteralValue::Integer(-5))), "-5");
    assert_eq!(print_expr(&TargetExpr::Literal(LiteralValue::Integer(0))), "0");
    assert_eq!(
        print_expr(&TargetExpr::Literal(LiteralValue::Integer(9007199254740991))),
        "9007199254740991"
    );
    assert_eq!(print_expr(&TargetExpr::Literal(LiteralValue::Boolean(true))), "true");
    assert_eq!(print_expr(&TargetExpr::Literal(LiteralValue::Boolean(false))), "false");
    assert_eq!(
        print_expr(&TargetExpr::Literal(LiteralValue::Text("hi".to_string()))),
        "\"hi\""
    );
}

#[test]
fn or_operands_group_against_and() {
    // a || b under an && parent keeps its grouping; equal precedence also
    // groups, so the emitted text re-reads the same under any associativity.
    let env = env_with(&["a", "b", "c"]);
    let case = CaseExpr {
        subjects: vec![subject("a")],
        clauses: vec![
            Clause {
                pattern: Pattern::Wildcard,
                guard: Some(GuardExpr::BinaryOp(
                    BinOp::And,
                    Box::new(var("b")),
                    Box::new(GuardExpr::BinaryOp(
                        BinOp::Or,
                        Box::new(var("c")),
                        Box::new(var("a")),
                    )),
                )),
                body: int_lit(1),
            },
            Clause { pattern: Pattern::Wildcard, guard: None, body: int_lit(0) },
        ],
    };
    let text = print_chain(&lower(&case, &env).unwrap(), 0);
    assert_eq!(
        text,
        "if (b && (c || a)) {\n  return 1;\n} else {\n  return 0;\n}\n"
    );
}

#[test]
fn every_permutation_keeps_declaration_order() {
    // Three wholly overlapping guarded clauses under every permutation: the
    // emitted chain always tests them in the order they were declared, so
    // whichever guard is true first in declaration order decides the body.
    let perms: [[usize; 3]; 6] = [
        [0, 1, 2],
        [0, 2, 1],
        [1, 0, 2],
        [1, 2, 0],
        [2, 0, 1],
        [2, 1, 0],
    ];
    let guards = ["p", "q", "r"];
    let env = env_with(&["s", "p", "q", "r"]);
    for perm in perms.iter() {
        let case = CaseExpr {
            subjects: vec![subject("s")],
            clauses: perm
                .iter()
                .map(|&k| Clause {
                    pattern: Pattern::Wildcard,
                    guard: Some(var(guards[k])),
                    body: int_lit(k as i64),
                })
                .collect(),
        };
        let text = print_chain(&lower(&case, &env).unwrap(), 0);
        let expected = format!(
            "if ({}) {{\n  return {};\n}} else if ({}) {{\n  return {};\n}} else if ({}) {{\n  return {};\n}} else {{\n  throw new Error(\"Bad match\");\n}}\n",
            guards[perm[0]], perm[0], guards[perm[1]], perm[1], guards[perm[2]], perm[2],
        );
        assert_eq!(text, expected);
    }
}
