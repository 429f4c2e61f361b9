use compiler_core::ast::{BinOp, GuardExpr, LiteralValue, Pattern};
use compiler_core::env::BindingEnvironment;
use compiler_core::lower::{CaseExpr, Clause, lower};
use compiler_core::printer::print_chain;
use compiler_core::target::TargetExpr;

fn int_lit(i: i64) -> GuardExpr {
    GuardExpr::Constant(LiteralValue::Integer(i))
}

fn var(name: &str) -> GuardExpr {
    GuardExpr::VariableRef(name.to_string())
}

fn bin(op: BinOp, l: GuardExpr, r: GuardExpr) -> GuardExpr {
    GuardExpr::BinaryOp(op, Box::new(l), Box::new(r))
}

/// Binds each parameter in a fresh environment, as the enclosing function
/// lowering would have done before reaching the case expression.
fn env_with_params(params: &[&str]) -> BindingEnvironment {
    let mut env = BindingEnvironment::new();
    for p in params {
        let g = env.bind(&p.to_string());
        assert_eq!(g, 0);
    }
    env
}

/// Wraps a lowered chain in the function and module text around it.
fn js_module(params: &[&str], prelude: &str, chain: &str) -> String {
    let mut out = String::from("\"use strict\";\n\nexport function main(");
    out.push_str(&params.join(", "));
    out.push_str(") {\n");
    out.push_str(prelude);
    out.push_str(chain);
    out.push_str("}\n");
    out
}

fn lower_to_text(case: &CaseExpr, env: &BindingEnvironment) -> String {
    let chain = lower(case, env).expect("lowering failed");
    print_chain(&chain, 1)
}

#[test]
fn guards_cause_badmatch_to_render() {
    // pub fn main(x, y) {
    //   case x {
    //     1 -> 1
    //     _ if y -> 0
    //   }
    // }
    let env = env_with_params(&["x", "y"]);
    let case = CaseExpr {
        subjects: vec![TargetExpr::Variable("x".to_string())],
        clauses: vec![
            Clause {
                pattern: Pattern::Literal(LiteralValue::Integer(1)),
                guard: None,
                body: int_lit(1),
            },
            Clause { pattern: Pattern::Wildcard, guard: Some(var("y")), body: int_lit(0) },
        ],
    };
    let text = js_module(&["x", "y"], "", &lower_to_text(&case, &env));
    assert_eq!(
        text,
        r#""use strict";

export function main(x, y) {
  if (x === 1) {
    return 1;
  } else if (y) {
    return 0;
  } else {
    throw new Error("Bad match");
  }
}
"#
    );
}

#[test]
fn referencing_pattern_var() {
    // pub fn main(xs) {
    //   case xs {
    //     #(x) if x -> 1
    //     _ -> 0
    //   }
    // }
    let env = env_with_params(&["xs"]);
    let case = CaseExpr {
        subjects: vec![TargetExpr::Variable("xs".to_string())],
        clauses: vec![
            Clause {
                pattern: Pattern::Tuple(vec![Pattern::Variable("x".to_string())]),
                guard: Some(var("x")),
                body: int_lit(1),
            },
            Clause { pattern: Pattern::Wildcard, guard: None, body: int_lit(0) },
        ],
    };
    let text = js_module(&["xs"], "", &lower_to_text(&case, &env));
    assert_eq!(
        text,
        r#""use strict";

export function main(xs) {
  if (xs[0]) {
    let x = xs[0];
    return 1;
  } else {
    return 0;
  }
}
"#
    );
}

#[test]
fn rebound_var() {
    // pub fn main() {
    //   let x = False
    //   let x = True
    //   case x {
    //     _ if x -> 1
    //     _ -> 0
    //   }
    // }
    let mut env = BindingEnvironment::new();
    let x = "x".to_string();
    let g0 = env.bind(&x);
    let first = env.rename(&x, g0);
    let g1 = env.bind(&x);
    let second = env.rename(&x, g1);
    let prelude = format!("  let {} = false;\n  let {} = true;\n", first, second);
    let case = CaseExpr {
        subjects: vec![TargetExpr::Variable(second.clone())],
        clauses: vec![
            Clause { pattern: Pattern::Wildcard, guard: Some(var("x")), body: int_lit(1) },
            Clause { pattern: Pattern::Wildcard, guard: None, body: int_lit(0) },
        ],
    };
    let text = js_module(&[], &prelude, &lower_to_text(&case, &env));
    assert_eq!(
        text,
        r#""use strict";

export function main() {
  let x = false;
  let x$1 = true;
  if (x$1) {
    return 1;
  } else {
    return 0;
  }
}
"#
    );
}

#[test]
fn operator_wrapping_right() {
    // pub fn main(xs, y, z) {
    //   case xs {
    //     #(x) if x == { y == z } -> 1
    //     _ -> 0
    //   }
    // }
    let env = env_with_params(&["xs", "y", "z"]);
    let case = CaseExpr {
        subjects: vec![TargetExpr::Variable("xs".to_string())],
        clauses: vec![
            Clause {
                pattern: Pattern::Tuple(vec![Pattern::Variable("x".to_string())]),
                guard: Some(bin(BinOp::Equal, var("x"), bin(BinOp::Equal, var("y"), var("z")))),
                body: int_lit(1),
            },
            Clause { pattern: Pattern::Wildcard, guard: None, body: int_lit(0) },
        ],
    };
    let text = js_module(&["xs", "y", "z"], "", &lower_to_text(&case, &env));
    assert_eq!(
        text,
        r#""use strict";

export function main(xs, y, z) {
  if (xs[0] === (y === z)) {
    let x = xs[0];
    return 1;
  } else {
    return 0;
  }
}
"#
    );
}

#[test]
fn operator_wrapping_left() {
    // pub fn main(xs, y, z) {
    //   case xs {
    //     #(x) if { x == y } == z -> 1
    //     _ -> 0
    //   }
    // }
    let env = env_with_params(&["xs", "y", "z"]);
    let case = CaseExpr {
        subjects: vec![TargetExpr::Variable("xs".to_string())],
        clauses: vec![
            Clause {
                pattern: Pattern::Tuple(vec![Pattern::Variable("x".to_string())]),
                guard: Some(bin(BinOp::Equal, bin(BinOp::Equal, var("x"), var("y")), var("z"))),
                body: int_lit(1),
            },
            Clause { pattern: Pattern::Wildcard, guard: None, body: int_lit(0) },
        ],
    };
    let text = js_module(&["xs", "y", "z"], "", &lower_to_text(&case, &env));
    assert_eq!(
        text,
        r#""use strict";

export function main(xs, y, z) {
  if ((xs[0] === y) === z) {
    let x = xs[0];
    return 1;
  } else {
    return 0;
  }
}
"#
    );
}

#[test]
fn eq_scalar() {
    // pub fn main(xs, y) {
    //   case xs {
    //     #(x) if x == y -> 1
    //     _ -> 0
    //   }
    // }
    let env = env_with_params(&["xs", "y"]);
    let case = CaseExpr {
        subjects: vec![TargetExpr::Variable("xs".to_string())],
        clauses: vec![
            Clause {
                pattern: Pattern::Tuple(vec![Pattern::Variable("x".to_string())]),
                guard: Some(bin(BinOp::Equal, var("x"), var("y"))),
                body: int_lit(1),
            },
            Clause { pattern: Pattern::Wildcard, guard: None, body: int_lit(0) },
        ],
    };
    let text = js_module(&["xs", "y"], "", &lower_to_text(&case, &env));
    assert_eq!(
        text,
        r#""use strict";

export function main(xs, y) {
  if (xs[0] === y) {
    let x = xs[0];
    return 1;
  } else {
    return 0;
  }
}
"#
    );
}

#[test]
fn not_eq_scalar() {
    // pub fn main(xs, y) {
    //   case xs {
    //     #(x) if x != y -> 1
    //     _ -> 0
    //   }
    // }
    let env = env_with_params(&["xs", "y"]);
    let case = CaseExpr {
        subjects: vec![TargetExpr::Variable("xs".to_string())],
        clauses: vec![
            Clause {
                pattern: Pattern::Tuple(vec![Pattern::Variable("x".to_string())]),
                guard: Some(bin(BinOp::NotEqual, var("x"), var("y"))),
                body: int_lit(1),
            },
            Clause { pattern: Pattern::Wildcard, guard: None, body: int_lit(0) },
        ],
    };
    let text = js_module(&["xs", "y"], "", &lower_to_text(&case, &env));
    assert_eq!(
        text,
        r#""use strict";

export function main(xs, y) {
  if (xs[0] !== y) {
    let x = xs[0];
    return 1;
  } else {
    return 0;
  }
}
"#
    );
}

#[test]
fn tuple_index() {
    // pub fn main(x, xs: #(Bool, Bool, Bool)) {
    //   case x {
    //     _ if xs.2 -> 1
    //     _ -> 0
    //   }
    // }
    let env = env_with_params(&["x", "xs"]);
    let case = CaseExpr {
        subjects: vec![TargetExpr::Variable("x".to_string())],
        clauses: vec![
            Clause {
                pattern: Pattern::Wildcard,
                guard: Some(GuardExpr::TupleAccess(Box::new(var("xs")), 2)),
                body: int_lit(1),
            },
            Clause { pattern: Pattern::Wildcard, guard: None, body: int_lit(0) },
        ],
    };
    let text = js_module(&["x", "xs"], "", &lower_to_text(&case, &env));
    assert_eq!(
        text,
        r#""use strict";

export function main(x, xs) {
  if (xs[2]) {
    return 1;
  } else {
    return 0;
  }
}
"#
    );
}
