//! Rendering of target expressions and emitted chains as program text, with
//! an exact character-level statement of what is printed.

use vstd::prelude::*;
use crate::ast::LitV;
use crate::format::dec_spec;
use crate::env::{rename_spec, rename_identifier};
use crate::target::{TargetExpr, TargetV, TargetOp, Arm, ArmV, Chain, ChainV, MaterializedBinding};

verus! {

/// The text of a target operator, spaces included.
pub open spec fn op_text(op: TargetOp) -> Seq<char> {
    match op {
        TargetOp::StrictEqual => " === "@,
        TargetOp::StrictNotEqual => " !== "@,
        TargetOp::And => " && "@,
        TargetOp::Or => " || "@,
    }
}

/// The text of an integer, a minus sign before the decimal digits of its
/// magnitude.
pub open spec fn int_text(i: int) -> Seq<char> {
    if i >= 0 {
        dec_spec(i as nat)
    } else {
        "-"@ + dec_spec((-i) as nat)
    }
}

/// The text of a literal. Text literals print between plain double quotes.
pub open spec fn lit_text(l: LitV) -> Seq<char> {
    match l {
        LitV::Boolean(b) => if b {
            "true"@
        } else {
            "false"@
        },
        LitV::Integer(i) => int_text(i),
        LitV::Text(s) => "\""@ + s + "\""@,
    }
}

/// The text of a target expression; only `Grouped` nodes print parentheses.
pub open spec fn expr_text(t: TargetV) -> Seq<char>
    decreases t,
{
    match t {
        TargetV::Variable(n) => n,
        TargetV::Literal(l) => lit_text(l),
        TargetV::Index(e, i) => expr_text(*e) + "["@ + dec_spec(i) + "]"@,
        TargetV::Binary(op, l, r) => expr_text(*l) + op_text(op) + expr_text(*r),
        TargetV::Grouped(e) => "("@ + expr_text(*e) + ")"@,
    }
}

/// `n` levels of two-space indentation.
pub open spec fn spaces(n: nat) -> Seq<char>
    decreases n,
{
    if n == 0 {
        Seq::empty()
    } else {
        spaces((n - 1) as nat) + "  "@
    }
}

/// One materialised binding as a local definition.
pub open spec fn let_text(b: (Seq<char>, nat, TargetV), ind: nat) -> Seq<char> {
    spaces(ind) + "let "@ + rename_spec(b.0, b.1) + " = "@ + expr_text(b.2) + ";\n"@
}

/// The first `k` local definitions of an arm.
pub open spec fn lets_text(ms: Seq<(Seq<char>, nat, TargetV)>, ind: nat, k: int) -> Seq<char>
    decreases k,
{
    if k <= 0 {
        Seq::empty()
    } else {
        lets_text(ms, ind, k - 1) + let_text(ms[k - 1], ind)
    }
}

/// The inside of one branch: its local definitions, then the returned value.
pub open spec fn arm_body_text(arm: ArmV, ind: nat) -> Seq<char> {
    lets_text(arm.bindings, ind + 1, arm.bindings.len() as int) + spaces(ind + 1) + "return "@
        + expr_text(arm.body) + ";\n"@
}

/// The branch opener: `if` for the first arm, `else if` after, a bare `else`
/// for an irrefutable arm.
pub open spec fn arm_header_text(arm: ArmV, first: bool, ind: nat) -> Seq<char> {
    match arm.test {
        Option::Some(t) => spaces(ind) + (if first {
            "if ("@
        } else {
            "} else if ("@
        }) + expr_text(t) + ") {\n"@,
        Option::None => spaces(ind) + "} else {\n"@,
    }
}

/// The first `k` arms of a chain.
pub open spec fn arms_text(arms: Seq<ArmV>, ind: nat, k: int) -> Seq<char>
    decreases k,
{
    if k <= 0 {
        Seq::empty()
    } else {
        arms_text(arms, ind, k - 1) + arm_header_text(arms[k - 1], k == 1, ind) + arm_body_text(
            arms[k - 1],
            ind,
        )
    }
}

/// How the chain closes: the terminal runtime failure when no clause was
/// statically exhaustive, a bare closing brace otherwise.
pub open spec fn chain_tail_text(has_fallback: bool, ind: nat) -> Seq<char> {
    if has_fallback {
        spaces(ind) + "} else {\n"@ + spaces(ind + 1) + "throw new Error(\"Bad match\");\n"@
            + spaces(ind) + "}\n"@
    } else {
        spaces(ind) + "}\n"@
    }
}

/// The whole chain. A chain whose first arm is irrefutable is the case
/// expression decided at compile time: its branch body prints alone, with no
/// conditional around it.
pub open spec fn chain_text(c: ChainV, ind: nat) -> Seq<char> {
    if c.arms.len() >= 1 && c.arms[0].test is None {
        lets_text(c.arms[0].bindings, ind, c.arms[0].bindings.len() as int) + spaces(ind)
            + "return "@ + expr_text(c.arms[0].body) + ";\n"@
    } else {
        arms_text(c.arms, ind, c.arms.len() as int) + chain_tail_text(c.has_fallback, ind)
    }
}

/// Renders an integer literal in decimal.
pub fn format_i64(i: i64) -> (r: String)
    ensures
        r@ == int_text(i as int),
{
    if i >= 0 {
        crate::format::format_u64(i as u64)
    } else {
        let mut s = "-".to_owned();
        let m: u64 = if i == i64::MIN {
            9223372036854775808u64
        } else {
            (-i) as u64
        };
        proof {
            assert(m as nat == (-(i as int)) as nat);
        }
        let tag = crate::format::format_u64(m);
        s.append(tag.as_str());
        proof {
            assert(s@ =~= int_text(i as int));
        }
        s
    }
}

/// Renders a target expression, as `expr_text` states.
pub fn print_expr(e: &TargetExpr) -> (r: String)
    ensures
        r@ == expr_text(e.view()),
    decreases e,
{
    match e {
        TargetExpr::Variable(n) => n.clone(),
        TargetExpr::Literal(l) => {
            match l {
                crate::ast::LiteralValue::Boolean(b) => {
                    if *b {
                        "true".to_owned()
                    } else {
                        "false".to_owned()
                    }
                },
                crate::ast::LiteralValue::Integer(i) => format_i64(*i),
                crate::ast::LiteralValue::Text(s) => {
                    let mut out = "\"".to_owned();
                    out.append(s.as_str());
                    out.append("\"");
                    proof {
                        assert(out@ =~= expr_text(e.view()));
                    }
                    out
                },
            }
        },
        TargetExpr::Index(inner, i) => {
            let mut out = print_expr(inner);
            out.append("[");
            let idx = crate::format::format_u64(*i as u64);
            out.append(idx.as_str());
            out.append("]");
            proof {
                assert(out@ =~= expr_text(e.view()));
            }
            out
        },
        TargetExpr::Binary(op, l, r) => {
            let mut out = print_expr(l);
            match op {
                TargetOp::StrictEqual => out.append(" === "),
                TargetOp::StrictNotEqual => out.append(" !== "),
                TargetOp::And => out.append(" && "),
                TargetOp::Or => out.append(" || "),
            }
            let rs = print_expr(r);
            out.append(rs.as_str());
            proof {
                assert(out@ =~= expr_text(e.view()));
            }
            out
        },
        TargetExpr::Grouped(inner) => {
            let mut out = "(".to_owned();
            let is = print_expr(inner);
            out.append(is.as_str());
            out.append(")");
            proof {
                assert(out@ =~= expr_text(e.view()));
            }
            out
        },
    }
}

/// Two spaces per indentation level.
pub fn make_spaces(ind: usize) -> (r: String)
    ensures
        r@ == spaces(ind as nat),
{
    let mut out = String::new();
    let mut k: usize = 0;
    while k < ind
        invariant
            k <= ind,
            out@ == spaces(k as nat),
        decreases ind - k,
    {
        out.append("  ");
        k += 1;
    }
    out
}

/// Renders the local definitions of an arm.
fn print_lets(ms: &Vec<MaterializedBinding>, ind: usize) -> (r: String)
    requires
        ind < 1001,
    ensures
        r@ == lets_text(crate::target::materialized_view(ms@), ind as nat, ms@.len() as int),
{
    let ghost mv = crate::target::materialized_view(ms@);
    let mut out = String::new();
    let n = ms.len();
    let mut k: usize = 0;
    while k < n
        invariant
            n == ms.len(),
            k <= n,
            ind < 1001,
            mv == crate::target::materialized_view(ms@),
            mv.len() == n,
            forall|j: int| 0 <= j < n ==> mv[j] == ms@[j].view(),
            out@ == lets_text(mv, ind as nat, k as int),
        decreases n - k,
    {
        let sp = make_spaces(ind);
        out.append(sp.as_str());
        out.append("let ");
        let ident = rename_identifier(&ms[k].name, ms[k].generation);
        out.append(ident.as_str());
        out.append(" = ");
        let val = print_expr(&ms[k].value);
        out.append(val.as_str());
        out.append(";\n");
        proof {
            assert(out@ =~= lets_text(mv, ind as nat, k + 1 as int));
        }
        k += 1;
    }
    out
}

fn print_arm_body(arm: &Arm, ind: usize) -> (r: String)
    requires
        ind < 999,
    ensures
        r@ == arm_body_text(arm.view(), ind as nat),
{
    let mut out = print_lets(&arm.bindings, ind + 1);
    let sp = make_spaces(ind + 1);
    out.append(sp.as_str());
    out.append("return ");
    let body = print_expr(&arm.body);
    out.append(body.as_str());
    out.append(";\n");
    proof {
        assert(out@ =~= arm_body_text(arm.view(), ind as nat));
    }
    out
}

/// Renders the emitted chain as an if/else-if/else text block at the given
/// indentation depth, as `chain_text` states.
pub fn print_chain(chain: &Chain, indent: usize) -> (r: String)
    requires
        indent < 999,
    ensures
        r@ == chain_text(chain.view(), indent as nat),
{
    let ghost cva = chain.view().arms;
    let n = chain.arms.len();
    let first_irrefutable = if n >= 1 {
        match &chain.arms[0].test {
            Option::None => true,
            Option::Some(_) => false,
        }
    } else {
        false
    };
    if first_irrefutable {
        let mut out = print_lets(&chain.arms[0].bindings, indent);
        let sp = make_spaces(indent);
        out.append(sp.as_str());
        out.append("return ");
        let body = print_expr(&chain.arms[0].body);
        out.append(body.as_str());
        out.append(";\n");
        proof {
            assert(cva[0] == chain.arms@[0].view());
            assert(out@ =~= chain_text(chain.view(), indent as nat));
        }
        out
    } else {
        let mut out = String::new();
        let mut k: usize = 0;
        while k < n
            invariant
                n == chain.arms.len(),
                k <= n,
                indent < 999,
                cva == chain.view().arms,
                cva.len() == n,
                forall|j: int| 0 <= j < n ==> cva[j] == chain.arms@[j].view(),
                out@ == arms_text(cva, indent as nat, k as int),
            decreases n - k,
        {
            let arm = &chain.arms[k];
            let sp = make_spaces(indent);
            out.append(sp.as_str());
            match &arm.test {
                Option::Some(t) => {
                    if k == 0 {
                        out.append("if (");
                    } else {
                        out.append("} else if (");
                    }
                    let ts = print_expr(t);
                    out.append(ts.as_str());
                    out.append(") {\n");
                },
                Option::None => {
                    out.append("} else {\n");
                },
            }
            let body = print_arm_body(arm, indent);
            out.append(body.as_str());
            proof {
                assert(out@ =~= arms_text(cva, indent as nat, k + 1 as int));
            }
            k += 1;
        }
        let sp = make_spaces(indent);
        if chain.has_fallback {
            out.append(sp.as_str());
            out.append("} else {\n");
            let sp2 = make_spaces(indent + 1);
            out.append(sp2.as_str());
            out.append("throw new Error(\"Bad match\");\n");
            out.append(sp.as_str());
            out.append("}\n");
        } else {
            out.append(sp.as_str());
            out.append("}\n");
        }
        proof {
            assert(out@ =~= chain_text(chain.view(), indent as nat));
        }
        out
    }
}

} // verus!
