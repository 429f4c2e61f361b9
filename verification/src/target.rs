//! Target-side syntax: the expressions and the if/else-if chain that lowering
//! emits, with their mathematical views.

use vstd::prelude::*;
use crate::ast::{BinOp, LiteralValue, LitV};

verus! {

/// Binary operators of the target language.
#[derive(Debug, Clone, Copy, PartialEq, Eq, Structural)]
pub enum TargetOp {
    StrictEqual,
    StrictNotEqual,
    And,
    Or,
}

/// A target-language expression.
#[derive(Debug)]
pub enum TargetExpr {
    Variable(String),
    Literal(LiteralValue),
    Index(Box<TargetExpr>, usize),
    Binary(TargetOp, Box<TargetExpr>, Box<TargetExpr>),
    Grouped(Box<TargetExpr>),
}

/// Mathematical view of a target expression.
pub enum TargetV {
    Variable(Seq<char>),
    Literal(LitV),
    Index(Box<TargetV>, nat),
    Binary(TargetOp, Box<TargetV>, Box<TargetV>),
    Grouped(Box<TargetV>),
}

impl TargetExpr {
    pub open spec fn view(self) -> TargetV
        decreases self,
    {
        match self {
            TargetExpr::Variable(n) => TargetV::Variable(n@),
            TargetExpr::Literal(l) => TargetV::Literal(l.view()),
            TargetExpr::Index(e, i) => TargetV::Index(Box::new((*e).view()), i as nat),
            TargetExpr::Binary(op, l, r) => TargetV::Binary(
                op,
                Box::new((*l).view()),
                Box::new((*r).view()),
            ),
            TargetExpr::Grouped(e) => TargetV::Grouped(Box::new((*e).view())),
        }
    }
}

/// The precedence the source operators carry over into the target language.
/// Disjunction binds loosest, conjunction tighter, the comparisons tightest.
pub open spec fn spec_precedence(op: BinOp) -> nat {
    match op {
        BinOp::Or => 1,
        BinOp::And => 2,
        BinOp::Equal => 3,
        BinOp::NotEqual => 3,
    }
}

pub fn precedence(op: BinOp) -> (p: u32)
    ensures
        p as nat == spec_precedence(op),
{
    match op {
        BinOp::Or => 1,
        BinOp::And => 2,
        BinOp::Equal => 3,
        BinOp::NotEqual => 3,
    }
}

pub open spec fn opt_target_view(o: Option<TargetExpr>) -> Option<TargetV> {
    match o {
        Option::None => Option::None,
        Option::Some(t) => Option::Some(t.view()),
    }
}

/// A structural copy of a literal.
pub fn clone_literal(l: &LiteralValue) -> (r: LiteralValue)
    ensures
        r.view() == l.view(),
{
    match l {
        LiteralValue::Boolean(b) => LiteralValue::Boolean(*b),
        LiteralValue::Integer(i) => LiteralValue::Integer(*i),
        LiteralValue::Text(s) => LiteralValue::Text(s.clone()),
    }
}

/// A structural copy of a target expression.
pub fn clone_target(e: &TargetExpr) -> (r: TargetExpr)
    ensures
        r.view() == e.view(),
    decreases e,
{
    match e {
        TargetExpr::Variable(n) => TargetExpr::Variable(n.clone()),
        TargetExpr::Literal(l) => TargetExpr::Literal(clone_literal(l)),
        TargetExpr::Index(inner, i) => TargetExpr::Index(Box::new(clone_target(inner)), *i),
        TargetExpr::Binary(op, l, r) => TargetExpr::Binary(
            *op,
            Box::new(clone_target(l)),
            Box::new(clone_target(r)),
        ),
        TargetExpr::Grouped(inner) => TargetExpr::Grouped(Box::new(clone_target(inner))),
    }
}

/// An extraction record: a pattern variable together with the target
/// expression that reads its value out of the subject.
#[derive(Debug)]
pub struct Binding {
    pub name: String,
    pub extraction_path: TargetExpr,
}

impl Binding {
    pub open spec fn view(self) -> (Seq<char>, TargetV) {
        (self.name@, self.extraction_path.view())
    }
}

pub open spec fn bindings_view(s: Seq<Binding>) -> Seq<(Seq<char>, TargetV)> {
    s.map_values(|b: Binding| b.view())
}

/// The names of a binding list, in order.
pub open spec fn binding_names(s: Seq<(Seq<char>, TargetV)>) -> Seq<Seq<char>> {
    s.map_values(|b: (Seq<char>, TargetV)| b.0)
}

/// A binding materialised inside a taken branch: the source name, the
/// generation the binding environment assigned, and the value it copies.
#[derive(Debug)]
pub struct MaterializedBinding {
    pub name: String,
    pub generation: u32,
    pub value: TargetExpr,
}

impl MaterializedBinding {
    pub open spec fn view(self) -> (Seq<char>, nat, TargetV) {
        (self.name@, self.generation as nat, self.value.view())
    }
}

pub open spec fn materialized_view(s: Seq<MaterializedBinding>) -> Seq<(Seq<char>, nat, TargetV)> {
    s.map_values(|b: MaterializedBinding| b.view())
}

/// One branch of the emitted chain: its combined test (`None` for an
/// irrefutable, guardless clause), the bindings materialised inside the
/// branch, and the expression the branch returns.
#[derive(Debug)]
pub struct Arm {
    pub test: Option<TargetExpr>,
    pub bindings: Vec<MaterializedBinding>,
    pub body: TargetExpr,
}

/// Mathematical view of an arm.
pub struct ArmV {
    pub test: Option<TargetV>,
    pub bindings: Seq<(Seq<char>, nat, TargetV)>,
    pub body: TargetV,
}

impl Arm {
    pub open spec fn view(self) -> ArmV {
        ArmV {
            test: match self.test {
                Option::None => Option::None,
                Option::Some(t) => Option::Some(t.view()),
            },
            bindings: materialized_view(self.bindings@),
            body: self.body.view(),
        }
    }
}

/// The whole emitted if/else-if chain. `has_fallback` says whether the
/// terminal branch raising the runtime match failure is present.
#[derive(Debug)]
pub struct Chain {
    pub arms: Vec<Arm>,
    pub has_fallback: bool,
}

/// Mathematical view of a chain.
pub struct ChainV {
    pub arms: Seq<ArmV>,
    pub has_fallback: bool,
}

impl Chain {
    pub open spec fn view(self) -> ChainV {
        ChainV { arms: self.arms@.map_values(|a: Arm| a.view()), has_fallback: self.has_fallback }
    }
}

} // verus!
