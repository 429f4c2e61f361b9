//! Source-side abstract syntax: patterns, guard expressions, clauses and case
//! expressions, with their mathematical views.

use vstd::prelude::*;

verus! {

/// A literal value as it appears in patterns and guard constants.
#[derive(Debug)]
pub enum LiteralValue {
    Boolean(bool),
    Integer(i64),
    Text(String),
}

/// Mathematical view of a literal.
pub enum LitV {
    Boolean(bool),
    Integer(int),
    Text(Seq<char>),
}

impl LiteralValue {
    pub open spec fn view(self) -> LitV {
        match self {
            LiteralValue::Boolean(b) => LitV::Boolean(b),
            LiteralValue::Integer(i) => LitV::Integer(i as int),
            LiteralValue::Text(s) => LitV::Text(s@),
        }
    }
}

/// A structural pattern of one case clause.
#[derive(Debug)]
pub enum Pattern {
    Wildcard,
    Literal(LiteralValue),
    Variable(String),
    Tuple(Vec<Pattern>),
}

/// Mathematical view of a pattern.
pub enum PatternV {
    Wildcard,
    Literal(LitV),
    Variable(Seq<char>),
    Tuple(Seq<PatternV>),
}

impl Pattern {
    pub open spec fn view(self) -> PatternV
        decreases self,
    {
        match self {
            Pattern::Wildcard => PatternV::Wildcard,
            Pattern::Literal(l) => PatternV::Literal(l.view()),
            Pattern::Variable(n) => PatternV::Variable(n@),
            Pattern::Tuple(elems) => PatternV::Tuple(pattern_seq_view(elems@)),
        }
    }
}

pub open spec fn pattern_seq_view(s: Seq<Pattern>) -> Seq<PatternV>
    decreases s,
{
    if s.len() == 0 {
        Seq::empty()
    } else {
        pattern_seq_view(s.drop_last()).push(s.last().view())
    }
}

/// The binary operators a guard may use.
#[derive(Debug, Clone, Copy, PartialEq, Eq, Structural)]
pub enum BinOp {
    Equal,
    NotEqual,
    And,
    Or,
}

/// A boolean-valued, side-effect-free guard expression.
#[derive(Debug)]
pub enum GuardExpr {
    VariableRef(String),
    Constant(LiteralValue),
    TupleAccess(Box<GuardExpr>, usize),
    BinaryOp(BinOp, Box<GuardExpr>, Box<GuardExpr>),
}

/// Mathematical view of a guard expression.
pub enum GuardV {
    VariableRef(Seq<char>),
    Constant(LitV),
    TupleAccess(Box<GuardV>, nat),
    BinaryOp(BinOp, Box<GuardV>, Box<GuardV>),
}

impl GuardExpr {
    pub open spec fn view(self) -> GuardV
        decreases self,
    {
        match self {
            GuardExpr::VariableRef(n) => GuardV::VariableRef(n@),
            GuardExpr::Constant(l) => GuardV::Constant(l.view()),
            GuardExpr::TupleAccess(e, i) => GuardV::TupleAccess(Box::new((*e).view()), i as nat),
            GuardExpr::BinaryOp(op, l, r) => GuardV::BinaryOp(
                op,
                Box::new((*l).view()),
                Box::new((*r).view()),
            ),
        }
    }
}

/// The variables a pattern declares, in left-to-right, depth-first order.
pub open spec fn pattern_variables(p: PatternV) -> Seq<Seq<char>>
    decreases p,
{
    match p {
        PatternV::Wildcard => Seq::empty(),
        PatternV::Literal(_) => Seq::empty(),
        PatternV::Variable(n) => seq![n],
        PatternV::Tuple(elems) => pattern_seq_variables(elems),
    }
}

pub open spec fn pattern_seq_variables(s: Seq<PatternV>) -> Seq<Seq<char>>
    decreases s,
{
    if s.len() == 0 {
        Seq::empty()
    } else {
        pattern_seq_variables(s.drop_last()) + pattern_variables(s.last())
    }
}

/// The variable names a guard expression references.
pub open spec fn guard_variables(g: GuardV) -> Seq<Seq<char>>
    decreases g,
{
    match g {
        GuardV::VariableRef(n) => seq![n],
        GuardV::Constant(_) => Seq::empty(),
        GuardV::TupleAccess(e, _) => guard_variables(*e),
        GuardV::BinaryOp(_, l, r) => guard_variables(*l) + guard_variables(*r),
    }
}

} // verus!
