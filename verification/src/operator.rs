use vstd::prelude::*;

verus! {

/// Binary operators of the expression language.
#[derive(Debug, Clone, Copy, PartialEq, Eq, Structural)]
pub enum Operator {
    Add,
    Sub,
    Mul,
    Div,
    Mod,
    Eq,
    NEq,
    Gr,
    Le,
    GrEq,
    LeEq,
    And,
    Or,
    Assign,
    AddAssign,
    SubAssign,
    MulAssign,
    DivAssign,
    ModAssign,
}

/// How operators of equal precedence group.
#[derive(Debug, Clone, Copy, PartialEq, Eq, Structural)]
pub enum Associativity {
    Left,
    Right,
}

/// Prefix operators applied to a value.
#[derive(Debug, Clone, Copy, PartialEq, Eq, Structural)]
pub enum UnaryOp {
    Sub,
    Neg,
    Ref,
    Deref,
}

/// True for the assignment family (`=`, `+=`, `-=`, `*=`, `/=`, `%=`).
pub open spec fn is_assignment(op: Operator) -> bool {
    match op {
        Operator::Assign | Operator::AddAssign | Operator::SubAssign | Operator::MulAssign
        | Operator::DivAssign | Operator::ModAssign => true,
        _ => false,
    }
}

/// Binding strength of an operator: a higher number binds tighter.
pub open spec fn spec_precedence(op: Operator) -> u8 {
    match op {
        Operator::Mul | Operator::Div | Operator::Mod => 70,
        Operator::Add | Operator::Sub => 60,
        Operator::Gr | Operator::Le | Operator::GrEq | Operator::LeEq => 50,
        Operator::Eq | Operator::NEq => 45,
        Operator::And => 30,
        Operator::Or => 20,
        _ => 10,
    }
}

/// Assignments group to the right, every other operator to the left.
pub open spec fn spec_associativity(op: Operator) -> Associativity {
    if is_assignment(op) {
        Associativity::Right
    } else {
        Associativity::Left
    }
}

impl Operator {
    /// The binding strength of the operator.
    pub fn precedence(self) -> (p: u8)
        ensures
            p == spec_precedence(self),
    {
        match self {
            Operator::Mul | Operator::Div | Operator::Mod => 70,
            Operator::Add | Operator::Sub => 60,
            Operator::Gr | Operator::Le | Operator::GrEq | Operator::LeEq => 50,
            Operator::Eq | Operator::NEq => 45,
            Operator::And => 30,
            Operator::Or => 20,
            Operator::Assign | Operator::AddAssign | Operator::SubAssign | Operator::MulAssign
            | Operator::DivAssign | Operator::ModAssign => 10,
        }
    }

    /// How chains of operators of this precedence group.
    pub fn associativity(self) -> (a: Associativity)
        ensures
            a == spec_associativity(self),
    {
        match self {
            Operator::Assign | Operator::AddAssign | Operator::SubAssign | Operator::MulAssign
            | Operator::DivAssign | Operator::ModAssign => Associativity::Right,
            _ => Associativity::Left,
        }
    }
}

/// The binding tiers of the binary operators, tightest first: `*`, `/`
/// and `%` together; then `+` and `-` together; then the orderings `<`,
/// `<=`, `>`, `>=`; then `==` and `!=`; then `&&`; then `||`; each tier
/// binds strictly tighter than the next.
pub proof fn lemma_precedence_tiers()
    ensures
        spec_precedence(Operator::Mul) == spec_precedence(Operator::Div),
        spec_precedence(Operator::Mul) == spec_precedence(Operator::Mod),
        spec_precedence(Operator::Add) == spec_precedence(Operator::Sub),
        spec_precedence(Operator::Add) < spec_precedence(Operator::Mul),
        spec_precedence(Operator::Le) == spec_precedence(Operator::LeEq),
        spec_precedence(Operator::Le) == spec_precedence(Operator::Gr),
        spec_precedence(Operator::Le) == spec_precedence(Operator::GrEq),
        spec_precedence(Operator::Le) < spec_precedence(Operator::Add),
        spec_precedence(Operator::Eq) == spec_precedence(Operator::NEq),
        spec_precedence(Operator::Eq) < spec_precedence(Operator::Le),
        spec_precedence(Operator::And) < spec_precedence(Operator::Eq),
        spec_precedence(Operator::Or) < spec_precedence(Operator::And),
{
}

} // verus!
