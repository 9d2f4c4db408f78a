use vstd::prelude::*;

verus! {

/// The operators of the expression language and of `SET` clauses.
#[derive(Clone, Copy, Debug, PartialEq, Eq, Structural)]
pub enum Operator {
    /// `=`: assignment in a `SET` clause, equality test in an expression.
    Equal,
    /// `+=`
    Inc,
    /// `-=`
    Dec,
    /// `!=`
    NotEqual,
    /// `<`
    LessThan,
    /// `<=`
    LessThanOrEqual,
    /// `>`
    MoreThan,
    /// `>=`
    MoreThanOrEqual,
    /// `+`
    Add,
    /// `-`
    Sub,
    /// `*`
    Mul,
    /// `/`
    Div,
    /// `AND`
    And,
    /// `OR`
    Or,
}

impl Operator {
    /// Position of the operator in the order in which operators are compared.
    pub open spec fn rank(self) -> int {
        match self {
            Operator::Equal => 0,
            Operator::Inc => 1,
            Operator::Dec => 2,
            Operator::NotEqual => 3,
            Operator::LessThan => 4,
            Operator::LessThanOrEqual => 5,
            Operator::MoreThan => 6,
            Operator::MoreThanOrEqual => 7,
            Operator::Add => 8,
            Operator::Sub => 9,
            Operator::Mul => 10,
            Operator::Div => 11,
            Operator::And => 12,
            Operator::Or => 13,
        }
    }

    /// Position of the operator in the order in which operators are compared.
    pub fn index(self) -> (r: u8)
        ensures
            r == self.rank(),
    {
        match self {
            Operator::Equal => 0,
            Operator::Inc => 1,
            Operator::Dec => 2,
            Operator::NotEqual => 3,
            Operator::LessThan => 4,
            Operator::LessThanOrEqual => 5,
            Operator::MoreThan => 6,
            Operator::MoreThanOrEqual => 7,
            Operator::Add => 8,
            Operator::Sub => 9,
            Operator::Mul => 10,
            Operator::Div => 11,
            Operator::And => 12,
            Operator::Or => 13,
        }
    }

    /// Two operators with the same rank are the same operator.
    pub proof fn lemma_rank_injective(a: Operator, b: Operator)
        requires
            a.rank() == b.rank(),
        ensures
            a == b,
    {
    }
}

} // verus!
