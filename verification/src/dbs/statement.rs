use crate::sql::clause::{clause_at, clause_of, Clause, Cond, Data};
use crate::sql::statements::create::CreateStatement;
use crate::sql::statements::select::SelectStatement;
use crate::sql::statements::update::UpdateStatement;
use crate::sql::value::Val;
use vstd::prelude::*;

verus! {

/// The statement that is being executed.
pub enum Statement<'a> {
    Select(&'a SelectStatement),
    Create(&'a CreateStatement),
    Update(&'a UpdateStatement),
}

impl<'a> Statement<'a> {
    /// Whether the statement changes documents.
    pub open spec fn mutates(&self) -> bool {
        !(self is Select)
    }

    /// The content of the data clause of a statement that changes documents.
    pub open spec fn clause(&self) -> Option<Clause> {
        match self {
            Statement::Select(_) => None,
            Statement::Create(stm) => clause_of(stm.data),
            Statement::Update(stm) => clause_of(stm.data),
        }
    }

    /// The content of the condition that a document must meet.
    pub open spec fn condition(&self) -> Option<Val> {
        match self {
            Statement::Select(stm) => match stm.cond {
                Some(c) => Some(c.0@),
                None => None,
            },
            Statement::Create(_) => None,
            Statement::Update(stm) => match stm.cond {
                Some(c) => Some(c.0@),
                None => None,
            },
        }
    }

    /// The data clause of a statement that changes documents.
    pub fn data(&self) -> (r: Option<&'a Data>)
        ensures
            clause_at(r) == self.clause(),
    {
        match self {
            Statement::Select(_) => None,
            Statement::Create(stm) => stm.data.as_ref(),
            Statement::Update(stm) => stm.data.as_ref(),
        }
    }

    /// The condition that a document must meet.
    pub fn cond(&self) -> (r: Option<&'a Cond>)
        ensures
            match r {
                Some(c) => self.condition() == Some(c.0@),
                None => self.condition() is None,
            },
    {
        match self {
            Statement::Select(stm) => stm.cond.as_ref(),
            Statement::Create(_) => None,
            Statement::Update(stm) => stm.cond.as_ref(),
        }
    }
}

} // verus!
