//! Statements that need more than their syntax: loops and switches with the
//! labels and jumps that belong to them (6.6).

use vstd::prelude::*;

use crate::ast::{StatementId, StringId, Value};
use crate::semantic::model::resolved_type::QualifiedType;

verus! {

/// A statement that `break`, `continue`, `case` and `default` can refer to.
#[derive(Debug)]
pub enum StatementScope {
    Loop(StatementId),
    Switch {
        stmt: StatementId,
        control: QualifiedType,
        cases: Vec<(Value, StatementId)>,
        default: Option<StatementId>,
    },
}

#[derive(Debug)]
pub enum ResolvedStatement {
    Loop(StatementId),
    Switch { control: QualifiedType, cases: Vec<(Value, StatementId)>, default: Option<StatementId> },
    Case(Value, StatementId),
    Default(StatementId),
    Break(StatementId),
    Continue(StatementId),
    Goto(StringId),
    Label(StringId),
}

impl StatementScope {
    pub open spec fn stmt(&self) -> StatementId {
        match self {
            StatementScope::Loop(s) => *s,
            StatementScope::Switch { stmt, .. } => *stmt,
        }
    }

    /// The statement this scope was opened for and what it resolved to.
    pub fn into_resolved(self) -> (r: (StatementId, ResolvedStatement))
        ensures
            r.0 == self.stmt(),
            match self {
                StatementScope::Loop(s) => r.1 == ResolvedStatement::Loop(s),
                StatementScope::Switch { control, cases, default, .. } => r.1 == (ResolvedStatement::Switch {
                    control,
                    cases,
                    default,
                }),
            },
    {
        match self {
            StatementScope::Switch { stmt, control, cases, default } => (
                stmt,
                ResolvedStatement::Switch { control, cases, default },
            ),
            StatementScope::Loop(stmt) => (stmt, ResolvedStatement::Loop(stmt)),
        }
    }
}

/// The innermost loop among `scopes`.
pub open spec fn nearest_loop_in(scopes: Seq<StatementScope>) -> Option<StatementId>
    decreases scopes.len(),
{
    if scopes.len() == 0 {
        None
    } else {
        match scopes.last() {
            StatementScope::Loop(s) => Some(s),
            _ => nearest_loop_in(scopes.drop_last()),
        }
    }
}

/// Position of the innermost switch among `scopes`.
pub open spec fn nearest_switch_in(scopes: Seq<StatementScope>) -> Option<int>
    decreases scopes.len(),
{
    if scopes.len() == 0 {
        None
    } else if scopes.last() is Switch {
        Some(scopes.len() - 1)
    } else {
        nearest_switch_in(scopes.drop_last())
    }
}

/// The loops and switches enclosing the statement being resolved, innermost last.
#[derive(Debug)]
pub struct StatementScopes(pub Vec<StatementScope>);

impl StatementScopes {
    pub open spec fn view(&self) -> Seq<StatementScope> {
        self.0@
    }

    pub fn new() -> (s: Self)
        ensures
            s@.len() == 0,
    {
        StatementScopes(Vec::new())
    }

    pub fn push_loop(&mut self, stmt: StatementId)
        ensures
            final(self)@ == old(self)@.push(StatementScope::Loop(stmt)),
    {
        self.0.push(StatementScope::Loop(stmt))
    }

    pub fn push_switch(
        &mut self,
        stmt: StatementId,
        control: QualifiedType,
        cases: Vec<(Value, StatementId)>,
        default: Option<StatementId>,
    )
        ensures
            final(self)@ == old(self)@.push(StatementScope::Switch { stmt, control, cases, default }),
    {
        self.0.push(StatementScope::Switch { stmt, control, cases, default })
    }

    pub fn pop(&mut self) -> (r: Option<StatementScope>)
        ensures
            old(self)@.len() == 0 ==> r is None && final(self)@ == old(self)@,
            old(self)@.len() > 0 ==> r == Some(old(self)@.last()) && final(self)@ == old(self)@.drop_last(),
    {
        self.0.pop()
    }

    pub fn is_empty(&self) -> (b: bool)
        ensures
            b == (self@.len() == 0),
    {
        self.0.len() == 0
    }

    pub fn last(&self) -> (r: Option<&StatementScope>)
        ensures
            self@.len() == 0 ==> r is None,
            self@.len() > 0 ==> r == Some(&self@.last()),
    {
        if self.0.len() == 0 {
            None
        } else {
            Some(&self.0[self.0.len() - 1])
        }
    }

    /// The innermost enclosing loop: what `continue` refers to.
    pub fn nearest_loop(&self) -> (r: Option<StatementId>)
        ensures
            r == nearest_loop_in(self@),
    {
        let mut i = self.0.len();
        assert(self@.subrange(0, i as int) =~= self@);
        while i > 0
            invariant
                i <= self@.len(),
                nearest_loop_in(self@) == nearest_loop_in(self@.subrange(0, i as int)),
            decreases i,
        {
            proof {
                let sub = self@.subrange(0, i as int);
                assert(sub.drop_last() =~= self@.subrange(0, i - 1));
            }
            match &self.0[i - 1] {
                StatementScope::Loop(stmt) => {
                    return Some(*stmt);
                },
                StatementScope::Switch { .. } => {},
            }
            i -= 1;
        }
        None
    }

    /// Position of the innermost enclosing switch: what `case` and `default` belong to.
    pub fn nearest_switch(&self) -> (r: Option<usize>)
        ensures
            r matches Some(i) ==> nearest_switch_in(self@) == Some(i as int),
            r is None ==> nearest_switch_in(self@) is None,
    {
        let mut i = self.0.len();
        assert(self@.subrange(0, i as int) =~= self@);
        while i > 0
            invariant
                i <= self@.len(),
                forall|k: int| i <= k < self@.len() ==> !(self@[k] is Switch),
                nearest_switch_in(self@) == nearest_switch_in(self@.subrange(0, i as int)),
            decreases i,
        {
            proof {
                let sub = self@.subrange(0, i as int);
                assert(sub.drop_last() =~= self@.subrange(0, i - 1));
            }
            if matches!(self.0[i - 1], StatementScope::Switch { .. }) {
                return Some(i - 1);
            }
            i -= 1;
        }
        None
    }
}

} // verus!
