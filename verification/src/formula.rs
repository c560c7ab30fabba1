//! Boolean formulas over one variable per cell.
//!
//! A formula is a conjunction of constraints of two kinds: that exactly so
//! many of some variables are true, and that one variable implies another.
//! This is all a satisfiability engine has to understand to solve a puzzle.

use crate::puzzle::{count_true, lemma_count_true_push};
use vstd::prelude::*;

verus! {

/// One constraint over the variables `0, 1, 2, ...` of a formula.
#[derive(Debug)]
pub enum Constraint {
    /// Exactly `count` of the listed variables are true. A variable listed
    /// twice counts twice.
    Exactly { vars: Vec<usize>, count: i32 },
    /// If variable `premise` is true, then so is variable `conclusion`.
    Implies { premise: usize, conclusion: usize },
}

/// A conjunction of constraints over `variables` boolean variables.
#[derive(Debug)]
pub struct Formula {
    pub variables: usize,
    pub constraints: Vec<Constraint>,
}

/// The values that an assignment gives to the listed variables, in the order
/// of the list.
pub open spec fn selected(cells: Seq<bool>, vars: Seq<usize>) -> Seq<bool> {
    Seq::new(vars.len(), |k: int| cells[vars[k] as int])
}

/// Every listed variable is one that `cells` assigns.
pub open spec fn all_assigned(cells: Seq<bool>, vars: Seq<usize>) -> bool {
    forall|k: int| 0 <= k < vars.len() ==> (#[trigger] vars[k]) < cells.len()
}

/// Every constraint of `constraints` holds under `cells`.
pub open spec fn all_hold(constraints: Seq<Constraint>, cells: Seq<bool>) -> bool {
    forall|k: int| 0 <= k < constraints.len() ==> (#[trigger] constraints[k]).holds_for(cells)
}

/// A conjunction with one more constraint holds exactly if the conjunction
/// and the constraint both hold.
pub proof fn lemma_all_hold_push(constraints: Seq<Constraint>, last: Constraint, cells: Seq<bool>)
    ensures
        all_hold(constraints.push(last), cells) <==> all_hold(constraints, cells)
            && last.holds_for(cells),
{
    let longer = constraints.push(last);
    if all_hold(longer, cells) {
        assert forall|k: int| 0 <= k < constraints.len() implies (
        #[trigger] constraints[k]).holds_for(cells) by {
            assert(longer[k].holds_for(cells));
        }
        assert(longer[constraints.len() as int].holds_for(cells));
    }
    if all_hold(constraints, cells) && last.holds_for(cells) {
        assert forall|k: int| 0 <= k < longer.len() implies (#[trigger] longer[k]).holds_for(
            cells,
        ) by {
            if k < constraints.len() {
                assert(constraints[k].holds_for(cells));
            }
        }
    }
}

impl Constraint {
    /// The constraint mentions only variables that `cells` assigns, and it is
    /// true under `cells`.
    pub open spec fn holds_for(self, cells: Seq<bool>) -> bool {
        match self {
            Constraint::Exactly { vars, count } => {
                &&& all_assigned(cells, vars@)
                &&& count_true(selected(cells, vars@)) == count
            },
            Constraint::Implies { premise, conclusion } => {
                &&& premise < cells.len()
                &&& conclusion < cells.len()
                &&& cells[premise as int] ==> cells[conclusion as int]
            },
        }
    }

    /// Evaluates the constraint under an assignment.
    pub fn check(&self, cells: &Vec<bool>) -> (holds: bool)
        ensures
            holds == self.holds_for(cells@),
    {
        match self {
            Constraint::Exactly { vars, count } => {
                match count_selected(cells, vars) {
                    Some(trues) => *count >= 0 && trues == *count as usize,
                    None => false,
                }
            },
            Constraint::Implies { premise, conclusion } => {
                *premise < cells.len() && *conclusion < cells.len() && (!cells[*premise]
                    || cells[*conclusion])
            },
        }
    }
}

/// Counts the listed variables that are true under an assignment, or finds
/// that the list names a variable without a value.
pub fn count_selected(cells: &Vec<bool>, vars: &Vec<usize>) -> (counted: Option<usize>)
    ensures
        counted is Some <==> all_assigned(cells@, vars@),
        counted matches Some(trues) ==> trues == count_true(selected(cells@, vars@)),
{
    let ghost picked = selected(cells@, vars@);
    let mut trues: usize = 0;
    let mut k: usize = 0;
    while k < vars.len()
        invariant
            k <= vars.len(),
            picked == selected(cells@, vars@),
            forall|m: int| 0 <= m < k ==> (#[trigger] vars[m]) < cells.len(),
            trues == count_true(picked.take(k as int)),
            trues <= k,
        decreases vars.len() - k,
    {
        let var = vars[k];
        if var >= cells.len() {
            return None;
        }
        proof {
            assert(picked.take(k + 1) =~= picked.take(k as int).push(picked[k as int]));
            lemma_count_true_push(picked.take(k as int), picked[k as int]);
        }
        if cells[var] {
            trues += 1;
        }
        k += 1;
    }
    assert(picked.take(k as int) =~= picked);
    Some(trues)
}

impl Formula {
    /// The assignment `cells` gives a value to each variable of the formula
    /// and makes every constraint true.
    pub open spec fn satisfied_by(&self, cells: Seq<bool>) -> bool {
        &&& cells.len() == self.variables
        &&& all_hold(self.constraints@, cells)
    }

    /// Decides whether an assignment satisfies the formula.
    pub fn is_satisfied_by(&self, cells: &Vec<bool>) -> (satisfied: bool)
        ensures
            satisfied == self.satisfied_by(cells@),
    {
        if cells.len() != self.variables {
            return false;
        }
        let mut k: usize = 0;
        while k < self.constraints.len()
            invariant
                k <= self.constraints.len(),
                forall|m: int| 0 <= m < k ==> (#[trigger] self.constraints[m]).holds_for(cells@),
            decreases self.constraints.len() - k,
        {
            if !self.constraints[k].check(cells) {
                return false;
            }
            k += 1;
        }
        true
    }
}

} // verus!
