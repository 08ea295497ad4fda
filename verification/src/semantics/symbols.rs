//! Dense indices for a formula's variables, in sorted order.
use crate::formula::analysis::{formula_variables, names_view, strictly_sorted};
use crate::formula::ast::Formula;
use crate::text::string_of;
use vstd::prelude::*;

verus! {

/// The variables of a formula, each with the index of its slot in a packed
/// sample.
#[derive(Debug)]
pub struct SymbolTable {
    names: Vec<String>,
}

impl View for SymbolTable {
    type V = Seq<Seq<char>>;

    /// The names, in slot order.
    closed spec fn view(&self) -> Seq<Seq<char>> {
        names_view(self.names@)
    }
}

impl SymbolTable {
    /// The table of a formula's variables: each once, in sorted order.
    pub fn from_formula(formula: &Formula) -> (r: SymbolTable)
        ensures
            strictly_sorted(r@),
            r@.to_set() == formula_variables(formula@).to_set(),
    {
        SymbolTable { names: formula.variables() }
    }

    /// The slot of `name`, or `None` when the formula does not read it.
    pub fn index(&self, name: &str) -> (r: Option<usize>)
        ensures
            match r {
                Some(i) => i < self@.len() && self@[i as int] == name@ && forall|j: int|
                    0 <= j < i ==> self@[j] != name@,
                None => forall|j: int| 0 <= j < self@.len() ==> self@[j] != name@,
            },
    {
        let target = string_of(name);
        let mut i: usize = 0;
        while i < self.names.len()
            invariant
                i <= self.names@.len(),
                target@ == name@,
                forall|j: int| 0 <= j < i ==> self@[j] != name@,
            decreases self.names@.len() - i,
        {
            if self.names[i] == target {
                return Some(i);
            }
            i = i + 1;
        }
        None
    }

    /// How many slots a packed sample has.
    pub fn len(&self) -> (r: usize)
        ensures
            r == self@.len(),
    {
        self.names.len()
    }
}

} // verus!
