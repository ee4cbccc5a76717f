//! The description of a circuit: its rows, each with the selectors of the
//! widgets and the variables on its four wires.

use crate::field::Scalar;
use vstd::prelude::*;

verus! {

/// One row of a circuit.
#[derive(Clone, Copy, Debug)]
pub struct Gate {
    pub q_m: Scalar,
    pub q_l: Scalar,
    pub q_r: Scalar,
    pub q_o: Scalar,
    pub q_c: Scalar,
    pub q_4: Scalar,
    pub q_arith: Scalar,
    pub q_range: Scalar,
    pub q_logic: Scalar,
    pub q_fixed_group_add: Scalar,
    pub q_variable_group_add: Scalar,
    /// The variables on the four wires, each by its number.
    pub w_l: usize,
    pub w_r: usize,
    pub w_o: usize,
    pub w_4: usize,
}

/// A circuit under construction.
pub struct StandardComposer {
    gates: Vec<Gate>,
}

impl View for StandardComposer {
    type V = Seq<Gate>;

    closed spec fn view(&self) -> Seq<Gate> {
        self.gates@
    }
}

impl StandardComposer {
    /// A circuit without rows.
    pub fn new() -> (cs: StandardComposer)
        ensures
            cs@ == Seq::<Gate>::empty(),
    {
        StandardComposer { gates: Vec::new() }
    }

    /// A circuit without rows, with room for `expected_size` of them.
    pub fn with_expected_size(expected_size: usize) -> (cs: StandardComposer)
        ensures
            cs@ == Seq::<Gate>::empty(),
    {
        StandardComposer { gates: Vec::with_capacity(expected_size) }
    }

    /// The number of rows.
    pub fn circuit_size(&self) -> (n: usize)
        ensures
            n == self@.len(),
    {
        self.gates.len()
    }

    /// Adds a row at the end.
    pub fn append_gate(&mut self, gate: Gate)
        ensures
            final(self)@ == old(self)@.push(gate),
    {
        self.gates.push(gate);
    }

    /// The rows, first to last.
    pub fn gates(&self) -> (gates: &Vec<Gate>)
        ensures
            gates@ == self@,
    {
        &self.gates
    }
}

} // verus!
