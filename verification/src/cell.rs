//! Elementary cellular automata: a row of cells that grows by one cell on
//! each side at every turn.

use crate::bitspace::null_bits;
use crate::universe::Universe;
use vstd::prelude::*;

verus! {

/// A one-dimensional binary cellular automaton under one of the 256 rules of
/// three neighbours.
#[derive(Debug)]
pub struct ElementaryCellularAutomata {
    rule: u8,
    cells: Vec<bool>,
}

/// The text of the first `upto` cells: `1` or `0` for each.
pub open spec fn cells_text(cells: Seq<bool>, upto: nat) -> Seq<char>
    decreases upto,
{
    if upto == 0 {
        Seq::<char>::empty()
    } else {
        cells_text(cells, (upto - 1) as nat).push(
            if cells[upto - 1] {
                '1'
            } else {
                '0'
            },
        )
    }
}

impl ElementaryCellularAutomata {
    /// The number of the rule.
    pub closed spec fn spec_rule(&self) -> u8 {
        self.rule
    }

    /// The current row of cells.
    pub closed spec fn spec_cells(&self) -> Seq<bool> {
        self.cells@
    }

    /// The value that the current row has at a position of the next row,
    /// which is wider by one cell on each side: false outside the current
    /// row.
    pub open spec fn value_in_new_pos_system(&self, new_pos: int) -> bool {
        0 < new_pos < self.spec_cells().len() && self.spec_cells()[new_pos - 1]
    }

    /// The automaton of the given rule, with one dead cell.
    pub fn new_by_rule(rule: u8) -> (eca: ElementaryCellularAutomata)
        ensures
            eca.spec_rule() == rule,
            eca.spec_cells() == seq![false],
    {
        let eca = ElementaryCellularAutomata { rule: rule, cells: vec![false] };
        assert(eca.spec_cells() =~= seq![false]);
        eca
    }

    /// The line that shows the current row between two rules of dashes.
    pub fn print_cells(&self) -> (text: String)
        ensures
            text@ == ("-------"@ + cells_text(self.spec_cells(), self.spec_cells().len())
                + "-------"@).push('\n'),
    {
        let mut text = String::new();
        proof {
            reveal_strlit("-------");
        }
        text.push_str("-------");
        let mut i: usize = 0;
        while i < self.cells.len()
            invariant
                i <= self.cells@.len(),
                text@ == "-------"@ + cells_text(self.cells@, i as nat),
            decreases self.cells@.len() - i,
        {
            if self.cells[i] {
                text.push('1');
            } else {
                text.push('0');
            }
            i += 1;
            assert(text@ =~= "-------"@ + cells_text(self.cells@, i as nat));
        }
        text.push_str("-------");
        text.push('\n');
        text
    }

    /// The value that the current row has at a position of the next row.
    pub fn get_value_in_new_pos_system(&self, new_pos: usize) -> (value: bool)
        ensures
            value == self.value_in_new_pos_system(new_pos as int),
    {
        let current_cells_len = self.cells.len();
        if new_pos == 0 || new_pos >= current_cells_len {
            return false;
        }
        self.cells[new_pos - 1]
    }

    /// The next value of the cell at a position of the next row. The rule is
    /// not applied: whatever its neighbours hold, the cell is dead.
    pub fn transition_from_neightbours(&self, new_pos: usize) -> (value: bool)
        requires
            new_pos < usize::MAX,
        ensures
            !value,
    {
        let mut neightbours: Vec<bool> = Vec::with_capacity(3);
        if new_pos > 0 {
            let mut pos: usize = new_pos - 1;
            while pos < new_pos + 1
                invariant
                    new_pos - 1 <= pos <= new_pos + 1,
                    new_pos < usize::MAX,
                decreases new_pos + 1 - pos,
            {
                neightbours.push(self.get_value_in_new_pos_system(pos));
                pos += 1;
            }
        }
        false
    }

    /// Replaces the row by the next one, wider by one cell on each side.
    pub fn transition(&mut self)
        requires
            old(self).spec_cells().len() + 2 <= usize::MAX,
        ensures
            final(self).spec_rule() == old(self).spec_rule(),
            final(self).spec_cells() == null_bits(old(self).spec_cells().len() + 2),
    {
        let current_cells_len = self.cells.len();
        let next_cells_len = current_cells_len + 2;
        let mut new_cells: Vec<bool> = Vec::with_capacity(next_cells_len);
        let mut new_pos: usize = 0;
        while new_pos < next_cells_len
            invariant
                new_pos <= next_cells_len,
                new_cells@ == null_bits(new_pos as nat),
            decreases next_cells_len - new_pos,
        {
            new_cells.push(self.transition_from_neightbours(new_pos));
            new_pos += 1;
            assert(new_cells@ =~= null_bits(new_pos as nat));
        }
        self.cells = new_cells;
    }
}

impl Universe for ElementaryCellularAutomata {
    /// The row, which grows by two cells each turn, stays within what a
    /// vector can hold.
    open spec fn can_run(&self, turns: nat) -> bool {
        self.spec_cells().len() + 2 * turns <= usize::MAX
    }

    /// The rule stays; without a turn the row stays too, and after a turn or
    /// more it is all dead and wider by two cells for each turn.
    open spec fn after_turns(&self, turns: nat, end: &Self) -> bool {
        &&& end.spec_rule() == self.spec_rule()
        &&& end.spec_cells() == if turns == 0 {
            self.spec_cells()
        } else {
            null_bits(self.spec_cells().len() + 2 * turns)
        }
    }

    proof fn lemma_can_run_step(&self, turns: nat, next: &Self) {
    }

    proof fn lemma_after_turns_step(&self, turns: nat, mid: &Self, end: &Self) {
        if self.after_turns(turns, mid) && mid.after_turns(1, end) {
            assert(mid.spec_cells().len() == self.spec_cells().len() + 2 * turns);
        }
    }

    fn next_turn(&mut self) {
        self.transition();
    }
}

} // verus!
