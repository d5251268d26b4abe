//! A generic interface to models in which time only goes forwards.

use vstd::prelude::*;

verus! {

/// A universe can calculate its next state from its current one, turn after
/// turn. A turn is the smallest amount of time that the model measures.
pub trait Universe: Sized {
    /// The universe can take `turns` more turns.
    spec fn can_run(&self, turns: nat) -> bool;

    /// `end` is what `turns` turns make of the universe.
    spec fn after_turns(&self, turns: nat, end: &Self) -> bool;

    /// A universe that can take some turns can take the first of them, and
    /// after it the rest.
    proof fn lemma_can_run_step(&self, turns: nat, next: &Self)
        requires
            self.can_run(turns),
            turns > 0,
        ensures
            self.can_run(1),
            self.after_turns(1, next) ==> next.can_run((turns - 1) as nat),
    ;

    /// No turn leaves the universe as it is, and one turn more extends a run
    /// by one.
    proof fn lemma_after_turns_step(&self, turns: nat, mid: &Self, end: &Self)
        ensures
            self.after_turns(0, self),
            self.after_turns(turns, mid) && mid.after_turns(1, end) ==> self.after_turns(
                turns + 1,
                end,
            ),
    ;

    /// Takes one turn.
    fn next_turn(&mut self)
        requires
            old(self).can_run(1),
        ensures
            old(self).after_turns(1, final(self)),
    ;

    /// Takes `turns` turns.
    fn run_for(&mut self, turns: usize)
        requires
            old(self).can_run(turns as nat),
        ensures
            old(self).after_turns(turns as nat, final(self)),
    {
        let mut taken: usize = 0;
        proof {
            self.lemma_after_turns_step(0, self, self);
        }
        while taken < turns
            invariant
                taken <= turns,
                self.can_run((turns - taken) as nat),
                old(self).after_turns(taken as nat, self),
            decreases turns - taken,
        {
            let ghost mid = *self;
            proof {
                mid.lemma_can_run_step((turns - taken) as nat, &mid);
            }
            self.next_turn();
            proof {
                mid.lemma_can_run_step((turns - taken) as nat, self);
                old(self).lemma_after_turns_step(taken as nat, &mid, self);
            }
            taken += 1;
        }
    }
}

} // verus!
