use vstd::prelude::*;

verus! {

/// A count of static evaluations, owned by whoever runs a search.
///
/// The count stops at `usize::MAX` instead of wrapping around.
#[derive(Debug)]
pub struct EvalCounter {
    count: usize,
}

/// What a counter that read `start` reads after `n` more evaluations.
pub open spec fn tally(start: nat, n: nat) -> nat {
    if start + n <= usize::MAX {
        start + n
    } else {
        usize::MAX as nat
    }
}

impl View for EvalCounter {
    type V = nat;

    closed spec fn view(&self) -> nat {
        self.count as nat
    }
}

impl EvalCounter {
    /// A counter that reads zero.
    pub fn new() -> (counter: EvalCounter)
        ensures
            counter@ == 0,
    {
        EvalCounter { count: 0 }
    }

    /// Counts one evaluation.
    pub fn count_one(&mut self)
        ensures
            final(self)@ == tally(old(self)@, 1),
    {
        self.count = self.count.saturating_add(1);
    }
}

/// Sets the counter back to zero. Call it before a search.
pub fn reset_eval_counter(counter: &mut EvalCounter)
    ensures
        final(counter)@ == 0,
{
    counter.count = 0;
}

/// The number of evaluations counted since the last reset. Call it after a
/// search.
pub fn eval_counter(counter: &EvalCounter) -> (n: usize)
    ensures
        n == counter@,
{
    counter.count
}

/// Counting in two runs reads the same as counting in one.
pub proof fn lemma_tally_adds(start: nat, n: nat, m: nat)
    requires
        start <= usize::MAX,
    ensures
        tally(tally(start, n), m) == tally(start, n + m),
        tally(start, 0) == start,
{
}

/// A counter never reads more than `usize::MAX`.
pub proof fn lemma_counter_bounded(counter: EvalCounter)
    ensures
        counter@ <= usize::MAX,
{
}

} // verus!
