use vstd::prelude::*;

verus! {

/// How far annealing has come: the number of steps taken out of the number
/// planned. The temperature falls with the share of steps taken.
#[derive(Debug)]
pub struct AnnealingState {
    iteration: usize,
    max_iterations: usize,
}

impl AnnealingState {
    /// Steps taken.
    pub closed spec fn spec_iteration(&self) -> usize {
        self.iteration
    }

    /// Steps planned.
    pub closed spec fn spec_max_iterations(&self) -> usize {
        self.max_iterations
    }

    /// Steps that remain until the temperature has fallen to zero.
    pub open spec fn spec_steps_left(&self) -> usize {
        if self.iteration() < self.max_iterations() {
            (self.max_iterations() - self.iteration()) as usize
        } else {
            0
        }
    }

    pub fn new(max_iterations: usize) -> (state: Self)
        ensures
            state.iteration() == 0,
            state.max_iterations() == max_iterations,
    {
        Self { iteration: 0, max_iterations }
    }

    /// Takes one step.
    pub fn do_step(&mut self)
        requires
            old(self).iteration() < usize::MAX,
        ensures
            final(self).iteration() == old(self).iteration() + 1,
            final(self).max_iterations() == old(self).max_iterations(),
    {
        self.iteration += 1;
    }

    #[verifier::when_used_as_spec(spec_iteration)]
    pub fn iteration(&self) -> (iteration: usize)
        ensures
            iteration == self.spec_iteration(),
    {
        self.iteration
    }

    #[verifier::when_used_as_spec(spec_max_iterations)]
    pub fn max_iterations(&self) -> (max_iterations: usize)
        ensures
            max_iterations == self.spec_max_iterations(),
    {
        self.max_iterations
    }

    /// The numerator of the temperature over `max_iterations`: the steps
    /// that remain, and none once all planned steps are taken.
    #[verifier::when_used_as_spec(spec_steps_left)]
    pub fn steps_left(&self) -> (left: usize)
        ensures
            left == self.spec_steps_left(),
    {
        if self.iteration < self.max_iterations {
            self.max_iterations - self.iteration
        } else {
            0
        }
    }
}

} // verus!
