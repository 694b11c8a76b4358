use vstd::prelude::*;

use super::annealing_buffer::{
    AnnealingBuffer, TerminationWatch, MAX_FLAT_STEPS, MAX_REJECTIONS,
};
use super::annealing_state::AnnealingState;
use super::energy::{BufferStatistics, StatisticsView};
use super::inner_state::{
    lemma_mutation_keeps_domains, lemma_mutation_keeps_wf, lemma_reverse_restores, InnerStateView,
};
use super::mutation::{Mutation, ReverseMutation};

verus! {

/// What a run has to do at the start of a step.
#[derive(Clone, Copy, Debug, PartialEq, Eq, Structural)]
pub enum StepStart {
    /// Go on: propose a mutation.
    Propose,
    /// Stop: the energy has not changed for too many steps in a row.
    Frozen,
    /// Stop: all planned steps are taken.
    Finished,
}

/// How a proposed mutation ended.
#[derive(Clone, Copy, Debug, PartialEq, Eq, Structural)]
pub enum Settlement {
    /// The mutation stays; the step is taken.
    Accepted,
    /// The mutation was undone; another may be proposed.
    Rejected,
    /// The mutation was undone, and so were too many before it in a row:
    /// stop.
    Stuck,
}

/// The buffer can be annealed: it is synchronized, it holds a lesson to
/// mutate, every domain that a mutation draws from holds a value, and
/// every lesson lies within these domains.
pub open spec fn fit_to_anneal(buffer: &AnnealingBuffer) -> bool {
    &&& buffer.inner_state@.synchronized()
    &&& buffer.inner_state@.lessons.len() > 0
    &&& buffer.max_time > 0
    &&& buffer.classroom_count > 0
    &&& buffer.teacher_count > 0
    &&& buffer.inner_state@.within(
        buffer.max_time as int,
        buffer.classroom_count as int,
        buffer.teacher_count as int,
    )
}

/// `mutation` is one that may be drawn for `before` from the domains
/// `(max_time, classroom_count, teacher_count)`, and `after` is what it
/// makes of `before`, carried out or refused.
pub open spec fn proposed(
    before: InnerStateView,
    domains: (u8, u8, u8),
    after: InnerStateView,
    mutation: Mutation,
) -> bool {
    &&& mutation.target_lesson < before.lessons.len()
    &&& mutation.mutation_type.within(domains.0, domains.1, domains.2)
    &&& after == before.after(mutation)
}

/// One annealing run over a buffer. The run proposes mutations and keeps
/// or undoes them as it is told; whoever drives it weighs the energy of
/// each proposal and decides. Between proposals the buffer holds the last
/// accepted state.
pub struct AnnealingRun {
    buffer: AnnealingBuffer,
    statistics: BufferStatistics,
    state: AnnealingState,
    watch: TerminationWatch,
    pending: Option<ReverseMutation>,
    committed: Ghost<InnerStateView>,
}

impl AnnealingRun {
    /// The state that the buffer holds now: the last accepted state, or the
    /// proposed one while a proposal awaits its verdict.
    pub closed spec fn current(&self) -> InnerStateView {
        self.buffer.inner_state@
    }

    /// The last accepted state.
    pub closed spec fn committed(&self) -> InnerStateView {
        self.committed@
    }

    /// A proposal awaits its verdict.
    pub closed spec fn spec_is_pending(&self) -> bool {
        self.pending.is_some()
    }

    /// The figures of the state that was last proposed, or of the state
    /// that the run began with.
    pub closed spec fn figures(&self) -> StatisticsView {
        self.statistics@
    }

    /// Steps taken: the number of accepted mutations.
    pub closed spec fn spec_iteration(&self) -> usize {
        self.state.iteration()
    }

    /// Steps planned.
    pub closed spec fn spec_max_iterations(&self) -> usize {
        self.state.max_iterations()
    }

    /// Steps in a row at whose start the energy had not changed.
    pub closed spec fn flat_steps(&self) -> usize {
        self.watch.flat_steps()
    }

    /// Mutations rejected in a row.
    pub closed spec fn rejections(&self) -> usize {
        self.watch.rejections()
    }

    /// The sizes of the domains that mutations draw from: slots, classrooms
    /// and teachers.
    pub closed spec fn domains(&self) -> (u8, u8, u8) {
        (self.buffer.max_time, self.buffer.classroom_count, self.buffer.teacher_count)
    }

    /// The run is sound: the last accepted state is synchronized and lies
    /// within the domains; no more steps are taken than planned; and where a
    /// proposal is pending, the recorded reverse leads back from the state
    /// in the buffer to the last accepted one.
    pub closed spec fn wf(&self) -> bool {
        &&& self.committed@.synchronized()
        &&& self.committed@.lessons.len() > 0
        &&& self.buffer.max_time > 0
        &&& self.buffer.classroom_count > 0
        &&& self.buffer.teacher_count > 0
        &&& self.committed@.within(
            self.buffer.max_time as int,
            self.buffer.classroom_count as int,
            self.buffer.teacher_count as int,
        )
        &&& self.buffer.inner_state@.synchronized()
        &&& self.buffer.inner_state@.lessons.len() == self.committed@.lessons.len()
        &&& self.buffer.inner_state@.within(
            self.buffer.max_time as int,
            self.buffer.classroom_count as int,
            self.buffer.teacher_count as int,
        )
        &&& self.state.iteration() <= self.state.max_iterations()
        &&& match self.pending {
            Some(reverse) => {
                &&& self.state.iteration() < self.state.max_iterations()
                &&& reverse.get().target_lesson < self.committed@.lessons.len()
                &&& self.buffer.inner_state@.after(reverse.get()) == self.committed@
            },
            None => self.buffer.inner_state@ == self.committed@,
        }
    }

    /// Checks a buffer and starts a run of at most `iterations` steps over
    /// it. A buffer that is not fit to anneal is handed back untouched.
    pub fn new(buffer: AnnealingBuffer, iterations: usize) -> (started: Result<
        Self,
        AnnealingBuffer,
    >)
        ensures
            started.is_ok() == fit_to_anneal(&buffer),
            started matches Ok(run) ==> {
                &&& run.wf()
                &&& !run.is_pending()
                &&& run.current() == buffer.inner_state@
                &&& run.figures() == StatisticsView::of_lessons(buffer.inner_state@.lessons)
                &&& run.iteration() == 0
                &&& run.max_iterations() == iterations
                &&& run.flat_steps() == 0
                &&& run.rejections() == 0
                &&& run.domains() == (
                    buffer.max_time,
                    buffer.classroom_count,
                    buffer.teacher_count,
                )
            },
            started matches Err(returned) ==> returned == buffer,
    {
        if !buffer.assert_maps_synchronized("before annealing") {
            return Err(buffer);
        }
        if buffer.max_time == 0 || buffer.classroom_count == 0 || buffer.teacher_count == 0 {
            return Err(buffer);
        }
        let state_ref = buffer.inner_state.state_ref();
        if state_ref.lessons.len() == 0 {
            return Err(buffer);
        }
        let mut checked: usize = 0;
        while checked < state_ref.lessons.len()
            invariant
                checked <= state_ref.lessons@.len(),
                state_ref.lessons@ == buffer.inner_state@.lessons,
                forall|k: int|
                    0 <= k < checked ==> {
                        &&& (#[trigger] buffer.inner_state@.lessons[k]).time < buffer.max_time
                        &&& buffer.inner_state@.lessons[k].classroom < buffer.classroom_count
                        &&& buffer.inner_state@.lessons[k].teacher < buffer.teacher_count
                    },
            decreases state_ref.lessons@.len() - checked,
        {
            let lesson = state_ref.lessons[checked];
            if lesson.time >= buffer.max_time || lesson.classroom >= buffer.classroom_count
                || lesson.teacher >= buffer.teacher_count {
                assert(!(buffer.inner_state@.lessons[checked as int].time < buffer.max_time
                    && buffer.inner_state@.lessons[checked as int].classroom
                    < buffer.classroom_count && buffer.inner_state@.lessons[checked as int].teacher
                    < buffer.teacher_count));
                return Err(buffer);
            }
            checked += 1;
        }
        let mut statistics = BufferStatistics::new();
        statistics.emplace_of_buffer(&buffer);
        let ghost committed = buffer.inner_state@;
        Ok(
            Self {
                buffer,
                statistics,
                state: AnnealingState::new(iterations),
                watch: TerminationWatch::new(),
                pending: None,
                committed: Ghost(committed),
            },
        )
    }

    #[verifier::when_used_as_spec(spec_is_pending)]
    pub fn is_pending(&self) -> (pending: bool)
        ensures
            pending == self.spec_is_pending(),
    {
        self.pending.is_some()
    }

    #[verifier::when_used_as_spec(spec_iteration)]
    pub fn iteration(&self) -> (iteration: usize)
        ensures
            iteration == self.spec_iteration(),
    {
        self.state.iteration()
    }

    #[verifier::when_used_as_spec(spec_max_iterations)]
    pub fn max_iterations(&self) -> (max_iterations: usize)
        ensures
            max_iterations == self.spec_max_iterations(),
    {
        self.state.max_iterations()
    }

    /// The progress of the run, from which the temperature follows.
    pub fn annealing_state(&self) -> (state: &AnnealingState)
        ensures
            state.iteration() == self.iteration(),
            state.max_iterations() == self.max_iterations(),
    {
        &self.state
    }

    /// The counters that decide when the run gives up.
    pub fn watch(&self) -> (watch: &TerminationWatch)
        ensures
            watch.flat_steps() == self.flat_steps(),
            watch.rejections() == self.rejections(),
    {
        &self.watch
    }

    /// The figures to weigh: those of the state in the buffer once a
    /// mutation was proposed.
    pub fn statistics(&self) -> (statistics: &BufferStatistics)
        ensures
            statistics@ == self.figures(),
    {
        &self.statistics
    }

    /// The buffer as it stands.
    pub fn buffer(&self) -> (buffer: &AnnealingBuffer)
        ensures
            buffer.inner_state@ == self.current(),
            (buffer.max_time, buffer.classroom_count, buffer.teacher_count) == self.domains(),
    {
        &self.buffer
    }

    /// Starts a step. `energy_unchanged` says whether the energy is what it
    /// was at the start of the step before. The run is finished once all
    /// planned steps are taken, and frozen once the energy has stayed the
    /// same over `MAX_FLAT_STEPS` steps in a row; otherwise a mutation is to
    /// be proposed. The state is left alone.
    pub fn begin_step(&mut self, energy_unchanged: bool) -> (start: StepStart)
        requires
            old(self).wf(),
            !old(self).is_pending(),
        ensures
            final(self).wf(),
            !final(self).is_pending(),
            final(self).current() == old(self).current(),
            final(self).figures() == old(self).figures(),
            final(self).domains() == old(self).domains(),
            final(self).iteration() == old(self).iteration(),
            final(self).max_iterations() == old(self).max_iterations(),
            old(self).iteration() == old(self).max_iterations() ==> start == StepStart::Finished
                && final(self).flat_steps() == old(self).flat_steps() && final(self).rejections()
                == old(self).rejections(),
            old(self).iteration() < old(self).max_iterations() ==> {
                &&& final(self).rejections() == 0
                &&& final(self).flat_steps() == if !energy_unchanged {
                    0
                } else if old(self).flat_steps() < MAX_FLAT_STEPS {
                    (old(self).flat_steps() + 1) as usize
                } else {
                    old(self).flat_steps()
                }
                &&& start == if final(self).flat_steps() == MAX_FLAT_STEPS {
                    StepStart::Frozen
                } else {
                    StepStart::Propose
                }
            },
    {
        if self.state.iteration() >= self.state.max_iterations() {
            return StepStart::Finished;
        }
        if self.watch.begin_step(energy_unchanged) {
            StepStart::Frozen
        } else {
            StepStart::Propose
        }
    }

    /// Draws a mutation at random, records its reverse, applies it and
    /// takes the figures of the state that results. The state in the buffer
    /// is then what the mutation, carried out or refused, makes of the last
    /// accepted state.
    pub fn propose(&mut self)
        requires
            old(self).wf(),
            !old(self).is_pending(),
            old(self).iteration() < old(self).max_iterations(),
        ensures
            final(self).wf(),
            final(self).is_pending(),
            final(self).committed() == old(self).current(),
            exists|mutation: Mutation|
                proposed(old(self).current(), old(self).domains(), final(self).current(), mutation),
            final(self).figures() == StatisticsView::of_lessons(final(self).current().lessons),
            final(self).domains() == old(self).domains(),
            final(self).iteration() == old(self).iteration(),
            final(self).max_iterations() == old(self).max_iterations(),
            final(self).flat_steps() == old(self).flat_steps(),
            final(self).rejections() == old(self).rejections(),
    {
        let mutation = Mutation::legal_of_buffer(&self.buffer);
        let ghost before = self.buffer.inner_state@;
        proof {
            assert(before.is_placed(mutation.target_lesson as int));
            lemma_mutation_keeps_wf(before, mutation);
            lemma_reverse_restores(before, mutation);
            lemma_mutation_keeps_domains(
                before,
                mutation,
                self.buffer.max_time as int,
                self.buffer.classroom_count as int,
                self.buffer.teacher_count as int,
            );
        }
        let reverse = self.buffer.apply_mutation(mutation);
        self.statistics.emplace_of_buffer(&self.buffer);
        self.pending = Some(reverse);
        self.committed = Ghost(before);
        assert(proposed(before, old(self).domains(), self.current(), mutation));
    }

    /// Settles the pending proposal. An accepted mutation stays and the
    /// step is taken. A rejected one is undone: the buffer holds the last
    /// accepted state again. The run is stuck once `MAX_REJECTIONS`
    /// mutations in a row were rejected.
    pub fn settle(&mut self, accepted: bool) -> (settlement: Settlement)
        requires
            old(self).wf(),
            old(self).is_pending(),
        ensures
            final(self).wf(),
            !final(self).is_pending(),
            accepted ==> final(self).current() == old(self).current(),
            !accepted ==> final(self).current() == old(self).committed(),
            final(self).figures() == old(self).figures(),
            final(self).domains() == old(self).domains(),
            final(self).max_iterations() == old(self).max_iterations(),
            final(self).flat_steps() == old(self).flat_steps(),
            accepted ==> {
                &&& settlement == Settlement::Accepted
                &&& final(self).iteration() == old(self).iteration() + 1
                &&& final(self).rejections() == 0
            },
            !accepted ==> {
                &&& final(self).iteration() == old(self).iteration()
                &&& final(self).rejections() == if old(self).rejections() < MAX_REJECTIONS {
                    (old(self).rejections() + 1) as usize
                } else {
                    old(self).rejections()
                }
                &&& settlement == if final(self).rejections() == MAX_REJECTIONS {
                    Settlement::Stuck
                } else {
                    Settlement::Rejected
                }
            },
    {
        let pending = self.pending;
        self.pending = None;
        if accepted {
            self.committed = Ghost(self.buffer.inner_state@);
            self.state.do_step();
            self.watch.end_proposal(true);
            Settlement::Accepted
        } else {
            match pending {
                Some(reverse) => {
                    proof {
                        assert(self.buffer.inner_state@.is_placed(
                            reverse.get().target_lesson as int,
                        ));
                    }
                    self.buffer.apply_reverse_mutation(reverse);
                },
                None => {},
            }
            if self.watch.end_proposal(false) {
                Settlement::Stuck
            } else {
                Settlement::Rejected
            }
        }
    }

    /// Ends the run and hands the buffer back. Where no proposal is
    /// pending it holds the last accepted state: synchronized, and every
    /// lesson within the domains.
    pub fn into_buffer(self) -> (buffer: AnnealingBuffer)
        requires
            self.wf(),
        ensures
            buffer.inner_state@ == self.current(),
            (buffer.max_time, buffer.classroom_count, buffer.teacher_count) == self.domains(),
            fit_to_anneal(&buffer),
    {
        self.buffer
    }
}

} // verus!
