use std::collections::HashSet;
use vstd::prelude::*;

use super::inner_state::{InnerState, InnerStateView, Lesson};
use super::mutation::{Mutation, ReverseMutation};

verus! {

/// A teacher who is able to teach a subject.
#[derive(Hash, Eq, PartialEq)]
pub struct CanTeach {
    pub teacher_id: u8,
    pub subject_id: u8,
}

/// A classroom that is able to hold a subject.
#[derive(Hash, PartialEq, Eq)]
pub struct CanHold {
    pub classroom_id: u8,
    pub subject_id: u8,
}

/// The state that annealing works on: the slot index and the sizes of the
/// domains that mutations draw from.
pub struct AnnealingBuffer {
    pub teacher_count: u8,
    pub classroom_count: u8,
    pub max_time: u8,
    pub can_teach: HashSet<CanTeach>,
    pub can_hold: HashSet<CanHold>,
    pub inner_state: InnerState,
}

impl Default for AnnealingBuffer {
    fn default() -> (buffer: Self)
        ensures
            buffer.max_time == 0,
            buffer.teacher_count == 0,
            buffer.classroom_count == 0,
            buffer.inner_state@ == InnerStateView::empty(0),
    {
        AnnealingBuffer::new(0, 0)
    }
}

impl AnnealingBuffer {
    /// Everything but the slot index is the same in `self` and in `other`.
    pub open spec fn same_domains(&self, other: &AnnealingBuffer) -> bool {
        &&& self.teacher_count == other.teacher_count
        &&& self.classroom_count == other.classroom_count
        &&& self.max_time == other.max_time
        &&& self.can_teach == other.can_teach
        &&& self.can_hold == other.can_hold
    }

    /// A buffer of `number_of_lessons` blank lessons, none of them placed,
    /// with slots up to `max_time` and no teachers or classrooms yet.
    pub fn new(number_of_lessons: usize, max_time: u8) -> (buffer: Self)
        ensures
            buffer.max_time == max_time,
            buffer.teacher_count == 0,
            buffer.classroom_count == 0,
            buffer.can_teach@ == Set::<CanTeach>::empty(),
            buffer.can_hold@ == Set::<CanHold>::empty(),
            buffer.inner_state@ == InnerStateView::empty(number_of_lessons as nat),
            buffer.inner_state@.wf(),
            forall|k: int| !buffer.inner_state@.is_placed(k),
    {
        Self {
            teacher_count: 0,
            classroom_count: 0,
            max_time,
            can_teach: HashSet::new(),
            can_hold: HashSet::new(),
            inner_state: InnerState::new(number_of_lessons),
        }
    }

    /// Places a lesson in the slot index; see [`InnerState::place_lesson`].
    pub fn place_lesson(
        &mut self,
        lesson: usize,
        teacher: u8,
        classroom: u8,
        time: u8,
        group: u8,
    ) -> (placed: bool)
        requires
            lesson < old(self).inner_state@.lessons.len(),
        ensures
            placed == old(self).inner_state@.all_free(Lesson { time, teacher, classroom, group }),
            placed ==> final(self).inner_state@ == old(self).inner_state@.with_lesson(
                lesson as int,
                Lesson { time, teacher, classroom, group },
            ),
            !placed ==> final(self).inner_state@ == old(self).inner_state@,
            old(self).inner_state@.wf() && !old(self).inner_state@.is_placed(lesson as int)
                ==> final(self).inner_state@.wf(),
            old(self).inner_state@.wf() && !old(self).inner_state@.is_placed(lesson as int)
                ==> forall|k: int|
                final(self).inner_state@.is_placed(k) == (old(self).inner_state@.is_placed(k) || (
                placed && k == lesson)),
            final(self).same_domains(old(self)),
    {
        self.inner_state.place_lesson(lesson, teacher, classroom, time, group)
    }

    /// Records how to undo `mutation`, then applies it. The reverse is taken
    /// from the target as it stands before the change: afterwards the value
    /// to restore is gone.
    pub fn apply_mutation(&mut self, mutation: Mutation) -> (reverse: ReverseMutation)
        requires
            old(self).inner_state@.wf(),
            old(self).inner_state@.is_placed(mutation.target_lesson as int),
        ensures
            reverse.get() == mutation.reversed(
                old(self).inner_state@.lessons[mutation.target_lesson as int],
            ),
            final(self).inner_state@ == old(self).inner_state@.after(mutation),
            final(self).inner_state@.wf(),
            final(self).inner_state@.lessons.len() == old(self).inner_state@.lessons.len(),
            forall|k: int|
                final(self).inner_state@.is_placed(k) == old(self).inner_state@.is_placed(k),
            final(self).same_domains(old(self)),
    {
        let previous_lesson_state = self.inner_state.state_ref().lessons[mutation.target_lesson];
        let rev_mutation = mutation.reverse_mutation(previous_lesson_state);
        self.inner_state.apply_mutation(mutation);
        rev_mutation
    }

    /// Applies a recorded reverse. Applied right after the mutation it was
    /// recorded for, it brings back the state that held before.
    pub fn apply_reverse_mutation(&mut self, reverse_mutation: ReverseMutation)
        requires
            old(self).inner_state@.wf(),
            old(self).inner_state@.is_placed(reverse_mutation.get().target_lesson as int),
        ensures
            final(self).inner_state@ == old(self).inner_state@.after(reverse_mutation.get()),
            final(self).inner_state@.wf(),
            final(self).inner_state@.lessons.len() == old(self).inner_state@.lessons.len(),
            forall|k: int|
                final(self).inner_state@.is_placed(k) == old(self).inner_state@.is_placed(k),
            final(self).same_domains(old(self)),
    {
        self.inner_state.apply_mutation(reverse_mutation.get());
    }

    /// Reports whether the maps and the lessons agree; see
    /// [`InnerState::assert_maps_synchronized`].
    pub fn assert_maps_synchronized(&self, msg: &str) -> (synchronized: bool)
        ensures
            synchronized == self.inner_state@.synchronized(),
    {
        self.inner_state.assert_maps_synchronized(msg)
    }
}

/// Number of steps in a row without a change of energy after which
/// annealing counts as frozen.
pub const MAX_FLAT_STEPS: usize = 1_000_000;

/// Number of rejected mutations in a row after which annealing counts as
/// stuck.
pub const MAX_REJECTIONS: usize = 1_000_000;

/// Decides when annealing has to give up: it counts the steps over which
/// the energy stayed the same and the mutations that were rejected in a row.
pub struct TerminationWatch {
    flat_steps: usize,
    rejections: usize,
}

impl TerminationWatch {
    #[verifier::type_invariant]
    spec fn within_limits(self) -> bool {
        self.flat_steps <= MAX_FLAT_STEPS && self.rejections <= MAX_REJECTIONS
    }

    /// Steps in a row, up to now, at whose start the energy was what it
    /// had been a step before.
    pub closed spec fn spec_flat_steps(&self) -> usize {
        self.flat_steps
    }

    /// Mutations rejected in a row, up to now.
    pub closed spec fn spec_rejections(&self) -> usize {
        self.rejections
    }

    pub fn new() -> (watch: Self)
        ensures
            watch.flat_steps() == 0,
            watch.rejections() == 0,
    {
        Self { flat_steps: 0, rejections: 0 }
    }

    #[verifier::when_used_as_spec(spec_flat_steps)]
    pub fn flat_steps(&self) -> (steps: usize)
        ensures
            steps == self.spec_flat_steps(),
            steps <= MAX_FLAT_STEPS,
    {
        proof {
            use_type_invariant(self);
        }
        self.flat_steps
    }

    #[verifier::when_used_as_spec(spec_rejections)]
    pub fn rejections(&self) -> (rejections: usize)
        ensures
            rejections == self.spec_rejections(),
            rejections <= MAX_REJECTIONS,
    {
        proof {
            use_type_invariant(self);
        }
        self.rejections
    }

    /// Called at the start of a step with whether the energy is what it was
    /// at the start of the step before. Returns whether annealing is
    /// frozen: the energy has then stayed the same over `MAX_FLAT_STEPS`
    /// steps in a row.
    pub fn begin_step(&mut self, energy_unchanged: bool) -> (frozen: bool)
        ensures
            final(self).flat_steps() == if !energy_unchanged {
                0
            } else if old(self).flat_steps() < MAX_FLAT_STEPS {
                (old(self).flat_steps() + 1) as usize
            } else {
                old(self).flat_steps()
            },
            final(self).flat_steps() <= MAX_FLAT_STEPS,
            final(self).rejections() == 0,
            frozen == (final(self).flat_steps() == MAX_FLAT_STEPS),
    {
        proof {
            use_type_invariant(&*self);
        }
        if energy_unchanged {
            if self.flat_steps < MAX_FLAT_STEPS {
                self.flat_steps += 1;
            }
        } else {
            self.flat_steps = 0;
        }
        self.rejections = 0;
        self.flat_steps == MAX_FLAT_STEPS
    }

    /// Called after a mutation was tried, with whether the new state was
    /// accepted. Returns whether annealing is stuck: `MAX_REJECTIONS`
    /// mutations in a row have then been rejected.
    pub fn end_proposal(&mut self, accepted: bool) -> (stuck: bool)
        ensures
            final(self).rejections() == if accepted {
                0
            } else if old(self).rejections() < MAX_REJECTIONS {
                (old(self).rejections() + 1) as usize
            } else {
                old(self).rejections()
            },
            final(self).rejections() <= MAX_REJECTIONS,
            final(self).flat_steps() == old(self).flat_steps(),
            stuck == (final(self).rejections() == MAX_REJECTIONS),
    {
        proof {
            use_type_invariant(&*self);
        }
        if accepted {
            self.rejections = 0;
        } else if self.rejections < MAX_REJECTIONS {
            self.rejections += 1;
        }
        self.rejections == MAX_REJECTIONS
    }
}

} // verus!
