use vstd::prelude::*;

use super::annealing_buffer::AnnealingBuffer;
use super::inner_state::Lesson;

verus! {

/// The field of a lesson that a mutation rewrites, with its new value.
#[derive(Clone, Copy, Debug, PartialEq, Eq, Structural)]
pub enum MutationType {
    ChangeTeacher(u8),
    ChangeTime(u8),
    ChangeClassroom(u8),
}

/// A proposed change to one field of one lesson.
#[derive(Clone, Copy, Debug)]
pub struct Mutation {
    pub target_lesson: usize,
    pub mutation_type: MutationType,
}

/// A mutation that undoes an earlier one.
#[derive(Clone, Copy, Debug)]
pub struct ReverseMutation(Mutation);

/// A number drawn from the random generator of the calling thread by
/// `rand::random`, uniform over all values of `usize`. Nothing is claimed of
/// the number drawn: two draws may differ.
#[verifier::external_body]
fn random_sample() -> (sample: usize) {
    rand::random::<usize>()
}

/// Of the ten residues of a kind sample, the number that change the time.
pub const TIME_SHARE: usize = 5;

/// Of the ten residues of a kind sample, the number that change the time or
/// the classroom.
pub const TIME_AND_CLASSROOM_SHARE: usize = 8;

impl MutationType {
    /// The change that two samples stand for. The kind follows the first
    /// sample: of its ten residues five change the time, three the
    /// classroom and two the teacher. The payload is the second sample
    /// reduced to the domain of that kind.
    pub open spec fn of_samples(
        kind_sample: usize,
        payload_sample: usize,
        max_time: u8,
        classroom_count: u8,
        teacher_count: u8,
    ) -> MutationType {
        if kind_sample % 10 < TIME_SHARE {
            MutationType::ChangeTime((payload_sample % (max_time as usize)) as u8)
        } else if kind_sample % 10 < TIME_AND_CLASSROOM_SHARE {
            MutationType::ChangeClassroom((payload_sample % (classroom_count as usize)) as u8)
        } else {
            MutationType::ChangeTeacher((payload_sample % (teacher_count as usize)) as u8)
        }
    }

    /// The payload lies in the domain of the kind of change.
    pub open spec fn within(self, max_time: u8, classroom_count: u8, teacher_count: u8) -> bool {
        match self {
            MutationType::ChangeTeacher(teacher) => teacher < teacher_count,
            MutationType::ChangeTime(time) => time < max_time,
            MutationType::ChangeClassroom(classroom) => classroom < classroom_count,
        }
    }

    /// The same kind of change, carrying the value that `lesson` holds now.
    pub open spec fn restoring(self, lesson: Lesson) -> MutationType {
        match self {
            MutationType::ChangeTeacher(_) => MutationType::ChangeTeacher(lesson.teacher),
            MutationType::ChangeTime(_) => MutationType::ChangeTime(lesson.time),
            MutationType::ChangeClassroom(_) => MutationType::ChangeClassroom(lesson.classroom),
        }
    }
}

impl ReverseMutation {
    pub closed spec fn spec_get(self) -> Mutation {
        self.0
    }

    pub fn of(mutation: Mutation) -> (reverse: Self)
        ensures
            reverse.get() == mutation,
    {
        Self(mutation)
    }

    #[verifier::when_used_as_spec(spec_get)]
    pub fn get(self) -> (mutation: Mutation)
        ensures
            mutation == self.spec_get(),
    {
        self.0
    }
}

impl Mutation {
    pub fn new(target_lesson: usize, mutation_type: MutationType) -> (mutation: Self)
        ensures
            mutation == (Mutation { target_lesson, mutation_type }),
    {
        Self { target_lesson, mutation_type }
    }

    /// The mutation that three uniform samples stand for: the target is
    /// the first sample reduced to the number of lessons, kind and payload
    /// follow the other two as [`MutationType::of_samples`] says.
    pub fn of_samples(
        target_sample: usize,
        kind_sample: usize,
        payload_sample: usize,
        lesson_count: usize,
        max_time: u8,
        classroom_count: u8,
        teacher_count: u8,
    ) -> (mutation: Mutation)
        requires
            lesson_count > 0,
            max_time > 0,
            classroom_count > 0,
            teacher_count > 0,
        ensures
            mutation.target_lesson == target_sample % lesson_count,
            mutation.mutation_type == MutationType::of_samples(
                kind_sample,
                payload_sample,
                max_time,
                classroom_count,
                teacher_count,
            ),
            mutation.target_lesson < lesson_count,
            mutation.mutation_type.within(max_time, classroom_count, teacher_count),
    {
        let target_lesson = target_sample % lesson_count;
        let kind = kind_sample % 10;
        let mutation_type = if kind < TIME_SHARE {
            MutationType::ChangeTime((payload_sample % (max_time as usize)) as u8)
        } else if kind < TIME_AND_CLASSROOM_SHARE {
            MutationType::ChangeClassroom((payload_sample % (classroom_count as usize)) as u8)
        } else {
            MutationType::ChangeTeacher((payload_sample % (teacher_count as usize)) as u8)
        };
        Mutation { target_lesson, mutation_type }
    }

    /// Draws a mutation for `buffer` at random: a lesson of the buffer, a
    /// kind of change, and a new value from the domain of that kind.
    pub fn legal_of_buffer(buffer: &AnnealingBuffer) -> (mutation: Mutation)
        requires
            buffer.inner_state@.lessons.len() > 0,
            buffer.max_time > 0,
            buffer.classroom_count > 0,
            buffer.teacher_count > 0,
        ensures
            mutation.target_lesson < buffer.inner_state@.lessons.len(),
            mutation.mutation_type.within(
                buffer.max_time,
                buffer.classroom_count,
                buffer.teacher_count,
            ),
    {
        let state_ref = buffer.inner_state.state_ref();
        let target_sample = random_sample();
        let kind_sample = random_sample();
        let payload_sample = random_sample();
        Self::of_samples(
            target_sample,
            kind_sample,
            payload_sample,
            state_ref.lessons.len(),
            buffer.max_time,
            buffer.classroom_count,
            buffer.teacher_count,
        )
    }

    /// The mutation that puts back what `self` overwrites, given the
    /// lesson as it stood before `self` was applied.
    pub open spec fn reversed(self, previous_lesson_state: Lesson) -> Mutation {
        Mutation {
            target_lesson: self.target_lesson,
            mutation_type: self.mutation_type.restoring(previous_lesson_state),
        }
    }

    /// Builds the mutation whose application restores the state that held
    /// before `self` was applied.
    pub fn reverse_mutation(&self, previous_lesson_state: Lesson) -> (reverse: ReverseMutation)
        ensures
            reverse.get() == self.reversed(previous_lesson_state),
    {
        ReverseMutation::of(
            Self {
                target_lesson: self.target_lesson,
                mutation_type: match self.mutation_type {
                    MutationType::ChangeTeacher(_) => MutationType::ChangeTeacher(
                        previous_lesson_state.teacher,
                    ),
                    MutationType::ChangeTime(_) => MutationType::ChangeTime(
                        previous_lesson_state.time,
                    ),
                    MutationType::ChangeClassroom(_) => MutationType::ChangeClassroom(
                        previous_lesson_state.classroom,
                    ),
                },
            },
        )
    }
}

} // verus!
