use timetable::annealing::annealing_buffer::{
    AnnealingBuffer, TerminationWatch, MAX_FLAT_STEPS, MAX_REJECTIONS,
};
use timetable::annealing::annealing_state::AnnealingState;
use timetable::annealing::mutation::{Mutation, MutationType, ReverseMutation};

#[test]
fn frozen_termination() {
    let mut watch = TerminationWatch::new();
    for step in 1..MAX_FLAT_STEPS {
        assert!(!watch.begin_step(true), "frozen too early, at step {}", step);
    }
    assert_eq!(watch.flat_steps(), 999_999);
    assert!(watch.begin_step(true));
    assert_eq!(watch.flat_steps(), 1_000_000);
    // Frozen stays frozen until the energy changes.
    assert!(watch.begin_step(true));
    assert!(!watch.begin_step(false));
    assert_eq!(watch.flat_steps(), 0);
}

#[test]
fn a_change_of_energy_starts_the_count_anew() {
    let mut watch = TerminationWatch::new();
    assert!(!watch.begin_step(true));
    assert!(!watch.begin_step(true));
    assert_eq!(watch.flat_steps(), 2);
    assert!(!watch.begin_step(false));
    assert_eq!(watch.flat_steps(), 0);
    assert!(!watch.begin_step(true));
    assert_eq!(watch.flat_steps(), 1);
}

#[test]
fn stuck_after_a_million_rejections_in_a_row() {
    let mut watch = TerminationWatch::new();
    assert!(!watch.begin_step(false));
    for _ in 1..MAX_REJECTIONS {
        assert!(!watch.end_proposal(false));
    }
    assert_eq!(watch.rejections(), 999_999);
    assert!(watch.end_proposal(false));
    assert_eq!(watch.rejections(), 1_000_000);
}

#[test]
fn an_accepted_mutation_ends_the_run_of_rejections() {
    let mut watch = TerminationWatch::new();
    assert!(!watch.end_proposal(false));
    assert!(!watch.end_proposal(false));
    assert_eq!(watch.rejections(), 2);
    assert!(!watch.end_proposal(true));
    assert_eq!(watch.rejections(), 0);
    assert!(!watch.end_proposal(false));
    assert_eq!(watch.rejections(), 1);
    assert!(!watch.begin_step(true));
    assert_eq!(watch.rejections(), 0);
    assert_eq!(watch.flat_steps(), 1);
}

#[test]
fn annealing_state_counts_steps() {
    let mut state = AnnealingState::new(3);
    assert_eq!(state.iteration(), 0);
    assert_eq!(state.max_iterations(), 3);
    assert_eq!(state.steps_left(), 3);
    state.do_step();
    assert_eq!(state.iteration(), 1);
    assert_eq!(state.steps_left(), 2);
    state.do_step();
    state.do_step();
    assert_eq!(state.steps_left(), 0);
    state.do_step();
    assert_eq!(state.iteration(), 4);
    assert_eq!(state.max_iterations(), 3);
    assert_eq!(state.steps_left(), 0);
}

#[test]
fn mutation_of_samples_follows_the_residues() {
    // Kind by the residue of ten: 0..5 time, 5..8 classroom, 8..10 teacher.
    let time = Mutation::of_samples(17, 4, 23, 5, 10, 3, 4);
    assert_eq!(time.target_lesson, 2);
    assert_eq!(time.mutation_type, MutationType::ChangeTime(3));
    let time = Mutation::of_samples(0, 10, 9, 5, 10, 3, 4);
    assert_eq!(time.mutation_type, MutationType::ChangeTime(9));
    let classroom = Mutation::of_samples(4, 5, 23, 5, 10, 3, 4);
    assert_eq!(classroom.target_lesson, 4);
    assert_eq!(classroom.mutation_type, MutationType::ChangeClassroom(2));
    let classroom = Mutation::of_samples(5, 27, 3, 5, 10, 3, 4);
    assert_eq!(classroom.target_lesson, 0);
    assert_eq!(classroom.mutation_type, MutationType::ChangeClassroom(0));
    let teacher = Mutation::of_samples(6, 8, 23, 5, 10, 3, 4);
    assert_eq!(teacher.target_lesson, 1);
    assert_eq!(teacher.mutation_type, MutationType::ChangeTeacher(3));
    let teacher = Mutation::of_samples(usize::MAX, 19, usize::MAX, 1, 255, 255, 255);
    assert_eq!(teacher.target_lesson, 0);
    assert_eq!(teacher.mutation_type, MutationType::ChangeTeacher((usize::MAX % 255) as u8));
}

#[test]
fn kinds_come_in_shares_of_five_three_and_two() {
    let mut times = 0;
    let mut classrooms = 0;
    let mut teachers = 0;
    for kind_sample in 0..1000 {
        match Mutation::of_samples(0, kind_sample, 0, 1, 1, 1, 1).mutation_type {
            MutationType::ChangeTime(_) => times += 1,
            MutationType::ChangeClassroom(_) => classrooms += 1,
            MutationType::ChangeTeacher(_) => teachers += 1,
        }
    }
    assert_eq!((times, classrooms, teachers), (500, 300, 200));
}

#[test]
fn drawn_mutations_lie_in_their_domains() {
    let mut buffer = AnnealingBuffer::new(7, 12);
    buffer.classroom_count = 3;
    buffer.teacher_count = 5;
    let mut seen_time = false;
    let mut seen_classroom = false;
    let mut seen_teacher = false;
    let mut targets = [false; 7];
    for _ in 0..2000 {
        let mutation = Mutation::legal_of_buffer(&buffer);
        assert!(mutation.target_lesson < 7);
        targets[mutation.target_lesson] = true;
        match mutation.mutation_type {
            MutationType::ChangeTime(time) => {
                assert!(time < 12);
                seen_time = true;
            }
            MutationType::ChangeClassroom(classroom) => {
                assert!(classroom < 3);
                seen_classroom = true;
            }
            MutationType::ChangeTeacher(teacher) => {
                assert!(teacher < 5);
                seen_teacher = true;
            }
        }
    }
    assert!(seen_time && seen_classroom && seen_teacher);
    assert!(targets.iter().all(|hit| *hit));
}

#[test]
fn reverse_mutation_carries_the_previous_value() {
    let previous = timetable::annealing::inner_state::Lesson {
        time: 1,
        teacher: 2,
        classroom: 3,
        group: 4,
    };
    let reverse = Mutation::new(5, MutationType::ChangeTime(9)).reverse_mutation(previous);
    assert_eq!(reverse.get().target_lesson, 5);
    assert_eq!(reverse.get().mutation_type, MutationType::ChangeTime(1));
    let reverse = Mutation::new(6, MutationType::ChangeTeacher(9)).reverse_mutation(previous);
    assert_eq!(reverse.get().target_lesson, 6);
    assert_eq!(reverse.get().mutation_type, MutationType::ChangeTeacher(2));
    let reverse = Mutation::new(7, MutationType::ChangeClassroom(9)).reverse_mutation(previous);
    assert_eq!(reverse.get().target_lesson, 7);
    assert_eq!(reverse.get().mutation_type, MutationType::ChangeClassroom(3));
    let wrapped = ReverseMutation::of(Mutation::new(8, MutationType::ChangeTime(0)));
    assert_eq!(wrapped.get().target_lesson, 8);
    assert_eq!(wrapped.get().mutation_type, MutationType::ChangeTime(0));
}
