use timetable::annealing::annealing_buffer::AnnealingBuffer;
use timetable::annealing::inner_state::{
    slot_code, ClassroomTimeKey, GroupTimeKey, InnerCollision, InnerState, Lesson, TeacherTimeKey,
};
use timetable::annealing::mutation::{Mutation, MutationType};

fn lesson(time: u8, teacher: u8, classroom: u8, group: u8) -> Lesson {
    Lesson { time, teacher, classroom, group }
}

fn lessons_of(state: &InnerState) -> Vec<Lesson> {
    state.state_ref().lessons.clone()
}

#[test]
fn placing_lesson_works() {
    let mut annealing_buffer = AnnealingBuffer::new(3, 10);
    assert!(annealing_buffer.place_lesson(0, 0, 0, 0, 0));
    assert!(annealing_buffer.place_lesson(1, 0, 0, 1, 0));
    assert_eq!(false, annealing_buffer.place_lesson(2, 0, 0, 0, 0));
}

#[test]
fn time_mutation_works() {
    let mut inner_state = InnerState::new(2);
    assert_eq!(inner_state.place_lesson(0, 0, 0, 0, 0), true);
    assert_eq!(inner_state.place_lesson(1, 0, 0, 0, 0), false);
    assert_eq!(inner_state.place_lesson(1, 0, 0, 1, 0), true);

    let mutation = Mutation::new(0, MutationType::ChangeTime(1));
    let rev_mutation = mutation.reverse_mutation(inner_state.state_ref().lessons[0]);

    assert_eq!(inner_state.apply_mutation(mutation), true);

    assert_eq!(inner_state.state_ref().lessons[0].time, 1);
    assert_eq!(inner_state.state_ref().lessons[1].time, 0);

    assert_eq!(inner_state.apply_mutation(rev_mutation.get()), true);

    assert_eq!(inner_state.state_ref().lessons[0].time, 0);
    assert_eq!(inner_state.state_ref().lessons[1].time, 1);
}

#[test]
fn new_state_holds_blank_lessons_and_empty_maps() {
    let state = InnerState::new(4);
    let parts = state.state_ref();
    assert_eq!(parts.lessons.len(), 4);
    for held in parts.lessons.iter() {
        assert_eq!(*held, lesson(0, 0, 0, 0));
    }
    assert!(parts.teacher_time.is_empty());
    assert!(parts.classroom_time.is_empty());
    assert!(parts.group_time.is_empty());
    assert!(!state.assert_maps_synchronized("fresh"));
    assert!(InnerState::new(0).assert_maps_synchronized("no lessons"));
}

#[test]
fn keys_are_derived_from_the_fields() {
    let held = lesson(7, 3, 5, 9);
    assert_eq!(held.teacher_time_key(), TeacherTimeKey { teacher: 3, time: 7 });
    assert_eq!(held.classroom_time_key(), ClassroomTimeKey { classroom: 5, time: 7 });
    assert_eq!(held.group_time_key(), GroupTimeKey { group: 9, time: 7 });
    assert_eq!(held.teacher_time_key().code(), 3 * 256 + 7);
    assert_eq!(held.classroom_time_key().code(), 5 * 256 + 7);
    assert_eq!(held.group_time_key().code(), 9 * 256 + 7);
    assert_eq!(slot_code(255, 255), 65535);
    assert_eq!(slot_code(0, 0), 0);
}

#[test]
fn with_methods_change_one_field() {
    let held = lesson(1, 2, 3, 4);
    assert_eq!(held.with_teacher(9), lesson(1, 9, 3, 4));
    assert_eq!(held.with_classroom(9), lesson(1, 2, 9, 4));
    assert_eq!(held.with_time(9), lesson(9, 2, 3, 4));
    assert_eq!(Lesson::default(), lesson(0, 0, 0, 0));
}

#[test]
fn placing_enters_the_lesson_in_all_three_maps() {
    let mut state = InnerState::new(2);
    assert!(state.place_lesson(1, 4, 5, 6, 7));
    let parts = state.state_ref();
    assert_eq!(parts.lessons[1], lesson(6, 4, 5, 7));
    assert_eq!(parts.teacher_time.get(&slot_code(4, 6)), Some(&1));
    assert_eq!(parts.classroom_time.get(&slot_code(5, 6)), Some(&1));
    assert_eq!(parts.group_time.get(&slot_code(7, 6)), Some(&1));
    assert_eq!(parts.teacher_time.len(), 1);
    assert_eq!(parts.classroom_time.len(), 1);
    assert_eq!(parts.group_time.len(), 1);
}

#[test]
fn place_lesson_rejection_changes_nothing() {
    let mut state = InnerState::new(3);
    assert!(state.place_lesson(0, 0, 0, 0, 0));
    assert!(state.place_lesson(1, 0, 0, 1, 0));
    let before = lessons_of(&state);
    assert!(!state.place_lesson(2, 0, 0, 0, 0));
    assert_eq!(lessons_of(&state), before);
    assert_eq!(state.state_ref().teacher_time.len(), 2);
    assert_eq!(state.state_ref().classroom_time.len(), 2);
    assert_eq!(state.state_ref().group_time.len(), 2);
    // One shared resource is enough to refuse.
    assert!(!state.place_lesson(2, 0, 9, 0, 9));
    assert!(!state.place_lesson(2, 9, 0, 0, 9));
    assert!(!state.place_lesson(2, 9, 9, 0, 0));
    assert!(state.place_lesson(2, 9, 9, 0, 9));
}

#[test]
fn a_lesson_does_not_collide_with_itself() {
    let mut state = InnerState::new(2);
    assert!(state.place_lesson(0, 0, 0, 0, 0));
    assert!(state.place_lesson(1, 1, 1, 0, 1));
    assert_eq!(state.check_collision(lesson(0, 0, 0, 0), 0), InnerCollision::NoCollisions);
    assert_eq!(state.check_collision(lesson(0, 0, 0, 0), 1), InnerCollision::CollidesWithOne(0));
    assert_eq!(state.check_collision(lesson(3, 0, 0, 0), 1), InnerCollision::NoCollisions);
    assert!(InnerCollision::NoCollisions.is_no_collisions());
    assert!(!InnerCollision::CollidesWithOne(0).is_no_collisions());
    assert!(!InnerCollision::TooComplex.is_no_collisions());
}

#[test]
fn several_hits_on_one_lesson_are_one_collision() {
    let mut state = InnerState::new(2);
    assert!(state.place_lesson(0, 2, 3, 4, 5));
    assert_eq!(state.check_collision(lesson(4, 2, 3, 5), 1), InnerCollision::CollidesWithOne(0));
    assert_eq!(state.check_collision(lesson(4, 2, 9, 9), 1), InnerCollision::CollidesWithOne(0));
    assert_eq!(state.check_collision(lesson(4, 9, 3, 9), 1), InnerCollision::CollidesWithOne(0));
    assert_eq!(state.check_collision(lesson(4, 9, 9, 5), 1), InnerCollision::CollidesWithOne(0));
}

#[test]
fn two_lesson_time_swap() {
    let mut state = InnerState::new(2);
    assert!(state.place_lesson(0, 0, 0, 0, 0));
    assert!(state.place_lesson(1, 0, 0, 1, 0));
    let before = lessons_of(&state);

    assert_eq!(state.check_collision(lesson(1, 0, 0, 0), 0), InnerCollision::CollidesWithOne(1));
    assert_eq!(state.check_collision(lesson(0, 0, 0, 0), 1), InnerCollision::CollidesWithOne(0));

    let mutation = Mutation::new(0, MutationType::ChangeTime(1));
    let reverse = mutation.reverse_mutation(state.state_ref().lessons[0]);
    assert_eq!(reverse.get().target_lesson, 0);
    assert_eq!(reverse.get().mutation_type, MutationType::ChangeTime(0));

    assert!(state.apply_mutation(mutation));
    assert_eq!(lessons_of(&state), vec![lesson(1, 0, 0, 0), lesson(0, 0, 0, 0)]);
    assert!(state.assert_maps_synchronized("after swap"));
    assert_eq!(state.state_ref().teacher_time.get(&slot_code(0, 1)), Some(&0));
    assert_eq!(state.state_ref().teacher_time.get(&slot_code(0, 0)), Some(&1));

    assert!(state.apply_mutation(reverse.get()));
    assert_eq!(lessons_of(&state), before);
    assert!(state.assert_maps_synchronized("after reverse"));
    assert_eq!(state.state_ref().teacher_time.get(&slot_code(0, 0)), Some(&0));
    assert_eq!(state.state_ref().teacher_time.get(&slot_code(0, 1)), Some(&1));
}

#[test]
fn too_complex_rejection() {
    let mut state = InnerState::new(3);
    assert!(state.place_lesson(0, 0, 0, 0, 0));
    assert!(state.place_lesson(1, 1, 0, 1, 1));
    assert!(state.place_lesson(2, 0, 1, 1, 2));
    let before = lessons_of(&state);

    assert_eq!(state.check_collision(lesson(1, 0, 0, 0), 0), InnerCollision::TooComplex);
    assert!(!state.apply_mutation(Mutation::new(0, MutationType::ChangeTime(1))));
    assert_eq!(lessons_of(&state), before);
    assert!(state.assert_maps_synchronized("after refusal"));
    assert_eq!(state.state_ref().teacher_time.len(), 3);
    assert_eq!(state.state_ref().classroom_time.len(), 3);
    assert_eq!(state.state_ref().group_time.len(), 3);
}

#[test]
fn time_swap_is_refused_when_the_peer_is_hindered_by_a_third() {
    let mut state = InnerState::new(3);
    // Lesson 1 shares the teacher with lesson 0 and, at time 0, would run
    // into lesson 2, which holds its classroom then.
    assert!(state.place_lesson(0, 0, 0, 0, 0));
    assert!(state.place_lesson(1, 0, 1, 1, 1));
    assert!(state.place_lesson(2, 2, 1, 0, 2));
    let before = lessons_of(&state);
    assert_eq!(state.check_collision(lesson(1, 0, 0, 0), 0), InnerCollision::CollidesWithOne(1));
    assert_eq!(state.check_collision(lesson(0, 0, 1, 1), 1), InnerCollision::TooComplex);
    assert!(!state.apply_mutation(Mutation::new(0, MutationType::ChangeTime(1))));
    assert_eq!(lessons_of(&state), before);
    assert!(state.assert_maps_synchronized("after refusal"));
}

#[test]
fn time_move_without_collision() {
    let mut state = InnerState::new(1);
    assert!(state.place_lesson(0, 1, 2, 3, 4));
    assert!(state.apply_mutation(Mutation::new(0, MutationType::ChangeTime(5))));
    assert_eq!(lessons_of(&state), vec![lesson(5, 1, 2, 4)]);
    let parts = state.state_ref();
    assert_eq!(parts.teacher_time.get(&slot_code(1, 5)), Some(&0));
    assert_eq!(parts.classroom_time.get(&slot_code(2, 5)), Some(&0));
    assert_eq!(parts.group_time.get(&slot_code(4, 5)), Some(&0));
    assert_eq!(parts.teacher_time.get(&slot_code(1, 3)), None);
    assert_eq!(parts.classroom_time.get(&slot_code(2, 3)), None);
    assert_eq!(parts.group_time.get(&slot_code(4, 3)), None);
    assert_eq!(parts.teacher_time.len(), 1);
}

#[test]
fn teacher_change_moves_or_mirrors() {
    let mut state = InnerState::new(2);
    assert!(state.place_lesson(0, 0, 0, 3, 0));
    assert!(state.place_lesson(1, 1, 1, 3, 1));
    let before = lessons_of(&state);

    // A free teacher: a plain move.
    let to_free = Mutation::new(0, MutationType::ChangeTeacher(2));
    let back = to_free.reverse_mutation(state.state_ref().lessons[0]);
    assert!(state.apply_mutation(to_free));
    assert_eq!(lessons_of(&state), vec![lesson(3, 2, 0, 0), lesson(3, 1, 1, 1)]);
    assert!(state.apply_mutation(back.get()));
    assert_eq!(lessons_of(&state), before);

    // A teacher who is busy then: the two lessons exchange teachers.
    let to_busy = Mutation::new(0, MutationType::ChangeTeacher(1));
    let back = to_busy.reverse_mutation(state.state_ref().lessons[0]);
    assert_eq!(back.get().mutation_type, MutationType::ChangeTeacher(0));
    assert!(state.apply_mutation(to_busy));
    assert_eq!(lessons_of(&state), vec![lesson(3, 1, 0, 0), lesson(3, 0, 1, 1)]);
    assert!(state.assert_maps_synchronized("after mirror swap"));
    assert_eq!(state.state_ref().teacher_time.get(&slot_code(1, 3)), Some(&0));
    assert_eq!(state.state_ref().teacher_time.get(&slot_code(0, 3)), Some(&1));
    assert!(state.apply_mutation(back.get()));
    assert_eq!(lessons_of(&state), before);
    assert!(state.assert_maps_synchronized("after reverse"));
}

#[test]
fn classroom_change_moves_or_mirrors() {
    let mut state = InnerState::new(2);
    assert!(state.place_lesson(0, 0, 0, 3, 0));
    assert!(state.place_lesson(1, 1, 1, 3, 1));
    let before = lessons_of(&state);

    let to_free = Mutation::new(1, MutationType::ChangeClassroom(7));
    let back = to_free.reverse_mutation(state.state_ref().lessons[1]);
    assert!(state.apply_mutation(to_free));
    assert_eq!(lessons_of(&state), vec![lesson(3, 0, 0, 0), lesson(3, 1, 7, 1)]);
    assert!(state.apply_mutation(back.get()));
    assert_eq!(lessons_of(&state), before);

    let to_busy = Mutation::new(1, MutationType::ChangeClassroom(0));
    let back = to_busy.reverse_mutation(state.state_ref().lessons[1]);
    assert_eq!(back.get().mutation_type, MutationType::ChangeClassroom(1));
    assert!(state.apply_mutation(to_busy));
    assert_eq!(lessons_of(&state), vec![lesson(3, 0, 1, 0), lesson(3, 1, 0, 1)]);
    assert!(state.assert_maps_synchronized("after mirror swap"));
    assert!(state.apply_mutation(back.get()));
    assert_eq!(lessons_of(&state), before);
}

#[test]
fn a_mutation_to_the_value_held_changes_nothing() {
    let mut state = InnerState::new(2);
    assert!(state.place_lesson(0, 0, 0, 0, 0));
    assert!(state.place_lesson(1, 1, 1, 1, 1));
    let before = lessons_of(&state);
    assert!(state.apply_mutation(Mutation::new(0, MutationType::ChangeTime(0))));
    assert!(state.apply_mutation(Mutation::new(0, MutationType::ChangeTeacher(0))));
    assert!(state.apply_mutation(Mutation::new(1, MutationType::ChangeClassroom(1))));
    assert_eq!(lessons_of(&state), before);
    assert!(state.assert_maps_synchronized("after idle mutations"));
}

#[test]
fn reverse_after_a_refused_mutation_leaves_the_state() {
    let mut buffer = AnnealingBuffer::new(3, 10);
    assert!(buffer.place_lesson(0, 0, 0, 0, 0));
    assert!(buffer.place_lesson(1, 1, 0, 1, 1));
    assert!(buffer.place_lesson(2, 0, 1, 1, 2));
    let before = lessons_of(&buffer.inner_state);
    let reverse = buffer.apply_mutation(Mutation::new(0, MutationType::ChangeTime(1)));
    assert_eq!(lessons_of(&buffer.inner_state), before);
    buffer.apply_reverse_mutation(reverse);
    assert_eq!(lessons_of(&buffer.inner_state), before);
    assert!(buffer.assert_maps_synchronized("after refusal and reverse"));
}

#[test]
fn every_mutation_of_a_small_state_is_undone_by_its_reverse() {
    let mut buffer = AnnealingBuffer::new(4, 4);
    assert!(buffer.place_lesson(0, 0, 0, 0, 0));
    assert!(buffer.place_lesson(1, 1, 1, 0, 1));
    assert!(buffer.place_lesson(2, 0, 1, 1, 2));
    assert!(buffer.place_lesson(3, 2, 2, 2, 0));
    let before = lessons_of(&buffer.inner_state);
    for target in 0..4 {
        for value in 0..4u8 {
            for kind in 0..3 {
                let mutation_type = match kind {
                    0 => MutationType::ChangeTime(value),
                    1 => MutationType::ChangeTeacher(value),
                    _ => MutationType::ChangeClassroom(value),
                };
                let reverse = buffer.apply_mutation(Mutation::new(target, mutation_type));
                assert!(buffer.assert_maps_synchronized("after mutation"));
                assert_eq!(buffer.inner_state.state_ref().teacher_time.len(), 4);
                assert_eq!(buffer.inner_state.state_ref().classroom_time.len(), 4);
                assert_eq!(buffer.inner_state.state_ref().group_time.len(), 4);
                buffer.apply_reverse_mutation(reverse);
                assert_eq!(lessons_of(&buffer.inner_state), before);
                assert!(buffer.assert_maps_synchronized("after reverse"));
            }
        }
    }
}

#[test]
fn buffer_starts_with_the_given_time_range() {
    let buffer = AnnealingBuffer::new(5, 12);
    assert_eq!(buffer.max_time, 12);
    assert_eq!(buffer.teacher_count, 0);
    assert_eq!(buffer.classroom_count, 0);
    assert!(buffer.can_teach.is_empty());
    assert!(buffer.can_hold.is_empty());
    assert_eq!(buffer.inner_state.state_ref().lessons.len(), 5);
}
