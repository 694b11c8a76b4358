use timetable::annealing::illegal_buffer::{pair_code, CanHold, CanTeach, IllegalBuffer};
use timetable::annealing::inner_state::Lesson;
use timetable::data_types::SimpleDate;
use timetable::illegal_state::IllegalState;
use timetable::illegal_state::IllegalStateObject as O;
use timetable::illegal_state::IllegalStateSubject as S;

fn lesson(time: u8, teacher: u8, classroom: u8, group: u8) -> Lesson {
    Lesson { time, teacher, classroom, group }
}

fn pattern(subject: S, object: O) -> IllegalState {
    IllegalState { subject, object }
}

#[test]
fn same_kind_of_resource_is_a_logic_error() {
    assert!(pattern(S::StudentGroup(1), O::StudentGroup(2)).is_logic_error());
    assert!(pattern(S::Teacher(1), O::Teacher(1)).is_logic_error());
    assert!(pattern(S::Classroom(0), O::Classroom(9)).is_logic_error());
    assert!(!pattern(S::StudentGroup(1), O::Teacher(2)).is_logic_error());
    assert!(!pattern(S::StudentGroup(1), O::Classroom(2)).is_logic_error());
    assert!(!pattern(S::StudentGroup(1), O::Day(2)).is_logic_error());
    assert!(!pattern(S::Teacher(1), O::StudentGroup(2)).is_logic_error());
    assert!(!pattern(S::Teacher(1), O::Classroom(2)).is_logic_error());
    assert!(!pattern(S::Teacher(1), O::DayHour(SimpleDate::new(0, 8))).is_logic_error());
    assert!(!pattern(S::Classroom(1), O::Teacher(2)).is_logic_error());
    assert!(!pattern(S::Classroom(1), O::StudentGroup(2)).is_logic_error());
    assert!(!pattern(S::Classroom(1), O::Day(0)).is_logic_error());
}

#[test]
fn a_pattern_is_violated_when_subject_and_object_match() {
    let held = lesson(8, 2, 3, 4);
    // Slot 8 is day 1, 12 o'clock.
    assert!(pattern(S::Teacher(2), O::Day(1)).is_violated_by(held));
    assert!(!pattern(S::Teacher(2), O::Day(0)).is_violated_by(held));
    assert!(!pattern(S::Teacher(9), O::Day(1)).is_violated_by(held));
    assert!(pattern(S::StudentGroup(4), O::DayHour(SimpleDate::new(1, 12))).is_violated_by(held));
    assert!(!pattern(S::StudentGroup(4), O::DayHour(SimpleDate::new(1, 14))).is_violated_by(held));
    assert!(!pattern(S::StudentGroup(4), O::DayHour(SimpleDate::new(0, 12))).is_violated_by(held));
    assert!(pattern(S::Classroom(3), O::Teacher(2)).is_violated_by(held));
    assert!(!pattern(S::Classroom(3), O::Teacher(3)).is_violated_by(held));
    assert!(pattern(S::Teacher(2), O::Classroom(3)).is_violated_by(held));
    assert!(pattern(S::Teacher(2), O::StudentGroup(4)).is_violated_by(held));
    assert!(!pattern(S::Teacher(2), O::StudentGroup(5)).is_violated_by(held));
    assert!(!pattern(S::Classroom(4), O::StudentGroup(4)).is_violated_by(held));
}

#[test]
fn buffer_drops_logic_errors_at_load() {
    let held = lesson(0, 1, 1, 1);
    let only_errors = IllegalBuffer::new(
        Vec::new(),
        Vec::new(),
        vec![pattern(S::Teacher(1), O::Teacher(1)), pattern(S::Classroom(1), O::Classroom(1))],
    );
    assert!(!only_errors.is_illegal(held));
    let mixed = IllegalBuffer::new(
        Vec::new(),
        Vec::new(),
        vec![
            pattern(S::Teacher(1), O::Teacher(1)),
            pattern(S::Teacher(1), O::Day(0)),
            pattern(S::StudentGroup(1), O::StudentGroup(1)),
        ],
    );
    assert!(mixed.is_illegal(held));
    assert!(!mixed.is_illegal(lesson(6, 1, 1, 1)));
    assert!(!mixed.is_illegal(lesson(0, 2, 1, 1)));
}

#[test]
fn empty_buffer_forbids_nothing_and_permits_nothing() {
    let buffer = IllegalBuffer::new(Vec::new(), Vec::new(), Vec::new());
    assert!(!buffer.is_illegal(lesson(0, 0, 0, 0)));
    assert!(!buffer.can_teach(CanTeach { lesson_id: 0, teacher_id: 0 }));
    assert!(!buffer.can_hold(CanHold { classroom_id: 0, lesson_id: 0 }));
}

#[test]
fn permissions_are_sets_of_pairs() {
    let mut buffer = IllegalBuffer::new(
        vec![
            CanTeach { lesson_id: 1, teacher_id: 2 },
            CanTeach { lesson_id: 1, teacher_id: 2 },
            CanTeach { lesson_id: 300, teacher_id: 0 },
        ],
        vec![CanHold { classroom_id: 4, lesson_id: 3 }],
        Vec::new(),
    );
    assert!(buffer.can_teach(CanTeach { lesson_id: 1, teacher_id: 2 }));
    assert!(buffer.can_teach(CanTeach { lesson_id: 300, teacher_id: 0 }));
    assert!(!buffer.can_teach(CanTeach { lesson_id: 2, teacher_id: 1 }));
    assert!(!buffer.can_teach(CanTeach { lesson_id: 0, teacher_id: 44 }));
    assert!(buffer.can_hold(CanHold { classroom_id: 4, lesson_id: 3 }));
    assert!(!buffer.can_hold(CanHold { classroom_id: 3, lesson_id: 4 }));

    assert!(!buffer.insert_can_teach(CanTeach { lesson_id: 1, teacher_id: 2 }));
    assert!(buffer.insert_can_teach(CanTeach { lesson_id: 2, teacher_id: 1 }));
    assert!(buffer.can_teach(CanTeach { lesson_id: 2, teacher_id: 1 }));
    assert!(!buffer.insert_can_teach(CanTeach { lesson_id: 2, teacher_id: 1 }));
    assert!(buffer.insert_can_hold(CanHold { classroom_id: 3, lesson_id: 4 }));
    assert!(!buffer.insert_can_hold(CanHold { classroom_id: 3, lesson_id: 4 }));
    assert!(buffer.can_hold(CanHold { classroom_id: 3, lesson_id: 4 }));
    // A permission to teach is none to hold.
    assert!(!buffer.can_hold(CanHold { classroom_id: 2, lesson_id: 1 }));
}

#[test]
fn pair_codes_tell_pairs_apart() {
    assert_eq!(pair_code(0, 0), 0);
    assert_eq!(pair_code(1, 0), 256);
    assert_eq!(pair_code(0, 255), 255);
    assert_eq!(pair_code(3, 7), 3 * 256 + 7);
    assert_eq!(CanTeach { lesson_id: 3, teacher_id: 7 }.code(), 3 * 256 + 7);
    assert_eq!(CanHold { classroom_id: 7, lesson_id: 3 }.code(), 3 * 256 + 7);
    assert_eq!(pair_code(usize::MAX, 255), (usize::MAX as u128) * 256 + 255);
}
