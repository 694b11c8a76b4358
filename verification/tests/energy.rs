use timetable::annealing::annealing_buffer::AnnealingBuffer;
use timetable::annealing::energy::{BufferStatistics, Party};
use timetable::annealing::inner_state::Lesson;
use timetable::annealing::mutation::{Mutation, MutationType};

fn buffer_of(lessons: &[(u8, u8, u8, u8)]) -> AnnealingBuffer {
    let mut buffer = AnnealingBuffer::new(lessons.len(), 255);
    for (id, (time, teacher, classroom, group)) in lessons.iter().enumerate() {
        assert!(buffer.place_lesson(id, *teacher, *classroom, *time, *group));
    }
    buffer
}

fn statistics_of(lessons: &[(u8, u8, u8, u8)]) -> BufferStatistics {
    let mut statistics = BufferStatistics::new();
    statistics.emplace_of_buffer(&buffer_of(lessons));
    statistics
}

#[test]
fn fresh_statistics_are_zero() {
    let statistics = BufferStatistics::new();
    assert_eq!(statistics.group_gaps(), 0);
    assert_eq!(statistics.teacher_gaps(), 0);
    assert_eq!(statistics.gaps_energy(), (0, 0));
}

#[test]
fn energy_gap_counting() {
    // Group 0 has lessons at times 0 and 2, on the same day.
    let statistics = statistics_of(&[(0, 0, 0, 0), (2, 1, 1, 0)]);
    assert_eq!(statistics.group_gaps(), 2);
    assert_eq!(statistics.teacher_gaps(), 0);
}

#[test]
fn a_lesson_on_the_next_day_opens_no_gap() {
    let statistics = statistics_of(&[(0, 0, 0, 0), (6, 1, 1, 0)]);
    assert_eq!(statistics.group_gaps(), 0);
    let statistics = statistics_of(&[(0, 0, 0, 0), (2, 1, 1, 0), (6, 2, 2, 0)]);
    assert_eq!(statistics.group_gaps(), 2);
    let statistics = statistics_of(&[(5, 0, 0, 0), (6, 1, 1, 0)]);
    assert_eq!(statistics.group_gaps(), 0);
}

#[test]
fn gaps_are_counted_between_neighbours_only() {
    // Times 0, 1 and 5 of one group and one teacher: 1 + 4.
    let statistics = statistics_of(&[(5, 0, 0, 0), (0, 0, 1, 0), (1, 0, 2, 0)]);
    assert_eq!(statistics.group_gaps(), 5);
    assert_eq!(statistics.teacher_gaps(), 5);
}

#[test]
fn gaps_add_up_over_groups_and_teachers() {
    let statistics = statistics_of(&[
        (0, 0, 0, 0),
        (2, 1, 0, 0),
        (6, 0, 0, 0),
        (1, 0, 1, 1),
        (13, 7, 3, 200),
        (17, 7, 3, 200),
    ]);
    // Group 0: 0 -> 2; group 200: 13 -> 17, both on day 2.
    assert_eq!(statistics.group_gaps(), 2 + 4);
    // Teacher 0: 0 -> 1; teacher 7: 13 -> 17.
    assert_eq!(statistics.teacher_gaps(), 1 + 4);
}

#[test]
fn unplaced_lessons_count_as_blank_lessons() {
    let mut buffer = AnnealingBuffer::new(3, 10);
    assert!(buffer.place_lesson(1, 0, 0, 3, 0));
    let mut statistics = BufferStatistics::new();
    statistics.emplace_of_buffer(&buffer);
    // Lessons 0 and 2 stand at time 0 with group 0 and teacher 0.
    assert_eq!(statistics.group_gaps(), 3);
    assert_eq!(statistics.teacher_gaps(), 3);
}

#[test]
fn imbalance_leaves_out_the_latest_day_and_the_highest_party() {
    let statistics = statistics_of(&[(0, 0, 0, 0), (2, 1, 0, 0), (6, 0, 0, 0), (1, 0, 1, 1)]);
    // Latest day 1, highest group 1, highest teacher 1: only day 0 with
    // group 0 and teacher 0 counts, each with two lessons.
    assert_eq!(statistics.gaps_energy(), (2, 2));
}

#[test]
fn imbalance_is_the_distance_from_four_lessons() {
    // Group 0 has five lessons on day 0 and one on day 1; group 1 one on
    // day 0; group 2 sets the bound. Teachers 0..5 have one lesson each on
    // day 0, teacher 9 sets the bound and the latest day.
    let statistics = statistics_of(&[
        (0, 0, 0, 0),
        (1, 1, 0, 0),
        (2, 2, 0, 0),
        (3, 3, 0, 0),
        (4, 4, 0, 0),
        (6, 0, 0, 0),
        (0, 5, 1, 1),
        (13, 9, 9, 2),
    ]);
    // Days 0 and 1, groups 0 and 1: |4-5| + |4-1| on day 0, |4-1| on day 1.
    // Teachers 0..8: six with one lesson on day 0, teacher 0 with one on
    // day 1.
    assert_eq!(statistics.gaps_energy(), (1 + 3 + 3, 6 * 3 + 3));
}

#[test]
fn emplace_starts_from_scratch() {
    let mut statistics = statistics_of(&[(0, 0, 0, 0), (2, 0, 1, 0), (30, 9, 9, 9)]);
    assert_eq!(statistics.group_gaps(), 2);
    statistics.emplace_of_buffer(&buffer_of(&[(0, 0, 0, 0)]));
    assert_eq!(statistics.group_gaps(), 0);
    assert_eq!(statistics.teacher_gaps(), 0);
    assert_eq!(statistics.gaps_energy(), (0, 0));
}

#[test]
fn clear_empties_the_tables_and_keeps_the_maxima() {
    let mut statistics = statistics_of(&[(0, 0, 0, 0), (2, 0, 1, 0), (6, 1, 1, 1)]);
    assert_eq!(statistics.group_gaps(), 2);
    assert_eq!(statistics.gaps_energy(), (2, 2));
    statistics.clear();
    assert_eq!(statistics.group_gaps(), 0);
    assert_eq!(statistics.teacher_gaps(), 0);
    assert_eq!(statistics.gaps_energy(), (0, 0));
}

#[test]
fn statistics_follow_a_mutation_and_its_reverse() {
    let mut buffer = buffer_of(&[(0, 0, 0, 0), (2, 1, 1, 0)]);
    let mut statistics = BufferStatistics::new();
    statistics.emplace_of_buffer(&buffer);
    assert_eq!(statistics.group_gaps(), 2);
    let reverse = buffer.apply_mutation(Mutation::new(1, MutationType::ChangeTime(5)));
    statistics.emplace_of_buffer(&buffer);
    assert_eq!(statistics.group_gaps(), 5);
    buffer.apply_reverse_mutation(reverse);
    statistics.emplace_of_buffer(&buffer);
    assert_eq!(statistics.group_gaps(), 2);
}

#[test]
fn a_party_is_the_group_or_the_teacher() {
    let lesson = Lesson { time: 1, teacher: 2, classroom: 3, group: 4 };
    assert_eq!(Party::Group.of(lesson), 4);
    assert_eq!(Party::Teacher.of(lesson), 2);
}
