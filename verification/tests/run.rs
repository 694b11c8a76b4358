use timetable::annealing::annealing_buffer::AnnealingBuffer;
use timetable::annealing::annealing_run::{AnnealingRun, Settlement, StepStart};
use timetable::annealing::energy::BufferStatistics;
use timetable::annealing::inner_state::Lesson;

fn seeded_buffer() -> AnnealingBuffer {
    let mut buffer = AnnealingBuffer::new(4, 6);
    buffer.teacher_count = 3;
    buffer.classroom_count = 2;
    assert!(buffer.place_lesson(0, 0, 0, 0, 0));
    assert!(buffer.place_lesson(1, 1, 0, 1, 0));
    assert!(buffer.place_lesson(2, 2, 1, 0, 1));
    assert!(buffer.place_lesson(3, 0, 1, 5, 1));
    buffer
}

fn lessons_of(run: &AnnealingRun) -> Vec<Lesson> {
    run.buffer().inner_state.state_ref().lessons.clone()
}

#[test]
fn a_run_starts_on_a_fit_buffer_only() {
    assert!(AnnealingRun::new(seeded_buffer(), 10).is_ok());

    // Nothing to mutate.
    let mut empty = AnnealingBuffer::new(0, 6);
    empty.teacher_count = 1;
    empty.classroom_count = 1;
    assert!(AnnealingRun::new(empty, 10).is_err());

    // A lesson that is not placed.
    let mut unplaced = AnnealingBuffer::new(2, 6);
    unplaced.teacher_count = 1;
    unplaced.classroom_count = 1;
    assert!(unplaced.place_lesson(0, 0, 0, 0, 0));
    assert!(AnnealingRun::new(unplaced, 10).is_err());

    // Nothing to draw from.
    for (max_time, teachers, classrooms) in [(0, 3, 2), (6, 0, 2), (6, 3, 0)] {
        let mut buffer = seeded_buffer();
        buffer.max_time = max_time;
        buffer.teacher_count = teachers;
        buffer.classroom_count = classrooms;
        assert!(AnnealingRun::new(buffer, 10).is_err());
    }

    // A lesson outside the domains.
    for (max_time, teachers, classrooms) in [(5, 3, 2), (6, 2, 2), (6, 3, 1)] {
        let mut buffer = seeded_buffer();
        buffer.max_time = max_time;
        buffer.teacher_count = teachers;
        buffer.classroom_count = classrooms;
        let returned = AnnealingRun::new(buffer, 10).err().unwrap();
        assert_eq!(returned.max_time, max_time);
        assert_eq!(returned.inner_state.state_ref().lessons.len(), 4);
    }
}

#[test]
fn a_fresh_run_holds_the_figures_of_its_buffer() {
    let run = AnnealingRun::new(seeded_buffer(), 10).ok().unwrap();
    assert!(!run.is_pending());
    assert_eq!(run.iteration(), 0);
    assert_eq!(run.max_iterations(), 10);
    assert_eq!(run.annealing_state().steps_left(), 10);
    assert_eq!(run.watch().flat_steps(), 0);
    assert_eq!(run.watch().rejections(), 0);
    // Group 0 at times 0 and 1, group 1 at 0 and 5; teacher 0 at 0 and 5.
    assert_eq!(run.statistics().group_gaps(), 1 + 5);
    assert_eq!(run.statistics().teacher_gaps(), 5);
    assert_eq!(run.buffer().max_time, 6);
    assert_eq!(run.buffer().teacher_count, 3);
    assert_eq!(run.buffer().classroom_count, 2);
}

#[test]
fn a_rejected_proposal_is_undone() {
    let mut run = AnnealingRun::new(seeded_buffer(), 1000).ok().unwrap();
    let before = lessons_of(&run);
    let mut changed = 0;
    for _ in 0..500 {
        assert_eq!(run.begin_step(false), StepStart::Propose);
        run.propose();
        assert!(run.is_pending());
        assert!(run.buffer().assert_maps_synchronized("proposed"));
        let proposed = lessons_of(&run);
        if proposed != before {
            changed += 1;
        }
        let mut statistics = BufferStatistics::new();
        statistics.emplace_of_buffer(run.buffer());
        assert_eq!(statistics.group_gaps(), run.statistics().group_gaps());
        assert_eq!(statistics.teacher_gaps(), run.statistics().teacher_gaps());
        assert_eq!(statistics.gaps_energy(), run.statistics().gaps_energy());

        assert_eq!(run.settle(false), Settlement::Rejected);
        assert!(!run.is_pending());
        assert_eq!(lessons_of(&run), before);
        assert!(run.buffer().assert_maps_synchronized("undone"));
        assert_eq!(run.iteration(), 0);
        assert_eq!(run.watch().rejections(), 1);
    }
    assert!(changed > 0);
}

#[test]
fn rejections_in_a_row_are_counted_within_a_step() {
    let mut run = AnnealingRun::new(seeded_buffer(), 1000).ok().unwrap();
    assert_eq!(run.begin_step(false), StepStart::Propose);
    for rejected in 1..=20 {
        run.propose();
        assert_eq!(run.settle(false), Settlement::Rejected);
        assert_eq!(run.watch().rejections(), rejected);
    }
    run.propose();
    assert_eq!(run.settle(true), Settlement::Accepted);
    assert_eq!(run.watch().rejections(), 0);
    assert_eq!(run.iteration(), 1);
}

#[test]
fn accepted_proposals_stay_and_take_steps() {
    let mut run = AnnealingRun::new(seeded_buffer(), 300).ok().unwrap();
    for step in 0..300 {
        assert_eq!(run.iteration(), step);
        assert_eq!(run.annealing_state().steps_left(), 300 - step);
        assert_eq!(run.begin_step(true), StepStart::Propose);
        assert_eq!(run.watch().flat_steps(), step + 1);
        run.propose();
        let proposed = lessons_of(&run);
        assert_eq!(run.settle(true), Settlement::Accepted);
        assert_eq!(lessons_of(&run), proposed);
        assert!(run.buffer().assert_maps_synchronized("accepted"));
        for lesson in &proposed {
            assert!(lesson.time < 6 && lesson.teacher < 3 && lesson.classroom < 2);
        }
        // No mutation touches the group of a lesson.
        let groups: Vec<u8> = proposed.iter().map(|lesson| lesson.group).collect();
        assert_eq!(groups, vec![0, 0, 1, 1]);
    }
    assert_eq!(run.begin_step(true), StepStart::Finished);
    assert_eq!(run.begin_step(false), StepStart::Finished);
    assert_eq!(run.watch().flat_steps(), 300);
    let buffer = run.into_buffer();
    assert!(buffer.assert_maps_synchronized("after the run"));
    assert_eq!(buffer.inner_state.state_ref().lessons.len(), 4);
    assert_eq!((buffer.max_time, buffer.teacher_count, buffer.classroom_count), (6, 3, 2));
}

#[test]
fn a_run_of_no_steps_is_finished_at_once() {
    let mut run = AnnealingRun::new(seeded_buffer(), 0).ok().unwrap();
    let before = lessons_of(&run);
    assert_eq!(run.begin_step(false), StepStart::Finished);
    assert_eq!(run.into_buffer().inner_state.state_ref().lessons.clone(), before);
}
