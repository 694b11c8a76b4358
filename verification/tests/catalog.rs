use timetable::data_types::{
    Classroom, DateList, Lesson, LessonPossible, SimpleDate, StudentGroup, Subject, SubjectType,
    Teacher,
};
use timetable::input::PlanInput;
use timetable::output::{LessonOwned, PlanOutput};

fn group(name: &str, size: i32, subjects: &[&str]) -> StudentGroup {
    StudentGroup {
        name: name.to_string(),
        size,
        subjects: subjects.iter().map(|subject| subject.to_string()).collect(),
    }
}

fn teacher(name: &str, can_teach: &[&str]) -> Teacher {
    Teacher::new(name.to_string(), can_teach.iter().map(|subject| subject.to_string()).collect())
}

fn classroom(name: &str, capacity: i32) -> Classroom {
    Classroom { name: name.to_string(), capacity }
}

fn plan() -> PlanInput {
    PlanInput::new(
        vec![group("first", 20, &["math", "art"]), group("second", 40, &["art"])],
        vec![teacher("Ada", &["art"]), teacher("Bob", &["math", "art"]), teacher("Ada", &[])],
        vec![classroom("small", 25), classroom("large", 50), classroom("tiny", 19)],
        Vec::new(),
        vec![
            Subject::new("math".to_string(), SubjectType::Wyklad, 2),
            Subject::new("art".to_string(), SubjectType::Laboratorium, 1),
            Subject::new("math".to_string(), SubjectType::Projekt, 5),
            Subject::new("rest".to_string(), SubjectType::Cwiczenia, -3),
        ],
        2,
    )
}

#[test]
fn time_decomposition_roundtrip() {
    for t in 0..=255u8 {
        let date = SimpleDate::from_u8_time(t);
        assert_eq!(date.day, t / 6);
        assert_eq!(date.hour, 8 + 2 * (t % 6));
        assert_eq!(date.hour % 2, 0);
        assert!(date.hour < 20);
        assert_eq!((date.day as u16) * 6 + ((date.hour - 8) / 2) as u16, t as u16);
    }
    assert_eq!(SimpleDate::from_u8_time(0), SimpleDate { day: 0, hour: 8 });
    assert_eq!(SimpleDate::from_u8_time(5), SimpleDate { day: 0, hour: 18 });
    assert_eq!(SimpleDate::from_u8_time(6), SimpleDate { day: 1, hour: 8 });
    assert_eq!(SimpleDate::from_u8_time(255), SimpleDate { day: 42, hour: 14 });
}

#[test]
fn a_date_keeps_its_day_and_hour() {
    let date = SimpleDate::new(3, 22);
    assert_eq!(date.day, 3);
    assert_eq!(date.hour, 22);
    assert_eq!(SimpleDate::new(0, 0), SimpleDate { day: 0, hour: 0 });
}

#[test]
fn date_list_runs_from_eight_to_twenty_day_by_day() {
    let mut list = DateList::new(2);
    let mut dates = Vec::new();
    while let Some(date) = list.next() {
        dates.push((date.day, date.hour));
    }
    let mut expected = Vec::new();
    for day in 0..2u8 {
        for hour in [8u8, 10, 12, 14, 16, 18, 20] {
            expected.push((day, hour));
        }
    }
    assert_eq!(dates, expected);
    assert_eq!(list.next(), None);
    assert_eq!(DateList::new(0).next(), None);
}

#[test]
fn date_list_reaches_the_last_day() {
    let mut list = DateList::new(255);
    let mut count = 0;
    let mut last = None;
    while let Some(date) = list.next() {
        count += 1;
        last = Some(date);
    }
    assert_eq!(count, 255 * 7);
    assert_eq!(last, Some(SimpleDate { day: 254, hour: 20 }));
}

#[test]
fn a_teacher_teaches_the_subjects_listed() {
    let bob = teacher("Bob", &["math", "art"]);
    assert!(bob.teaches(&"math".to_string()));
    assert!(bob.teaches(&"art".to_string()));
    assert!(!bob.teaches(&"Math".to_string()));
    assert!(!bob.teaches(&"".to_string()));
    assert!(!teacher("Nobody", &[]).teaches(&"math".to_string()));
    assert_eq!(bob.name, "Bob");
    assert_eq!(bob.can_teach, vec!["math".to_string(), "art".to_string()]);
}

#[test]
fn a_classroom_seats_groups_up_to_its_capacity() {
    let room = classroom("R", 30);
    assert!(room.seats(30));
    assert!(room.seats(0));
    assert!(room.seats(-1));
    assert!(!room.seats(31));
}

#[test]
fn a_subject_counts_its_lessons() {
    let subject = Subject::new("math".to_string(), SubjectType::Cwiczenia, 3);
    assert_eq!(subject.name, "math");
    assert_eq!(subject.count, 3);
    assert!(matches!(subject.subject_type, SubjectType::Cwiczenia));
    assert_eq!(subject.lessons(), 3);
    assert_eq!(Subject::new("x".to_string(), SubjectType::Projekt, 0).lessons(), 0);
    assert_eq!(Subject::new("x".to_string(), SubjectType::Projekt, -128).lessons(), 0);
    assert_eq!(Subject::new("x".to_string(), SubjectType::Projekt, 127).lessons(), 127);
}

#[test]
fn find_subject_returns_the_first_of_that_name() {
    let plan = plan();
    let math = plan.find_subject("math").unwrap();
    assert_eq!(math.count, 2);
    assert_eq!(plan.find_subject("art").unwrap().count, 1);
    assert!(plan.find_subject("chess").is_none());
    assert_eq!(plan.find_subject_index(&"math".to_string()), Some(0));
    assert_eq!(plan.find_subject_index(&"rest".to_string()), Some(3));
    assert_eq!(plan.find_subject_index(&"chess".to_string()), None);
}

#[test]
fn ids_are_positions_in_the_catalog() {
    let plan = plan();
    assert_eq!(plan.find_teacher_index(&"Ada".to_string()), Some(0));
    assert_eq!(plan.find_teacher_index(&"Bob".to_string()), Some(1));
    assert_eq!(plan.find_teacher_index(&"Cy".to_string()), None);
    assert_eq!(plan.find_classroom_index(&"tiny".to_string()), Some(2));
    assert_eq!(plan.find_classroom_index(&"huge".to_string()), None);
    assert_eq!(plan.find_group_index(&"second".to_string()), Some(1));
    assert_eq!(plan.find_group_index(&"third".to_string()), None);
}

#[test]
fn plan_input_keeps_what_it_is_given() {
    let plan = plan();
    assert_eq!(plan.student_groups.len(), 2);
    assert_eq!(plan.student_groups[1].name, "second");
    assert_eq!(plan.teachers.len(), 3);
    assert_eq!(plan.classrooms.len(), 3);
    assert_eq!(plan.subjects.len(), 4);
    assert!(plan.illegal_states.is_empty());
    assert_eq!(plan.days, 2);
}

#[test]
fn possible_lessons_list_who_and_where() {
    let plan = plan();
    let possible = plan.possible_lessons().unwrap();
    // math twice and art once for the first group, art once for the second.
    assert_eq!(possible.len(), 4);
    let names = |lesson: &LessonPossible| -> (String, String, Vec<String>, Vec<String>) {
        (
            lesson.student_group.name.clone(),
            lesson.subject.name.clone(),
            lesson.possible_teachers.iter().map(|teacher| teacher.name.clone()).collect(),
            lesson.possible_classrooms.iter().map(|room| room.name.clone()).collect(),
        )
    };
    let text = |names: &[&str]| -> Vec<String> { names.iter().map(|n| n.to_string()).collect() };
    for lesson in &possible[0..2] {
        assert_eq!(
            names(lesson),
            ("first".to_string(), "math".to_string(), text(&["Bob"]), text(&["small", "large"]))
        );
        assert_eq!(lesson.subject.count, 2);
    }
    assert_eq!(
        names(&possible[2]),
        ("first".to_string(), "art".to_string(), text(&["Ada", "Bob"]), text(&["small", "large"]))
    );
    assert_eq!(
        names(&possible[3]),
        ("second".to_string(), "art".to_string(), text(&["Ada", "Bob"]), text(&["large"]))
    );
    let mut dates = possible[3].possible_dates.clone();
    assert_eq!(dates.next(), Some(SimpleDate { day: 0, hour: 8 }));
    let mut count = 1;
    while dates.next().is_some() {
        count += 1;
    }
    assert_eq!(count, 14);
}

#[test]
fn lesson_possible_filters_teachers_and_classrooms() {
    let group = group("G", 26, &[]);
    let subject = Subject::new("art".to_string(), SubjectType::Wyklad, 1);
    let teachers = vec![teacher("Ada", &["art"]), teacher("Bob", &["math"]), teacher("Cy", &["art"])];
    let classrooms = vec![classroom("small", 25), classroom("exact", 26), classroom("large", 50)];
    let possible = LessonPossible::new(&group, &subject, &teachers, &classrooms);
    assert_eq!(possible.student_group.name, "G");
    assert_eq!(possible.subject.name, "art");
    let teacher_names: Vec<&str> =
        possible.possible_teachers.iter().map(|teacher| teacher.name.as_str()).collect();
    assert_eq!(teacher_names, vec!["Ada", "Cy"]);
    let classroom_names: Vec<&str> =
        possible.possible_classrooms.iter().map(|room| room.name.as_str()).collect();
    assert_eq!(classroom_names, vec!["exact", "large"]);
}

#[test]
fn plan_output_collects_lessons_in_order() {
    let mut output = PlanOutput::new();
    assert_eq!(output.len(), 0);
    for (i, name) in ["a", "b", "c"].iter().enumerate() {
        output.push_lesson(LessonOwned {
            group: name.to_string(),
            teacher: "T".to_string(),
            classroom: "R".to_string(),
            subject_name: "S".to_string(),
            time: SimpleDate::from_u8_time(i as u8),
        });
        assert_eq!(output.len(), i + 1);
    }
    let groups: Vec<&str> = output.lessons().iter().map(|lesson| lesson.group.as_str()).collect();
    assert_eq!(groups, vec!["a", "b", "c"]);
    assert_eq!(output.lessons()[2].time, SimpleDate { day: 0, hour: 12 });
}

#[test]
fn a_lesson_is_made_of_its_parts() {
    let group = group("G", 26, &[]);
    let subject = Subject::new("art".to_string(), SubjectType::Wyklad, 1);
    let ada = teacher("Ada", &["art"]);
    let room = classroom("R", 30);
    let lesson = Lesson::from((&group, &subject, (&ada, &room, SimpleDate::new(1, 10))));
    assert_eq!(lesson.student_group.name, "G");
    assert_eq!(lesson.subject.name, "art");
    assert_eq!(lesson.teacher.name, "Ada");
    assert_eq!(lesson.classroom.name, "R");
    assert_eq!(lesson.date, SimpleDate { day: 1, hour: 10 });
}
