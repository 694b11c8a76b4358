use vstd::prelude::*;

use super::classroom::Classroom;
use super::simple_date::{DateList, SimpleDate, FIRST_HOUR};
use super::student_group::StudentGroup;
use super::subject::Subject;
use super::teacher::Teacher;

verus! {

/// A lesson that has to take place, with the teachers and classrooms that
/// come into question for it.
#[derive(Debug)]
pub struct LessonPossible<'a> {
    pub student_group: &'a StudentGroup,
    pub subject: &'a Subject,
    pub possible_teachers: Vec<&'a Teacher>,
    pub possible_classrooms: Vec<&'a Classroom>,
    pub possible_dates: DateList,
}

/// Number of days over which the dates of a possible lesson run.
pub const POSSIBLE_DAYS: u8 = 2;

/// The teachers among the first `count` who teach `subject`, in catalog
/// order.
pub open spec fn teachers_of(all: Seq<Teacher>, count: int, subject: &String) -> Seq<Teacher>
    decreases count,
{
    if count <= 0 {
        Seq::empty()
    } else if all[count - 1].teaches(subject) {
        teachers_of(all, count - 1, subject).push(all[count - 1])
    } else {
        teachers_of(all, count - 1, subject)
    }
}

/// The classrooms among the first `count` that seat `size` students, in
/// catalog order.
pub open spec fn classrooms_for(all: Seq<Classroom>, count: int, size: i32) -> Seq<Classroom>
    decreases count,
{
    if count <= 0 {
        Seq::empty()
    } else if all[count - 1].seats(size) {
        classrooms_for(all, count - 1, size).push(all[count - 1])
    } else {
        classrooms_for(all, count - 1, size)
    }
}

impl<'a> LessonPossible<'a> {
    pub fn new(
        student_group: &'a StudentGroup,
        subject: &'a Subject,
        all_teachers: &'a Vec<Teacher>,
        all_classrooms: &'a Vec<Classroom>,
    ) -> (possible: Self)
        ensures
            possible.student_group == student_group,
            possible.subject == subject,
            possible.possible_teachers@.map_values(|teacher: &Teacher| *teacher) == teachers_of(
                all_teachers@,
                all_teachers@.len() as int,
                &subject.name,
            ),
            possible.possible_classrooms@.map_values(|classroom: &Classroom| *classroom)
                == classrooms_for(
                all_classrooms@,
                all_classrooms@.len() as int,
                student_group.size,
            ),
            possible.possible_dates.wf(),
            possible.possible_dates.days() == POSSIBLE_DAYS,
            possible.possible_dates.current() == (SimpleDate { day: 0, hour: FIRST_HOUR }),
    {
        let mut possible_teachers: Vec<&'a Teacher> = Vec::new();
        let mut i: usize = 0;
        while i < all_teachers.len()
            invariant
                i <= all_teachers.len(),
                possible_teachers@.map_values(|teacher: &Teacher| *teacher) == teachers_of(
                    all_teachers@,
                    i as int,
                    &subject.name,
                ),
            decreases all_teachers.len() - i,
        {
            let ghost before = possible_teachers@;
            if all_teachers[i].teaches(&subject.name) {
                possible_teachers.push(&all_teachers[i]);
                assert(possible_teachers@.map_values(|teacher: &Teacher| *teacher)
                    =~= before.map_values(|teacher: &Teacher| *teacher).push(
                    all_teachers@[i as int],
                ));
            }
            i += 1;
        }

        let mut possible_classrooms: Vec<&'a Classroom> = Vec::new();
        let mut j: usize = 0;
        while j < all_classrooms.len()
            invariant
                j <= all_classrooms.len(),
                possible_classrooms@.map_values(|classroom: &Classroom| *classroom)
                    == classrooms_for(all_classrooms@, j as int, student_group.size),
            decreases all_classrooms.len() - j,
        {
            let ghost before = possible_classrooms@;
            if all_classrooms[j].seats(student_group.size) {
                possible_classrooms.push(&all_classrooms[j]);
                assert(possible_classrooms@.map_values(|classroom: &Classroom| *classroom)
                    =~= before.map_values(|classroom: &Classroom| *classroom).push(
                    all_classrooms@[j as int],
                ));
            }
            j += 1;
        }

        Self {
            student_group,
            subject,
            possible_teachers,
            possible_classrooms,
            possible_dates: DateList::new(POSSIBLE_DAYS),
        }
    }
}

/// A lesson with everything settled, in terms of the catalog.
#[derive(Debug, Clone)]
pub struct Lesson<'a> {
    pub student_group: &'a StudentGroup,
    pub subject: &'a Subject,
    pub teacher: &'a Teacher,
    pub classroom: &'a Classroom,
    pub date: SimpleDate,
}

/// The parts of a lesson as a product of choices hands them over: the
/// group and the subject, then the teacher, the classroom and the date.
pub type LessonRawPossibility<'a> = (
    &'a StudentGroup,
    &'a Subject,
    (&'a Teacher, &'a Classroom, SimpleDate),
);

impl<'a> From<LessonRawPossibility<'a>> for Lesson<'a> {
    fn from(p: LessonRawPossibility<'a>) -> (lesson: Self) {
        Self { student_group: p.0, subject: p.1, teacher: p.2.0, classroom: p.2.1, date: p.2.2 }
    }
}

impl<'a> vstd::std_specs::convert::FromSpecImpl<LessonRawPossibility<'a>> for Lesson<'a> {
    open spec fn obeys_from_spec() -> bool {
        true
    }

    open spec fn from_spec(p: LessonRawPossibility<'a>) -> Self {
        Lesson { student_group: p.0, subject: p.1, teacher: p.2.0, classroom: p.2.1, date: p.2.2 }
    }
}

} // verus!
