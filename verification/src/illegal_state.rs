use vstd::prelude::*;

use crate::annealing::inner_state::Lesson;
use crate::data_types::simple_date::SimpleDate;

verus! {

/// The resource that a forbidden pattern is about.
#[derive(Clone, Copy, Debug, PartialEq, Eq, Structural)]
pub enum IllegalStateSubject {
    StudentGroup(u8),
    Teacher(u8),
    Classroom(u8),
}

/// What the resource of a forbidden pattern must not meet.
#[derive(Clone, Copy, Debug, PartialEq, Eq, Structural)]
pub enum IllegalStateObject {
    StudentGroup(u8),
    Teacher(u8),
    Day(u8),
    DayHour(SimpleDate),
    Classroom(u8),
}

/// A forbidden pattern: no lesson may involve both the subject and the
/// object.
#[derive(Clone, Copy, Debug, PartialEq, Eq, Structural)]
pub struct IllegalState {
    pub subject: IllegalStateSubject,
    pub object: IllegalStateObject,
}

impl IllegalStateSubject {
    /// The lesson involves the resource.
    pub open spec fn involved_in(self, lesson: Lesson) -> bool {
        match self {
            IllegalStateSubject::StudentGroup(group) => lesson.group == group,
            IllegalStateSubject::Teacher(teacher) => lesson.teacher == teacher,
            IllegalStateSubject::Classroom(classroom) => lesson.classroom == classroom,
        }
    }
}

impl IllegalStateObject {
    /// The lesson involves the resource, or falls on the day, or starts at
    /// the date.
    pub open spec fn involved_in(self, lesson: Lesson) -> bool {
        match self {
            IllegalStateObject::Day(day) => SimpleDate::of_slot(lesson.time).day == day,
            IllegalStateObject::DayHour(date) => SimpleDate::of_slot(lesson.time) == date,
            IllegalStateObject::Teacher(teacher) => lesson.teacher == teacher,
            IllegalStateObject::Classroom(classroom) => lesson.classroom == classroom,
            IllegalStateObject::StudentGroup(group) => lesson.group == group,
        }
    }
}

impl IllegalState {
    /// Subject and object name a resource of the same kind, so that no
    /// lesson can be meant.
    pub open spec fn spec_is_logic_error(&self) -> bool {
        match (self.subject, self.object) {
            (IllegalStateSubject::StudentGroup(_), IllegalStateObject::StudentGroup(_)) => true,
            (IllegalStateSubject::Teacher(_), IllegalStateObject::Teacher(_)) => true,
            (IllegalStateSubject::Classroom(_), IllegalStateObject::Classroom(_)) => true,
            _ => false,
        }
    }

    /// The lesson involves both the subject and the object.
    pub open spec fn spec_is_violated_by(&self, lesson: Lesson) -> bool {
        self.subject.involved_in(lesson) && self.object.involved_in(lesson)
    }

    #[verifier::when_used_as_spec(spec_is_logic_error)]
    pub fn is_logic_error(&self) -> (meaningless: bool)
        ensures
            meaningless == self.spec_is_logic_error(),
    {
        match self.subject {
            IllegalStateSubject::StudentGroup(_) => match self.object {
                IllegalStateObject::StudentGroup(_) => true,
                _ => false,
            },
            IllegalStateSubject::Teacher(_) => match self.object {
                IllegalStateObject::Teacher(_) => true,
                _ => false,
            },
            IllegalStateSubject::Classroom(_) => match self.object {
                IllegalStateObject::Classroom(_) => true,
                _ => false,
            },
        }
    }

    #[verifier::when_used_as_spec(spec_is_violated_by)]
    pub fn is_violated_by(&self, lesson: Lesson) -> (violated: bool)
        ensures
            violated == self.spec_is_violated_by(lesson),
    {
        let contains_subject = match self.subject {
            IllegalStateSubject::StudentGroup(x) => lesson.group == x,
            IllegalStateSubject::Teacher(x) => lesson.teacher == x,
            IllegalStateSubject::Classroom(x) => lesson.classroom == x,
        };

        let contains_object = match self.object {
            IllegalStateObject::Day(x) => SimpleDate::from_u8_time(lesson.time).day == x,
            IllegalStateObject::DayHour(x) => SimpleDate::from_u8_time(lesson.time) == x,
            IllegalStateObject::Teacher(x) => lesson.teacher == x,
            IllegalStateObject::Classroom(x) => lesson.classroom == x,
            IllegalStateObject::StudentGroup(x) => lesson.group == x,
        };

        contains_subject && contains_object
    }
}

} // verus!
