use vstd::prelude::*;

verus! {

/// The form in which a subject is taught.
#[derive(Debug)]
pub enum SubjectType {
    Laboratorium,
    Cwiczenia,
    Wyklad,
    Projekt,
}

/// A subject and the number of lessons of it that a group takes in one
/// session.
#[derive(Debug)]
pub struct Subject {
    pub name: String,
    pub subject_type: SubjectType,
    pub count: i8,
}

impl Subject {
    pub fn new(name: String, subject_type: SubjectType, count: i8) -> (subject: Self)
        ensures
            subject.name == name,
            subject.subject_type == subject_type,
            subject.count == count,
    {
        Self { name, subject_type, count }
    }

    /// The number of lessons that one group takes: `count`, or none where
    /// `count` is negative.
    pub open spec fn spec_lessons(&self) -> usize {
        if self.count > 0 {
            self.count as usize
        } else {
            0
        }
    }

    #[verifier::when_used_as_spec(spec_lessons)]
    pub fn lessons(&self) -> (lessons: usize)
        ensures
            lessons == self.spec_lessons(),
    {
        if self.count > 0 {
            self.count as usize
        } else {
            0
        }
    }
}

} // verus!
