use vstd::prelude::*;

use crate::data_types::simple_date::SimpleDate;

verus! {

/// One lesson of a finished timetable, by name.
pub struct LessonOwned {
    pub group: String,
    pub teacher: String,
    pub classroom: String,
    pub subject_name: String,
    pub time: SimpleDate,
}

/// A finished timetable.
pub struct PlanOutput {
    lessons: Vec<LessonOwned>,
}

impl View for PlanOutput {
    type V = Seq<LessonOwned>;

    closed spec fn view(&self) -> Seq<LessonOwned> {
        self.lessons@
    }
}

impl PlanOutput {
    pub fn new() -> (output: Self)
        ensures
            output@ == Seq::<LessonOwned>::empty(),
    {
        Self { lessons: Vec::new() }
    }

    pub fn push_lesson(&mut self, lesson_owned: LessonOwned)
        ensures
            final(self)@ == old(self)@.push(lesson_owned),
    {
        self.lessons.push(lesson_owned);
    }

    #[verifier::when_used_as_spec(spec_len)]
    pub fn len(&self) -> (length: usize)
        ensures
            length == self@.len(),
    {
        self.lessons.len()
    }

    pub closed spec fn spec_len(&self) -> usize {
        self.lessons.len()
    }

    /// The lessons in the order in which they were pushed.
    pub fn lessons(&self) -> (lessons: &Vec<LessonOwned>)
        ensures
            lessons@ == self@,
    {
        &self.lessons
    }
}

} // verus!
