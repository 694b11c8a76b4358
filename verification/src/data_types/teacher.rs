use vstd::prelude::*;

verus! {

/// A teacher and the names of the subjects he or she teaches.
#[derive(Debug)]
pub struct Teacher {
    pub name: String,
    pub can_teach: Vec<String>,
}

impl Teacher {
    pub fn new(name: String, can_teach: Vec<String>) -> (teacher: Self)
        ensures
            teacher.name == name,
            teacher.can_teach == can_teach,
    {
        Self { name, can_teach }
    }

    /// The subject named `subject` is among those the teacher teaches.
    pub open spec fn spec_teaches(&self, subject: &String) -> bool {
        exists|i: int|
            0 <= i < self.can_teach@.len() && (#[trigger] self.can_teach@[i])@ == subject@
    }

    #[verifier::when_used_as_spec(spec_teaches)]
    pub fn teaches(&self, subject: &String) -> (able: bool)
        ensures
            able == self.spec_teaches(subject),
    {
        let mut i: usize = 0;
        while i < self.can_teach.len()
            invariant
                i <= self.can_teach.len(),
                forall|j: int| 0 <= j < i ==> (#[trigger] self.can_teach@[j])@ != subject@,
            decreases self.can_teach.len() - i,
        {
            if self.can_teach[i] == *subject {
                return true;
            }
            i += 1;
        }
        false
    }
}

} // verus!
