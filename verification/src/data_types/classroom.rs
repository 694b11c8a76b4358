use vstd::prelude::*;

verus! {

/// A room and the number of students it can seat.
#[derive(Debug)]
pub struct Classroom {
    pub name: String,
    pub capacity: i32,
}

impl Classroom {
    /// The room seats a group of `size` students.
    pub open spec fn spec_seats(&self, size: i32) -> bool {
        self.capacity >= size
    }

    #[verifier::when_used_as_spec(spec_seats)]
    pub fn seats(&self, size: i32) -> (enough: bool)
        ensures
            enough == self.spec_seats(size),
    {
        self.capacity >= size
    }
}

} // verus!
