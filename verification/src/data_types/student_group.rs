use vstd::prelude::*;

verus! {

/// A group of students and the names of the subjects it takes.
#[derive(Debug)]
pub struct StudentGroup {
    pub name: String,
    pub size: i32,
    pub subjects: Vec<String>,
}

} // verus!
