//! Catalog records and calendar values.

pub mod classroom;
pub mod lesson;
pub mod simple_date;
pub mod student_group;
pub mod subject;
pub mod teacher;

pub use classroom::Classroom;
pub use lesson::{Lesson, LessonPossible, LessonRawPossibility};
pub use simple_date::{DateList, SimpleDate};
pub use student_group::StudentGroup;
pub use subject::{Subject, SubjectType};
pub use teacher::Teacher;
