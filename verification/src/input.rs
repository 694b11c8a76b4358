use vstd::prelude::*;

use crate::data_types::classroom::Classroom;
use crate::data_types::lesson::{classrooms_for, teachers_of, LessonPossible, POSSIBLE_DAYS};
use crate::data_types::simple_date::{SimpleDate, FIRST_HOUR};
use crate::data_types::student_group::StudentGroup;
use crate::data_types::subject::Subject;
use crate::data_types::teacher::Teacher;
use crate::illegal_state::IllegalState;

verus! {

/// The catalog that a timetable is made for.
pub struct PlanInput {
    pub student_groups: Vec<StudentGroup>,
    pub teachers: Vec<Teacher>,
    pub classrooms: Vec<Classroom>,
    pub illegal_states: Vec<IllegalState>,
    pub subjects: Vec<Subject>,
    pub days: u8,
}

/// A lesson that has to take place: the position of its group and of its
/// subject in the catalog.
#[derive(Clone, Copy, Debug, PartialEq, Eq, Structural)]
pub struct LessonInfo {
    pub group: usize,
    pub subject: usize,
}

/// The first position from `from` on at which `names` holds `name`.
pub open spec fn position_of(names: Seq<Seq<char>>, name: Seq<char>, from: int) -> Option<int>
    decreases names.len() - from,
{
    if from < 0 || from >= names.len() {
        None
    } else if names[from] == name {
        Some(from)
    } else {
        position_of(names, name, from + 1)
    }
}

/// `count` lessons of one group in one subject.
pub open spec fn repeated(info: LessonInfo, count: nat) -> Seq<LessonInfo> {
    Seq::new(count, |i: int| info)
}

impl PlanInput {
    pub fn new(
        student_groups: Vec<StudentGroup>,
        teachers: Vec<Teacher>,
        classrooms: Vec<Classroom>,
        illegal_states: Vec<IllegalState>,
        subjects: Vec<Subject>,
        days: u8,
    ) -> (plan: Self)
        ensures
            plan.student_groups == student_groups,
            plan.teachers == teachers,
            plan.classrooms == classrooms,
            plan.illegal_states == illegal_states,
            plan.subjects == subjects,
            plan.days == days,
    {
        Self { student_groups, teachers, classrooms, illegal_states, subjects, days }
    }

    /// The names of the subjects, in catalog order.
    pub open spec fn subject_names(&self) -> Seq<Seq<char>> {
        self.subjects@.map_values(|subject: Subject| subject.name@)
    }

    /// The names of the teachers, in catalog order.
    pub open spec fn teacher_names(&self) -> Seq<Seq<char>> {
        self.teachers@.map_values(|teacher: Teacher| teacher.name@)
    }

    /// The names of the classrooms, in catalog order.
    pub open spec fn classroom_names(&self) -> Seq<Seq<char>> {
        self.classrooms@.map_values(|classroom: Classroom| classroom.name@)
    }

    /// The names of the groups, in catalog order.
    pub open spec fn group_names(&self) -> Seq<Seq<char>> {
        self.student_groups@.map_values(|group: StudentGroup| group.name@)
    }

    /// The position of the first subject that bears `name`.
    pub open spec fn subject_index(&self, name: Seq<char>) -> Option<int> {
        position_of(self.subject_names(), name, 0)
    }

    /// The subject that entry `position` of group `group` names.
    pub open spec fn subject_taken(&self, group: int, position: int) -> Option<int> {
        self.subject_index(self.student_groups@[group].subjects@[position]@)
    }

    /// The lessons that the groups before `group` have to take, followed by
    /// those for the first `positions` entries of `group`: for every entry
    /// as many lessons as its subject counts. There is no such list where
    /// one of these entries names no subject of the catalog.
    pub open spec fn lessons_before(&self, group: int, positions: int) -> Option<Seq<LessonInfo>>
        decreases group, positions,
    {
        if positions > 0 {
            match (
                self.lessons_before(group, positions - 1),
                self.subject_taken(group, positions - 1),
            ) {
                (Some(before), Some(subject)) => Some(
                    before + repeated(
                        LessonInfo { group: group as usize, subject: subject as usize },
                        self.subjects@[subject].lessons() as nat,
                    ),
                ),
                _ => None,
            }
        } else if group > 0 {
            self.lessons_before(
                group - 1,
                self.student_groups@[group - 1].subjects@.len() as int,
            )
        } else {
            Some(Seq::empty())
        }
    }

    /// All lessons that have to take place, group by group in catalog
    /// order.
    pub open spec fn lessons(&self) -> Option<Seq<LessonInfo>> {
        self.lessons_before(self.student_groups@.len() as int, 0)
    }

    /// Every lesson of `list` refers to a group and a subject of the
    /// catalog.
    pub open spec fn covers(&self, list: Seq<LessonInfo>) -> bool {
        forall|k: int|
            0 <= k < list.len() ==> (#[trigger] list[k]).group < self.student_groups@.len()
                && list[k].subject < self.subjects@.len()
    }

    /// The position of the first subject that bears `name`, if there is one.
    pub fn find_subject_index(&self, name: &String) -> (found: Option<usize>)
        ensures
            match found {
                Some(i) => self.subject_index(name@) == Some(i as int) && i
                    < self.subjects@.len(),
                None => self.subject_index(name@).is_none(),
            },
    {
        let mut i: usize = 0;
        while i < self.subjects.len()
            invariant
                i <= self.subjects.len(),
                self.subject_index(name@) == position_of(self.subject_names(), name@, i as int),
            decreases self.subjects.len() - i,
        {
            if self.subjects[i].name == *name {
                return Some(i);
            }
            i += 1;
        }
        None
    }

    /// The id of the first teacher who bears `name`: the teacher's
    /// position in the catalog.
    pub fn find_teacher_index(&self, name: &String) -> (found: Option<usize>)
        ensures
            match found {
                Some(i) => position_of(self.teacher_names(), name@, 0) == Some(i as int) && i
                    < self.teachers@.len(),
                None => position_of(self.teacher_names(), name@, 0).is_none(),
            },
    {
        let mut i: usize = 0;
        while i < self.teachers.len()
            invariant
                i <= self.teachers.len(),
                position_of(self.teacher_names(), name@, 0) == position_of(
                    self.teacher_names(),
                    name@,
                    i as int,
                ),
            decreases self.teachers.len() - i,
        {
            if self.teachers[i].name == *name {
                return Some(i);
            }
            i += 1;
        }
        None
    }

    /// The id of the first classroom that bears `name`: the classroom's
    /// position in the catalog.
    pub fn find_classroom_index(&self, name: &String) -> (found: Option<usize>)
        ensures
            match found {
                Some(i) => position_of(self.classroom_names(), name@, 0) == Some(i as int) && i
                    < self.classrooms@.len(),
                None => position_of(self.classroom_names(), name@, 0).is_none(),
            },
    {
        let mut i: usize = 0;
        while i < self.classrooms.len()
            invariant
                i <= self.classrooms.len(),
                position_of(self.classroom_names(), name@, 0) == position_of(
                    self.classroom_names(),
                    name@,
                    i as int,
                ),
            decreases self.classrooms.len() - i,
        {
            if self.classrooms[i].name == *name {
                return Some(i);
            }
            i += 1;
        }
        None
    }

    /// The id of the first group that bears `name`: the group's position
    /// in the catalog.
    pub fn find_group_index(&self, name: &String) -> (found: Option<usize>)
        ensures
            match found {
                Some(i) => position_of(self.group_names(), name@, 0) == Some(i as int) && i
                    < self.student_groups@.len(),
                None => position_of(self.group_names(), name@, 0).is_none(),
            },
    {
        let mut i: usize = 0;
        while i < self.student_groups.len()
            invariant
                i <= self.student_groups.len(),
                position_of(self.group_names(), name@, 0) == position_of(
                    self.group_names(),
                    name@,
                    i as int,
                ),
            decreases self.student_groups.len() - i,
        {
            if self.student_groups[i].name == *name {
                return Some(i);
            }
            i += 1;
        }
        None
    }

    /// The first subject that bears `name`, if there is one.
    pub fn find_subject(&self, name: &str) -> (found: Option<&Subject>)
        ensures
            match found {
                Some(subject) => self.subject_index(name@) matches Some(i) && *subject
                    == self.subjects@[i],
                None => self.subject_index(name@).is_none(),
            },
    {
        let owned = name.to_owned();
        match self.find_subject_index(&owned) {
            Some(i) => Some(&self.subjects[i]),
            None => None,
        }
    }

    /// Lists the lessons that have to take place. Fails with the group and
    /// the entry of the first subject name that the catalog does not define.
    pub fn required_lessons(&self) -> (listed: Result<Vec<LessonInfo>, (usize, usize)>)
        ensures
            match listed {
                Ok(list) => self.lessons() == Some(list@) && self.covers(list@),
                Err((group, position)) => {
                    &&& group < self.student_groups@.len()
                    &&& position < self.student_groups@[group as int].subjects@.len()
                    &&& self.lessons_before(group as int, position as int).is_some()
                    &&& self.subject_taken(group as int, position as int).is_none()
                    &&& self.lessons().is_none()
                },
            },
    {
        let mut list: Vec<LessonInfo> = Vec::new();
        let mut group: usize = 0;
        while group < self.student_groups.len()
            invariant
                group <= self.student_groups.len(),
                self.lessons_before(group as int, 0) == Some(list@),
                self.covers(list@),
            decreases self.student_groups.len() - group,
        {
            let subjects = &self.student_groups[group].subjects;
            let mut position: usize = 0;
            while position < subjects.len()
                invariant
                    group < self.student_groups.len(),
                    subjects == &self.student_groups@[group as int].subjects,
                    position <= subjects.len(),
                    self.lessons_before(group as int, position as int) == Some(list@),
                    self.covers(list@),
                decreases subjects.len() - position,
            {
                let subject = match self.find_subject_index(&subjects[position]) {
                    Some(subject) => subject,
                    None => {
                        proof {
                            self.lemma_unknown_subject_spoils(group as int, position as int);
                        }
                        return Err((group, position));
                    },
                };
                let info = LessonInfo { group, subject };
                let count = self.subjects[subject].lessons();
                let ghost before = list@;
                let mut added: usize = 0;
                while added < count
                    invariant
                        added <= count,
                        list@ == before + repeated(info, added as nat),
                    decreases count - added,
                {
                    list.push(info);
                    assert(list@ =~= before + repeated(info, (added + 1) as nat));
                    added += 1;
                }
                position += 1;
            }
            group += 1;
        }
        Ok(list)
    }

    /// Once an entry names no subject, no list of lessons exists for
    /// anything that comes after it.
    pub proof fn lemma_unknown_subject_spoils(&self, group: int, position: int)
        requires
            0 <= group < self.student_groups@.len(),
            0 <= position < self.student_groups@[group].subjects@.len(),
            self.subject_taken(group, position).is_none(),
        ensures
            self.lessons().is_none(),
    {
        self.lemma_spoiled_stays(
            group,
            position + 1,
            self.student_groups@.len() as int,
            0,
        );
    }

    proof fn lemma_spoiled_stays(
        &self,
        group: int,
        positions: int,
        later: int,
        later_positions: int,
    )
        requires
            0 <= group < self.student_groups@.len(),
            0 <= positions <= self.student_groups@[group].subjects@.len(),
            self.lessons_before(group, positions).is_none(),
            group <= later <= self.student_groups@.len(),
            0 <= later_positions,
            later < self.student_groups@.len() ==> later_positions
                <= self.student_groups@[later].subjects@.len(),
            later == self.student_groups@.len() ==> later_positions == 0,
            later == group ==> positions <= later_positions,
        ensures
            self.lessons_before(later, later_positions).is_none(),
        decreases later, later_positions,
    {
        if later == group && later_positions == positions {
        } else if later_positions > 0 {
            self.lemma_spoiled_stays(group, positions, later, later_positions - 1);
        } else {
            self.lemma_spoiled_stays(
                group,
                positions,
                later - 1,
                self.student_groups@[later - 1].subjects@.len() as int,
            );
        }
    }

    /// For every lesson that has to take place, the teachers and the
    /// classrooms that come into question. `None` where a group names a
    /// subject that the catalog does not define.
    pub fn possible_lessons(&self) -> (possible: Option<Vec<LessonPossible<'_>>>)
        ensures
            possible.is_some() == self.lessons().is_some(),
            possible matches Some(list) ==> {
                &&& list@.len() == self.lessons().unwrap().len()
                &&& forall|k: int|
                    0 <= k < list@.len() ==> {
                        let info = self.lessons().unwrap()[k];
                        &&& (#[trigger] list@[k]).student_group
                            == &self.student_groups@[info.group as int]
                        &&& list@[k].subject == &self.subjects@[info.subject as int]
                        &&& list@[k].possible_teachers@.map_values(|teacher: &Teacher| *teacher)
                            == teachers_of(
                            self.teachers@,
                            self.teachers@.len() as int,
                            &self.subjects@[info.subject as int].name,
                        )
                        &&& list@[k].possible_classrooms@.map_values(
                            |classroom: &Classroom| *classroom,
                        ) == classrooms_for(
                            self.classrooms@,
                            self.classrooms@.len() as int,
                            self.student_groups@[info.group as int].size,
                        )
                        &&& list@[k].possible_dates.wf()
                        &&& list@[k].possible_dates.days() == POSSIBLE_DAYS
                        &&& list@[k].possible_dates.current() == (SimpleDate {
                            day: 0,
                            hour: FIRST_HOUR,
                        })
                    }
            },
    {
        let required = match self.required_lessons() {
            Ok(required) => required,
            Err(_) => {
                return None;
            },
        };
        let mut result: Vec<LessonPossible<'_>> = Vec::new();
        let mut k: usize = 0;
        while k < required.len()
            invariant
                k <= required.len(),
                self.lessons() == Some(required@),
                self.covers(required@),
                result@.len() == k,
                forall|j: int|
                    0 <= j < k ==> {
                        let info = required@[j];
                        &&& (#[trigger] result@[j]).student_group
                            == &self.student_groups@[info.group as int]
                        &&& result@[j].subject == &self.subjects@[info.subject as int]
                        &&& result@[j].possible_teachers@.map_values(|teacher: &Teacher| *teacher)
                            == teachers_of(
                            self.teachers@,
                            self.teachers@.len() as int,
                            &self.subjects@[info.subject as int].name,
                        )
                        &&& result@[j].possible_classrooms@.map_values(
                            |classroom: &Classroom| *classroom,
                        ) == classrooms_for(
                            self.classrooms@,
                            self.classrooms@.len() as int,
                            self.student_groups@[info.group as int].size,
                        )
                        &&& result@[j].possible_dates.wf()
                        &&& result@[j].possible_dates.days() == POSSIBLE_DAYS
                        &&& result@[j].possible_dates.current() == (SimpleDate {
                            day: 0,
                            hour: FIRST_HOUR,
                        })
                    },
            decreases required.len() - k,
        {
            let info = required[k];
            assert(required@[k as int].group < self.student_groups@.len());
            result.push(
                LessonPossible::new(
                    &self.student_groups[info.group],
                    &self.subjects[info.subject],
                    &self.teachers,
                    &self.classrooms,
                ),
            );
            k += 1;
        }
        Some(result)
    }
}

/// What a search by name finds: the first position that holds the name,
/// and nothing exactly where no position holds it.
pub proof fn lemma_position_of_is_first(names: Seq<Seq<char>>, name: Seq<char>, from: int)
    requires
        0 <= from,
    ensures
        match position_of(names, name, from) {
            Some(found) => {
                &&& from <= found < names.len()
                &&& names[found] == name
                &&& forall|i: int| from <= i < found ==> names[i] != name
            },
            None => forall|i: int| from <= i < names.len() ==> names[i] != name,
        },
    decreases names.len() - from,
{
    if from < names.len() && names[from] != name {
        lemma_position_of_is_first(names, name, from + 1);
    }
}

} // verus!
