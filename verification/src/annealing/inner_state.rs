use std::collections::HashMap;
use vstd::prelude::*;
use vstd::set_lib::{lemma_int_range, lemma_map_size, lemma_subset_equality, set_int_range};

use super::mutation::{Mutation, MutationType};

verus! {

/// The number under which a `(resource, time)` pair is stored in a slot map.
pub open spec fn spec_slot_code(who: u8, time: u8) -> u16 {
    (who * 256 + time) as u16
}

#[verifier::when_used_as_spec(spec_slot_code)]
pub fn slot_code(who: u8, time: u8) -> (code: u16)
    ensures
        code == spec_slot_code(who, time),
{
    let high: u16 = who as u16;
    let low: u16 = time as u16;
    high * 256 + low
}

/// A classroom at a time.
#[derive(Clone, Copy, Hash, PartialEq, Eq, Debug, Structural)]
pub struct ClassroomTimeKey {
    pub classroom: u8,
    pub time: u8,
}

/// A teacher at a time.
#[derive(Clone, Copy, Hash, PartialEq, Eq, Debug, Structural)]
pub struct TeacherTimeKey {
    pub teacher: u8,
    pub time: u8,
}

/// A group at a time.
#[derive(Clone, Copy, Hash, PartialEq, Eq, Debug, Structural)]
pub struct GroupTimeKey {
    pub group: u8,
    pub time: u8,
}

impl ClassroomTimeKey {
    pub open spec fn spec_code(self) -> u16 {
        slot_code(self.classroom, self.time)
    }

    #[verifier::when_used_as_spec(spec_code)]
    pub fn code(self) -> (code: u16)
        ensures
            code == self.spec_code(),
    {
        slot_code(self.classroom, self.time)
    }
}

impl TeacherTimeKey {
    pub open spec fn spec_code(self) -> u16 {
        slot_code(self.teacher, self.time)
    }

    #[verifier::when_used_as_spec(spec_code)]
    pub fn code(self) -> (code: u16)
        ensures
            code == self.spec_code(),
    {
        slot_code(self.teacher, self.time)
    }
}

impl GroupTimeKey {
    pub open spec fn spec_code(self) -> u16 {
        slot_code(self.group, self.time)
    }

    #[verifier::when_used_as_spec(spec_code)]
    pub fn code(self) -> (code: u16)
        ensures
            code == self.spec_code(),
    {
        slot_code(self.group, self.time)
    }
}

/// One teaching session: who teaches which group where and when.
/// A lesson is identified by its position in the lesson vector, never by
/// the values it holds.
#[derive(Clone, Copy, Debug, PartialEq, Eq, Structural)]
pub struct Lesson {
    pub time: u8,
    pub teacher: u8,
    pub classroom: u8,
    pub group: u8,
}

impl Default for Lesson {
    fn default() -> (lesson: Lesson)
        ensures
            lesson == Lesson::blank(),
    {
        Lesson { time: 0, teacher: 0, classroom: 0, group: 0 }
    }
}

impl Lesson {
    /// The lesson that fills the vector before anything is placed.
    pub open spec fn blank() -> Lesson {
        Lesson { time: 0, teacher: 0, classroom: 0, group: 0 }
    }

    pub open spec fn spec_teacher_time_key(&self) -> TeacherTimeKey {
        TeacherTimeKey { teacher: self.teacher, time: self.time }
    }

    pub open spec fn spec_classroom_time_key(&self) -> ClassroomTimeKey {
        ClassroomTimeKey { classroom: self.classroom, time: self.time }
    }

    pub open spec fn spec_group_time_key(&self) -> GroupTimeKey {
        GroupTimeKey { group: self.group, time: self.time }
    }

    pub open spec fn spec_with_teacher(&self, teacher: u8) -> Lesson {
        Lesson { teacher, ..*self }
    }

    pub open spec fn spec_with_classroom(&self, classroom: u8) -> Lesson {
        Lesson { classroom, ..*self }
    }

    pub open spec fn spec_with_time(&self, time: u8) -> Lesson {
        Lesson { time, ..*self }
    }

    #[verifier::when_used_as_spec(spec_teacher_time_key)]
    pub fn teacher_time_key(&self) -> (key: TeacherTimeKey)
        ensures
            key == self.spec_teacher_time_key(),
    {
        TeacherTimeKey { teacher: self.teacher, time: self.time }
    }

    #[verifier::when_used_as_spec(spec_classroom_time_key)]
    pub fn classroom_time_key(&self) -> (key: ClassroomTimeKey)
        ensures
            key == self.spec_classroom_time_key(),
    {
        ClassroomTimeKey { classroom: self.classroom, time: self.time }
    }

    #[verifier::when_used_as_spec(spec_group_time_key)]
    pub fn group_time_key(&self) -> (key: GroupTimeKey)
        ensures
            key == self.spec_group_time_key(),
    {
        GroupTimeKey { group: self.group, time: self.time }
    }

    #[verifier::when_used_as_spec(spec_with_teacher)]
    pub fn with_teacher(&self, teacher: u8) -> (lesson: Lesson)
        ensures
            lesson == self.spec_with_teacher(teacher),
    {
        Lesson { teacher, ..*self }
    }

    #[verifier::when_used_as_spec(spec_with_classroom)]
    pub fn with_classroom(&self, classroom: u8) -> (lesson: Lesson)
        ensures
            lesson == self.spec_with_classroom(classroom),
    {
        Lesson { classroom, ..*self }
    }

    #[verifier::when_used_as_spec(spec_with_time)]
    pub fn with_time(&self, time: u8) -> (lesson: Lesson)
        ensures
            lesson == self.spec_with_time(time),
    {
        Lesson { time, ..*self }
    }

    /// The lesson with the field that `change` names set to the value it
    /// carries.
    pub open spec fn changed(self, change: MutationType) -> Lesson {
        match change {
            MutationType::ChangeTeacher(teacher) => self.with_teacher(teacher),
            MutationType::ChangeClassroom(classroom) => self.with_classroom(classroom),
            MutationType::ChangeTime(time) => self.with_time(time),
        }
    }

    /// The lesson with the field that `change` names taken over from
    /// `donor`.
    pub open spec fn inheriting(self, donor: Lesson, change: MutationType) -> Lesson {
        self.changed(change.restoring(donor))
    }
}

/// What stands in the way of giving a lesson a new set of slots.
#[derive(Clone, Copy, PartialEq, Eq, Debug, Structural)]
pub enum InnerCollision {
    NoCollisions,
    CollidesWithOne(usize),
    TooComplex,
}

impl InnerCollision {
    pub fn is_no_collisions(&self) -> (none: bool)
        ensures
            none == (*self == InnerCollision::NoCollisions),
    {
        if let Self::NoCollisions = self {
            true
        } else {
            false
        }
    }

    /// The verdict after one more slot was looked up and found held by
    /// `occupant`.
    pub open spec fn and_then_seeing(self, occupant: Option<usize>) -> InnerCollision {
        match occupant {
            None => self,
            Some(other) => match self {
                InnerCollision::NoCollisions => InnerCollision::CollidesWithOne(other),
                InnerCollision::CollidesWithOne(previous) => if previous == other {
                    self
                } else {
                    InnerCollision::TooComplex
                },
                InnerCollision::TooComplex => InnerCollision::TooComplex,
            },
        }
    }
}

/// The lesson other than `lesson_id` that holds `key`, if there is one.
pub open spec fn occupant<K>(slots: Map<K, usize>, key: K, lesson_id: usize) -> Option<usize> {
    if slots.contains_key(key) && slots[key] != lesson_id {
        Some(slots[key])
    } else {
        None
    }
}

/// The mathematical content of an [`InnerState`]: the lessons in order of
/// their ids, and for each kind of resource the lesson that holds it at
/// each time.
pub struct InnerStateView {
    pub lessons: Seq<Lesson>,
    pub teacher_time: Map<TeacherTimeKey, usize>,
    pub classroom_time: Map<ClassroomTimeKey, usize>,
    pub group_time: Map<GroupTimeKey, usize>,
}

impl InnerStateView {
    /// The state of `lesson_count` blank lessons, none of them placed.
    pub open spec fn empty(lesson_count: nat) -> InnerStateView {
        InnerStateView {
            lessons: Seq::new(lesson_count, |k: int| Lesson::blank()),
            teacher_time: Map::empty(),
            classroom_time: Map::empty(),
            group_time: Map::empty(),
        }
    }

    /// The teacher map sends the teacher key of lesson `k` to `k`.
    pub open spec fn holds_teacher_slot(self, k: int) -> bool {
        self.teacher_time.contains_pair(self.lessons[k].teacher_time_key(), k as usize)
    }

    /// The classroom map sends the classroom key of lesson `k` to `k`.
    pub open spec fn holds_classroom_slot(self, k: int) -> bool {
        self.classroom_time.contains_pair(self.lessons[k].classroom_time_key(), k as usize)
    }

    /// The group map sends the group key of lesson `k` to `k`.
    pub open spec fn holds_group_slot(self, k: int) -> bool {
        self.group_time.contains_pair(self.lessons[k].group_time_key(), k as usize)
    }

    /// Lesson `k` is entered in all three maps, under the keys derived from
    /// its own fields.
    pub open spec fn is_placed(self, k: int) -> bool {
        &&& 0 <= k < self.lessons.len()
        &&& self.holds_teacher_slot(k)
        &&& self.holds_classroom_slot(k)
        &&& self.holds_group_slot(k)
    }

    /// Every entry of every map names a lesson whose fields give that very
    /// key, and a lesson is entered in all three maps or in none. Lesson ids
    /// fit the machine word.
    pub open spec fn wf(self) -> bool {
        &&& self.lessons.len() <= usize::MAX
        &&& forall|key: TeacherTimeKey| #[trigger]
            self.teacher_time.contains_key(key) ==> {
                &&& self.teacher_time[key] < self.lessons.len()
                &&& self.lessons[self.teacher_time[key] as int].teacher_time_key() == key
            }
        &&& forall|key: ClassroomTimeKey| #[trigger]
            self.classroom_time.contains_key(key) ==> {
                &&& self.classroom_time[key] < self.lessons.len()
                &&& self.lessons[self.classroom_time[key] as int].classroom_time_key() == key
            }
        &&& forall|key: GroupTimeKey| #[trigger]
            self.group_time.contains_key(key) ==> {
                &&& self.group_time[key] < self.lessons.len()
                &&& self.lessons[self.group_time[key] as int].group_time_key() == key
            }
        &&& forall|k: int|
            0 <= k < self.lessons.len() ==> {
                &&& #[trigger] self.holds_teacher_slot(k) == self.holds_classroom_slot(k)
                &&& self.holds_teacher_slot(k) == self.holds_group_slot(k)
            }
    }

    /// The state is well formed and every lesson is placed.
    pub open spec fn synchronized(self) -> bool {
        &&& self.wf()
        &&& forall|k: int| 0 <= k < self.lessons.len() ==> #[trigger] self.is_placed(k)
    }

    /// Every lesson lies before `max_time` and names a teacher and a
    /// classroom below the given counts.
    pub open spec fn within(self, max_time: int, classroom_count: int, teacher_count: int) -> bool {
        forall|k: int|
            0 <= k < self.lessons.len() ==> {
                &&& (#[trigger] self.lessons[k]).time < max_time
                &&& self.lessons[k].classroom < classroom_count
                &&& self.lessons[k].teacher < teacher_count
            }
    }

    /// All three slots that `lesson` would take are free.
    pub open spec fn all_free(self, lesson: Lesson) -> bool {
        &&& !self.group_time.contains_key(lesson.group_time_key())
        &&& !self.teacher_time.contains_key(lesson.teacher_time_key())
        &&& !self.classroom_time.contains_key(lesson.classroom_time_key())
    }

    /// Lesson `other` is not `lesson_id` and holds one of the three slots
    /// that `lesson` would take.
    pub open spec fn in_the_way(self, lesson: Lesson, lesson_id: usize, other: usize) -> bool {
        &&& other != lesson_id
        &&& {
            ||| self.group_time.contains_pair(lesson.group_time_key(), other)
            ||| self.teacher_time.contains_pair(lesson.teacher_time_key(), other)
            ||| self.classroom_time.contains_pair(lesson.classroom_time_key(), other)
        }
    }

    /// What stands in the way of lesson `lesson_id` taking the slots of
    /// `lesson`: nothing, one other lesson, or more than one.
    pub open spec fn collision(self, lesson: Lesson, lesson_id: usize) -> InnerCollision {
        InnerCollision::NoCollisions.and_then_seeing(
            occupant(self.group_time, lesson.group_time_key(), lesson_id),
        ).and_then_seeing(
            occupant(self.teacher_time, lesson.teacher_time_key(), lesson_id),
        ).and_then_seeing(occupant(self.classroom_time, lesson.classroom_time_key(), lesson_id))
    }

    /// The state with the slots of lesson `k` released. The lesson vector
    /// keeps its value.
    pub open spec fn without(self, k: int) -> InnerStateView {
        InnerStateView {
            lessons: self.lessons,
            teacher_time: self.teacher_time.remove(self.lessons[k].teacher_time_key()),
            classroom_time: self.classroom_time.remove(self.lessons[k].classroom_time_key()),
            group_time: self.group_time.remove(self.lessons[k].group_time_key()),
        }
    }

    /// The state with `lesson` stored under id `k` and entered in all three
    /// maps.
    pub open spec fn with_lesson(self, k: int, lesson: Lesson) -> InnerStateView {
        InnerStateView {
            lessons: self.lessons.update(k, lesson),
            teacher_time: self.teacher_time.insert(lesson.teacher_time_key(), k as usize),
            classroom_time: self.classroom_time.insert(lesson.classroom_time_key(), k as usize),
            group_time: self.group_time.insert(lesson.group_time_key(), k as usize),
        }
    }

    /// The state with lesson `k` moved to the slots of `lesson`.
    pub open spec fn moved(self, k: int, lesson: Lesson) -> InnerStateView {
        self.without(k).with_lesson(k, lesson)
    }

    /// The state with lessons `left` and `right` both released and then
    /// both entered anew.
    pub open spec fn replaced(
        self,
        left: int,
        left_new: Lesson,
        right: int,
        right_new: Lesson,
    ) -> InnerStateView {
        self.without(left).without(right).with_lesson(left, left_new).with_lesson(
            right,
            right_new,
        )
    }

    /// Whether `mutation` is carried out, as a plain move or as a swap with
    /// the one lesson in its way.
    pub open spec fn accepts(self, mutation: Mutation) -> bool {
        let target = mutation.target_lesson;
        let old_state = self.lessons[target as int];
        let new_state = old_state.changed(mutation.mutation_type);
        match self.collision(new_state, target) {
            InnerCollision::NoCollisions => true,
            InnerCollision::CollidesWithOne(peer) => match mutation.mutation_type {
                MutationType::ChangeTime(_) => self.collision(
                    self.lessons[peer as int].inheriting(old_state, mutation.mutation_type),
                    peer,
                ) == InnerCollision::CollidesWithOne(target),
                _ => true,
            },
            InnerCollision::TooComplex => false,
        }
    }

    /// The state that `mutation` leaves behind: unchanged where the
    /// mutation is refused; otherwise the target holds its changed value
    /// and the lesson that stood in its way, if any, has taken over the
    /// target's former value of the changed field.
    pub open spec fn after(self, mutation: Mutation) -> InnerStateView {
        let target = mutation.target_lesson;
        let old_state = self.lessons[target as int];
        let new_state = old_state.changed(mutation.mutation_type);
        if !self.accepts(mutation) {
            self
        } else {
            match self.collision(new_state, target) {
                InnerCollision::CollidesWithOne(peer) => self.replaced(
                    target as int,
                    new_state,
                    peer as int,
                    self.lessons[peer as int].inheriting(old_state, mutation.mutation_type),
                ),
                _ => self.moved(target as int, new_state),
            }
        }
    }
}

/// The teacher map that a raw map of slot codes stands for.
pub open spec fn teacher_slots(raw: Map<u16, usize>) -> Map<TeacherTimeKey, usize> {
    Map::new(
        |key: TeacherTimeKey| raw.contains_key(key.code()),
        |key: TeacherTimeKey| raw[key.code()],
    )
}

/// The classroom map that a raw map of slot codes stands for.
pub open spec fn classroom_slots(raw: Map<u16, usize>) -> Map<ClassroomTimeKey, usize> {
    Map::new(
        |key: ClassroomTimeKey| raw.contains_key(key.code()),
        |key: ClassroomTimeKey| raw[key.code()],
    )
}

/// The group map that a raw map of slot codes stands for.
pub open spec fn group_slots(raw: Map<u16, usize>) -> Map<GroupTimeKey, usize> {
    Map::new(
        |key: GroupTimeKey| raw.contains_key(key.code()),
        |key: GroupTimeKey| raw[key.code()],
    )
}

/// Distinct pairs have distinct slot codes.
pub proof fn lemma_slot_code_injective(who: u8, time: u8, other_who: u8, other_time: u8)
    ensures
        slot_code(who, time) == slot_code(other_who, other_time) ==> who == other_who && time
            == other_time,
{
}

proof fn lemma_teacher_slots_insert(raw: Map<u16, usize>, key: TeacherTimeKey, k: usize)
    ensures
        teacher_slots(raw.insert(key.code(), k)) == teacher_slots(raw).insert(key, k),
{
    assert forall|other: TeacherTimeKey| other.code() == key.code() implies other == key by {
        lemma_slot_code_injective(other.teacher, other.time, key.teacher, key.time);
    }
    assert(teacher_slots(raw.insert(key.code(), k)) =~= teacher_slots(raw).insert(key, k));
}

proof fn lemma_teacher_slots_remove(raw: Map<u16, usize>, key: TeacherTimeKey)
    ensures
        teacher_slots(raw.remove(key.code())) == teacher_slots(raw).remove(key),
{
    assert forall|other: TeacherTimeKey| other.code() == key.code() implies other == key by {
        lemma_slot_code_injective(other.teacher, other.time, key.teacher, key.time);
    }
    assert(teacher_slots(raw.remove(key.code())) =~= teacher_slots(raw).remove(key));
}

proof fn lemma_classroom_slots_insert(raw: Map<u16, usize>, key: ClassroomTimeKey, k: usize)
    ensures
        classroom_slots(raw.insert(key.code(), k)) == classroom_slots(raw).insert(key, k),
{
    assert forall|other: ClassroomTimeKey| other.code() == key.code() implies other == key by {
        lemma_slot_code_injective(other.classroom, other.time, key.classroom, key.time);
    }
    assert(classroom_slots(raw.insert(key.code(), k)) =~= classroom_slots(raw).insert(key, k));
}

proof fn lemma_classroom_slots_remove(raw: Map<u16, usize>, key: ClassroomTimeKey)
    ensures
        classroom_slots(raw.remove(key.code())) == classroom_slots(raw).remove(key),
{
    assert forall|other: ClassroomTimeKey| other.code() == key.code() implies other == key by {
        lemma_slot_code_injective(other.classroom, other.time, key.classroom, key.time);
    }
    assert(classroom_slots(raw.remove(key.code())) =~= classroom_slots(raw).remove(key));
}

proof fn lemma_group_slots_insert(raw: Map<u16, usize>, key: GroupTimeKey, k: usize)
    ensures
        group_slots(raw.insert(key.code(), k)) == group_slots(raw).insert(key, k),
{
    assert forall|other: GroupTimeKey| other.code() == key.code() implies other == key by {
        lemma_slot_code_injective(other.group, other.time, key.group, key.time);
    }
    assert(group_slots(raw.insert(key.code(), k)) =~= group_slots(raw).insert(key, k));
}

proof fn lemma_group_slots_remove(raw: Map<u16, usize>, key: GroupTimeKey)
    ensures
        group_slots(raw.remove(key.code())) == group_slots(raw).remove(key),
{
    assert forall|other: GroupTimeKey| other.code() == key.code() implies other == key by {
        lemma_slot_code_injective(other.group, other.time, key.group, key.time);
    }
    assert(group_slots(raw.remove(key.code())) =~= group_slots(raw).remove(key));
}

/// The lesson vector and the three maps that say, for every teacher,
/// classroom and group, which lesson holds it at each time.
#[derive(Debug)]
pub struct InnerState {
    lessons: Vec<Lesson>,
    teacher_time: HashMap<u16, usize>,
    classroom_time: HashMap<u16, usize>,
    group_time: HashMap<u16, usize>,
}

/// Read access to the parts of an [`InnerState`]. The maps are keyed by slot
/// code.
#[derive(Debug)]
pub struct InnerStateRef<'a> {
    pub lessons: &'a Vec<Lesson>,
    pub teacher_time: &'a HashMap<u16, usize>,
    pub classroom_time: &'a HashMap<u16, usize>,
    pub group_time: &'a HashMap<u16, usize>,
}

impl<'a> InnerStateRef<'a> {
    /// The state that the referenced parts make up.
    pub open spec fn content(self) -> InnerStateView {
        InnerStateView {
            lessons: self.lessons@,
            teacher_time: teacher_slots(self.teacher_time@),
            classroom_time: classroom_slots(self.classroom_time@),
            group_time: group_slots(self.group_time@),
        }
    }
}

impl View for InnerState {
    type V = InnerStateView;

    closed spec fn view(&self) -> InnerStateView {
        InnerStateView {
            lessons: self.lessons@,
            teacher_time: teacher_slots(self.teacher_time@),
            classroom_time: classroom_slots(self.classroom_time@),
            group_time: group_slots(self.group_time@),
        }
    }
}

impl Default for InnerState {
    fn default() -> (state: Self)
        ensures
            state@ == InnerStateView::empty(0),
            state@.wf(),
    {
        InnerState::new(0)
    }
}

/// The entry of a raw slot map under `code`.
fn lookup(slots: &HashMap<u16, usize>, code: u16) -> (found: Option<usize>)
    ensures
        found == (if slots@.contains_key(code) {
            Some(slots@[code])
        } else {
            None
        }),
{
    broadcast use vstd::std_specs::hash::group_hash_axioms;

    match slots.get(&code) {
        Some(lesson_id) => Some(*lesson_id),
        None => None,
    }
}

/// One step of collision counting: `hit` is what a slot map holds under the
/// key in question.
fn count_hit(so_far: InnerCollision, hit: Option<usize>, lesson_id: usize) -> (verdict:
    InnerCollision)
    ensures
        verdict == so_far.and_then_seeing(
            match hit {
                Some(other) if other != lesson_id => Some(other),
                _ => None,
            },
        ),
{
    match hit {
        None => so_far,
        Some(other) => {
            if other == lesson_id {
                // A lesson does not collide with itself.
                so_far
            } else {
                match so_far {
                    InnerCollision::NoCollisions => InnerCollision::CollidesWithOne(other),
                    InnerCollision::CollidesWithOne(previous) => {
                        // Meeting the same lesson twice is still one collision.
                        if previous != other {
                            InnerCollision::TooComplex
                        } else {
                            so_far
                        }
                    },
                    InnerCollision::TooComplex => InnerCollision::TooComplex,
                }
            }
        },
    }
}

impl InnerState {
    /// A state of `lesson_count` blank lessons, none of them placed.
    pub fn new(lesson_count: usize) -> (state: Self)
        ensures
            state@ == InnerStateView::empty(lesson_count as nat),
            state@.wf(),
            forall|k: int| !state@.is_placed(k),
    {
        let mut lessons: Vec<Lesson> = Vec::new();
        let mut filled: usize = 0;
        while filled < lesson_count
            invariant
                filled <= lesson_count,
                lessons@.len() == filled,
                forall|k: int| 0 <= k < filled ==> lessons@[k] == Lesson::blank(),
            decreases lesson_count - filled,
        {
            lessons.push(Lesson { time: 0, teacher: 0, classroom: 0, group: 0 });
            filled += 1;
        }
        let state = Self {
            lessons,
            teacher_time: HashMap::new(),
            classroom_time: HashMap::new(),
            group_time: HashMap::new(),
        };
        proof {
            let empty = InnerStateView::empty(lesson_count as nat);
            assert(state@.lessons =~= empty.lessons);
            assert(state@.teacher_time =~= empty.teacher_time);
            assert(state@.classroom_time =~= empty.classroom_time);
            assert(state@.group_time =~= empty.group_time);
        }
        state
    }

    /// Read access to the lessons and the three maps.
    pub fn state_ref(&self) -> (parts: InnerStateRef<'_>)
        ensures
            parts.content() == self@,
    {
        InnerStateRef {
            lessons: &self.lessons,
            teacher_time: &self.teacher_time,
            classroom_time: &self.classroom_time,
            group_time: &self.group_time,
        }
    }

    /// What the group, teacher and classroom maps hold, in this order, under
    /// the keys of `lesson`.
    fn collision_checks(&self, lesson: Lesson) -> (found: [Option<usize>; 3])
        ensures
            found[0] == (if self@.group_time.contains_key(lesson.group_time_key()) {
                Some(self@.group_time[lesson.group_time_key()])
            } else {
                None
            }),
            found[1] == (if self@.teacher_time.contains_key(lesson.teacher_time_key()) {
                Some(self@.teacher_time[lesson.teacher_time_key()])
            } else {
                None
            }),
            found[2] == (if self@.classroom_time.contains_key(lesson.classroom_time_key()) {
                Some(self@.classroom_time[lesson.classroom_time_key()])
            } else {
                None
            }),
    {
        let group_collision = lookup(&self.group_time, lesson.group_time_key().code());
        let teacher_collision = lookup(&self.teacher_time, lesson.teacher_time_key().code());
        let classroom_collision = lookup(
            &self.classroom_time,
            lesson.classroom_time_key().code(),
        );
        [group_collision, teacher_collision, classroom_collision]
    }

    fn all_no_collision(&self, lesson: Lesson) -> (free: bool)
        ensures
            free == self@.all_free(lesson),
    {
        let found = self.collision_checks(lesson);
        found[0].is_none() && found[1].is_none() && found[2].is_none()
    }

    /// Looks up the three slots that `lesson` would take and reports which
    /// lessons other than `lesson_id` hold them.
    pub fn check_collision(&self, lesson: Lesson, lesson_id: usize) -> (verdict: InnerCollision)
        ensures
            verdict == self@.collision(lesson, lesson_id),
            match verdict {
                InnerCollision::NoCollisions => forall|other: usize|
                    !self@.in_the_way(lesson, lesson_id, other),
                InnerCollision::CollidesWithOne(peer) => {
                    &&& self@.in_the_way(lesson, lesson_id, peer)
                    &&& forall|other: usize|
                        self@.in_the_way(lesson, lesson_id, other) ==> other == peer
                },
                InnerCollision::TooComplex => exists|one: usize, other: usize|
                    {
                        &&& self@.in_the_way(lesson, lesson_id, one)
                        &&& self@.in_the_way(lesson, lesson_id, other)
                        &&& one != other
                    },
            },
    {
        let found = self.collision_checks(lesson);
        let mut result = InnerCollision::NoCollisions;
        result = count_hit(result, found[0], lesson_id);
        result = count_hit(result, found[1], lesson_id);
        result = count_hit(result, found[2], lesson_id);
        proof {
            lemma_collision_meaning(self@, lesson, lesson_id);
        }
        result
    }

    fn put_lesson(&mut self, lesson: Lesson, lesson_id: usize)
        requires
            lesson_id < old(self)@.lessons.len(),
        ensures
            final(self)@ == old(self)@.with_lesson(lesson_id as int, lesson),
    {
        broadcast use vstd::std_specs::hash::group_hash_axioms;

        proof {
            lemma_classroom_slots_insert(
                self.classroom_time@,
                lesson.classroom_time_key(),
                lesson_id,
            );
            lemma_teacher_slots_insert(self.teacher_time@, lesson.teacher_time_key(), lesson_id);
            lemma_group_slots_insert(self.group_time@, lesson.group_time_key(), lesson_id);
        }
        self.classroom_time.insert(lesson.classroom_time_key().code(), lesson_id);
        self.teacher_time.insert(lesson.teacher_time_key().code(), lesson_id);
        self.group_time.insert(lesson.group_time_key().code(), lesson_id);
        self.lessons.set(lesson_id, lesson);
    }

    /// If the three slots of the lesson are free, stores the lesson under
    /// `lesson_id`, enters it in the three maps and returns `true`;
    /// otherwise changes nothing and returns `false`. Meant for lessons that
    /// are not placed yet: the entries of a lesson that is placed already
    /// stay in the maps, which then no longer agree with the lessons.
    pub fn place_lesson(
        &mut self,
        lesson_id: usize,
        teacher: u8,
        classroom: u8,
        time: u8,
        group: u8,
    ) -> (placed: bool)
        requires
            lesson_id < old(self)@.lessons.len(),
        ensures
            placed == old(self)@.all_free(Lesson { time, teacher, classroom, group }),
            placed ==> final(self)@ == old(self)@.with_lesson(
                lesson_id as int,
                Lesson { time, teacher, classroom, group },
            ),
            !placed ==> final(self)@ == old(self)@,
            old(self)@.wf() && !old(self)@.is_placed(lesson_id as int) ==> final(self)@.wf(),
            old(self)@.wf() && !old(self)@.is_placed(lesson_id as int) ==> forall|k: int|
                final(self)@.is_placed(k) == (old(self)@.is_placed(k) || (placed && k
                    == lesson_id)),
    {
        let lesson = Lesson { teacher, time, group, classroom };

        if !self.all_no_collision(lesson) {
            return false;
        }
        proof {
            lemma_place_keeps_wf(self@, lesson_id as int, lesson);
        }
        self.put_lesson(lesson, lesson_id);
        true
    }

    /// Reports whether the maps and the lessons agree: every lesson is
    /// entered in all three maps under its own keys, and no map holds
    /// anything else.
    pub fn assert_maps_synchronized(&self, msg: &str) -> (synchronized: bool)
        ensures
            synchronized == self@.synchronized(),
    {
        broadcast use vstd::std_specs::hash::group_hash_axioms;

        let count = self.lessons.len();
        proof {
            lemma_slots_len(self.teacher_time@, self.classroom_time@, self.group_time@);
            if self@.synchronized() {
                lemma_synchronized_is_bijection(self@);
            }
        }
        if self.teacher_time.len() != count || self.classroom_time.len() != count
            || self.group_time.len() != count {
            return false;
        }
        let mut lesson_id: usize = 0;
        while lesson_id < count
            invariant
                count == self.lessons.len(),
                lesson_id <= count,
                forall|k: int| 0 <= k < lesson_id ==> self@.is_placed(k),
            decreases count - lesson_id,
        {
            let found = self.collision_checks(self.lessons[lesson_id]);
            let own = Some(lesson_id);
            if !(found[0] == own && found[1] == own && found[2] == own) {
                assert(!self@.is_placed(lesson_id as int));
                return false;
            }
            assert(self@.is_placed(lesson_id as int));
            lesson_id += 1;
        }
        proof {
            lemma_full_maps_are_synchronized(self@);
        }
        true
    }

    fn remove_lesson(&mut self, lesson_id: usize)
        requires
            lesson_id < old(self)@.lessons.len(),
        ensures
            final(self)@ == old(self)@.without(lesson_id as int),
    {
        broadcast use vstd::std_specs::hash::group_hash_axioms;

        let lesson = self.lessons[lesson_id];
        proof {
            lemma_classroom_slots_remove(self.classroom_time@, lesson.classroom_time_key());
            lemma_teacher_slots_remove(self.teacher_time@, lesson.teacher_time_key());
            lemma_group_slots_remove(self.group_time@, lesson.group_time_key());
        }
        let classroom_code = lesson.classroom_time_key().code();
        let teacher_code = lesson.teacher_time_key().code();
        let group_code = lesson.group_time_key().code();
        self.classroom_time.remove(&classroom_code);
        self.teacher_time.remove(&teacher_code);
        self.group_time.remove(&group_code);
    }

    fn replace_lessons(
        &mut self,
        left_id: usize,
        left_new_state: Lesson,
        right_id: usize,
        right_new_state: Lesson,
    )
        requires
            left_id < old(self)@.lessons.len(),
            right_id < old(self)@.lessons.len(),
        ensures
            final(self)@ == old(self)@.replaced(
                left_id as int,
                left_new_state,
                right_id as int,
                right_new_state,
            ),
    {
        self.remove_lesson(left_id);
        self.remove_lesson(right_id);

        self.put_lesson(left_new_state, left_id);
        self.put_lesson(right_new_state, right_id);
    }

    fn apply_non_time_mutation(&mut self, mutation: Mutation) -> (applied: bool)
        requires
            old(self)@.wf(),
            old(self)@.is_placed(mutation.target_lesson as int),
            !(mutation.mutation_type is ChangeTime),
        ensures
            applied == old(self)@.accepts(mutation),
            final(self)@ == old(self)@.after(mutation),
    {
        let target_lesson = mutation.target_lesson;
        let lesson = self.lessons[target_lesson];
        let changed_lesson = match mutation.mutation_type {
            MutationType::ChangeTeacher(new_teacher) => lesson.with_teacher(new_teacher),
            MutationType::ChangeClassroom(new_classroom) => lesson.with_classroom(new_classroom),
            MutationType::ChangeTime(_) => lesson,
        };

        let collision = self.check_collision(changed_lesson, mutation.target_lesson);

        match collision {
            InnerCollision::NoCollisions => {
                self.remove_lesson(target_lesson);
                self.put_lesson(changed_lesson, target_lesson);
            },
            InnerCollision::CollidesWithOne(collision_id) => {
                let collision_old_state = self.lessons[collision_id];
                let collision_new_state = match mutation.mutation_type {
                    MutationType::ChangeTeacher(_) => collision_old_state.with_teacher(
                        lesson.teacher,
                    ),
                    MutationType::ChangeClassroom(_) => collision_old_state.with_classroom(
                        lesson.classroom,
                    ),
                    MutationType::ChangeTime(_) => collision_old_state,
                };
                self.replace_lessons(
                    target_lesson,
                    changed_lesson,
                    collision_id,
                    collision_new_state,
                );
            },
            InnerCollision::TooComplex => return false,
        }
        true
    }

    fn apply_time_mutation(&mut self, mutation: Mutation) -> (applied: bool)
        requires
            old(self)@.wf(),
            old(self)@.is_placed(mutation.target_lesson as int),
            mutation.mutation_type is ChangeTime,
        ensures
            applied == old(self)@.accepts(mutation),
            final(self)@ == old(self)@.after(mutation),
    {
        let target_lesson = mutation.target_lesson;
        let lesson_old_state = self.lessons[target_lesson];
        let new_time = match mutation.mutation_type {
            MutationType::ChangeTime(time) => time,
            _ => lesson_old_state.time,
        };

        let lesson_new_state = lesson_old_state.with_time(new_time);

        let collision = self.check_collision(lesson_new_state, target_lesson);

        match collision {
            InnerCollision::NoCollisions => {
                self.remove_lesson(target_lesson);
                self.put_lesson(lesson_new_state, target_lesson);
            },
            InnerCollision::CollidesWithOne(collision_id) => {
                let collision_old_state = self.lessons[collision_id];
                let collision_new_state = collision_old_state.with_time(lesson_old_state.time);

                let recursive_collision = self.check_collision(collision_new_state, collision_id);

                // The lesson in the way must in turn be hindered by the target
                // alone; anything else is refused.
                if recursive_collision != InnerCollision::CollidesWithOne(target_lesson) {
                    return false;
                }
                self.remove_lesson(target_lesson);
                self.remove_lesson(collision_id);

                self.put_lesson(lesson_new_state, target_lesson);
                self.put_lesson(collision_new_state, collision_id);
            },
            InnerCollision::TooComplex => return false,
        };
        true
    }

    /// Carries out `mutation` as a move of its target or as a swap with the
    /// one lesson in the way, or refuses it and leaves the state as it was.
    pub fn apply_mutation(&mut self, mutation: Mutation) -> (applied: bool)
        requires
            old(self)@.wf(),
            old(self)@.is_placed(mutation.target_lesson as int),
        ensures
            applied == old(self)@.accepts(mutation),
            final(self)@ == old(self)@.after(mutation),
            !applied ==> final(self)@ == old(self)@,
            final(self)@.wf(),
            final(self)@.lessons.len() == old(self)@.lessons.len(),
            forall|k: int| final(self)@.is_placed(k) == old(self)@.is_placed(k),
            old(self)@.synchronized() ==> final(self)@.synchronized(),
    {
        proof {
            lemma_mutation_keeps_wf(self@, mutation);
        }
        match mutation.mutation_type {
            MutationType::ChangeTime(_) => self.apply_time_mutation(mutation),
            _ => self.apply_non_time_mutation(mutation),
        }
    }
}

/// The verdict of [`InnerStateView::collision`] says exactly how many
/// lessons are in the way: `NoCollisions` when none is, `CollidesWithOne(k)`
/// when `k` is and no other, `TooComplex` when two different ones are.
pub proof fn lemma_collision_meaning(state: InnerStateView, lesson: Lesson, lesson_id: usize)
    ensures
        match state.collision(lesson, lesson_id) {
            InnerCollision::NoCollisions => forall|other: usize|
                !state.in_the_way(lesson, lesson_id, other),
            InnerCollision::CollidesWithOne(peer) => {
                &&& state.in_the_way(lesson, lesson_id, peer)
                &&& forall|other: usize|
                    state.in_the_way(lesson, lesson_id, other) ==> other == peer
            },
            InnerCollision::TooComplex => exists|one: usize, other: usize|
                {
                    &&& state.in_the_way(lesson, lesson_id, one)
                    &&& state.in_the_way(lesson, lesson_id, other)
                    &&& one != other
                },
        },
{
    let group_hit = occupant(state.group_time, lesson.group_time_key(), lesson_id);
    let teacher_hit = occupant(state.teacher_time, lesson.teacher_time_key(), lesson_id);
    let classroom_hit = occupant(state.classroom_time, lesson.classroom_time_key(), lesson_id);
    if state.collision(lesson, lesson_id) == InnerCollision::TooComplex {
        if group_hit is Some && teacher_hit is Some && group_hit != teacher_hit {
            assert(state.in_the_way(lesson, lesson_id, group_hit->0));
            assert(state.in_the_way(lesson, lesson_id, teacher_hit->0));
        } else if group_hit is Some && classroom_hit is Some && group_hit != classroom_hit {
            assert(state.in_the_way(lesson, lesson_id, group_hit->0));
            assert(state.in_the_way(lesson, lesson_id, classroom_hit->0));
        } else {
            assert(state.in_the_way(lesson, lesson_id, teacher_hit->0));
            assert(state.in_the_way(lesson, lesson_id, classroom_hit->0));
        }
    }
}

/// Entering an unplaced lesson into free slots keeps the state well formed
/// and places that lesson and no other.
pub proof fn lemma_place_keeps_wf(state: InnerStateView, k: int, lesson: Lesson)
    requires
        0 <= k < state.lessons.len(),
        state.all_free(lesson),
    ensures
        state.wf() && !state.is_placed(k) ==> state.with_lesson(k, lesson).wf(),
        state.wf() && !state.is_placed(k) ==> forall|j: int|
            state.with_lesson(k, lesson).is_placed(j) == (state.is_placed(j) || j == k),
{
    if state.wf() && !state.is_placed(k) {
        let next = state.with_lesson(k, lesson);
        assert(!state.holds_teacher_slot(k));
        assert(!state.holds_classroom_slot(k));
        assert(!state.holds_group_slot(k));
        assert forall|j: int| 0 <= j < state.lessons.len() && j != k implies {
            &&& next.holds_teacher_slot(j) == state.holds_teacher_slot(j)
            &&& next.holds_classroom_slot(j) == state.holds_classroom_slot(j)
            &&& next.holds_group_slot(j) == state.holds_group_slot(j)
        } by {}
        assert(next.holds_teacher_slot(k));
        assert(next.holds_classroom_slot(k));
        assert(next.holds_group_slot(k));
        assert(next.wf());
        assert forall|j: int| next.is_placed(j) == (state.is_placed(j) || j == k) by {}
    }
}

/// A mutation of a placed lesson leaves a well-formed state well formed,
/// keeps the number of lessons, and places or unplaces no lesson.
pub proof fn lemma_mutation_keeps_wf(state: InnerStateView, mutation: Mutation)
    requires
        state.wf(),
        state.is_placed(mutation.target_lesson as int),
    ensures
        state.after(mutation).wf(),
        state.after(mutation).lessons.len() == state.lessons.len(),
        forall|k: int| state.after(mutation).is_placed(k) == state.is_placed(k),
        state.synchronized() ==> state.after(mutation).synchronized(),
{
    let target = mutation.target_lesson;
    let old_state = state.lessons[target as int];
    let new_state = old_state.changed(mutation.mutation_type);
    let next = state.after(mutation);
    lemma_collision_meaning(state, new_state, target);
    if state.accepts(mutation) {
        match state.collision(new_state, target) {
            InnerCollision::CollidesWithOne(peer) => {
                let peer_old = state.lessons[peer as int];
                let peer_new = peer_old.inheriting(old_state, mutation.mutation_type);
                lemma_collision_meaning(state, peer_new, peer);
                lemma_in_the_way_is_placed(state, new_state, target, peer);
                assert forall|other: usize|
                    state.in_the_way(peer_new, peer, other) implies other == target by {
                    lemma_in_the_way_is_placed(state, peer_new, peer, other);
                }
                lemma_swap_keeps_wf(state, target, new_state, peer, peer_new);
            },
            _ => {
                lemma_move_keeps_wf(state, target, new_state);
            },
        }
    }
    if state.synchronized() {
        assert forall|k: int| 0 <= k < next.lessons.len() implies #[trigger] next.is_placed(
            k,
        ) by {
            assert(state.is_placed(k));
        }
    }
}

/// In a well-formed state a lesson that is in the way is a placed lesson,
/// and it holds the contested slot under its own key.
proof fn lemma_in_the_way_is_placed(
    state: InnerStateView,
    lesson: Lesson,
    lesson_id: usize,
    other: usize,
)
    requires
        state.wf(),
        state.in_the_way(lesson, lesson_id, other),
    ensures
        state.is_placed(other as int),
        state.lessons[other as int].time == lesson.time,
        state.lessons[other as int].group == lesson.group || state.lessons[other as int].teacher
            == lesson.teacher || state.lessons[other as int].classroom == lesson.classroom,
{
    if state.group_time.contains_pair(lesson.group_time_key(), other) {
        assert(state.group_time.contains_key(lesson.group_time_key()));
        assert(state.holds_group_slot(other as int));
    } else if state.teacher_time.contains_pair(lesson.teacher_time_key(), other) {
        assert(state.teacher_time.contains_key(lesson.teacher_time_key()));
        assert(state.holds_teacher_slot(other as int));
    } else {
        assert(state.classroom_time.contains_key(lesson.classroom_time_key()));
        assert(state.holds_classroom_slot(other as int));
    }
}

/// Moving a placed lesson to slots that no other lesson holds.
proof fn lemma_move_keeps_wf(state: InnerStateView, target: usize, new_state: Lesson)
    requires
        state.wf(),
        state.is_placed(target as int),
        forall|other: usize| !state.in_the_way(new_state, target, other),
    ensures
        state.moved(target as int, new_state).wf(),
        forall|k: int| state.moved(target as int, new_state).is_placed(k) == state.is_placed(k),
{
    let next = state.moved(target as int, new_state);
    assert forall|j: int| 0 <= j < state.lessons.len() && j != target implies {
        &&& next.holds_teacher_slot(j) == state.holds_teacher_slot(j)
        &&& next.holds_classroom_slot(j) == state.holds_classroom_slot(j)
        &&& next.holds_group_slot(j) == state.holds_group_slot(j)
    } by {
        assert(!state.in_the_way(new_state, target, j as usize));
    }
    assert(next.holds_teacher_slot(target as int));
    assert(next.holds_classroom_slot(target as int));
    assert(next.holds_group_slot(target as int));
    assert(next.wf());
    assert forall|k: int| next.is_placed(k) == state.is_placed(k) by {}
}

/// Releasing two placed lessons and entering both anew, where the new slots
/// of each are held by nobody but the two of them and the two new lessons
/// do not claim the same slot.
proof fn lemma_swap_keeps_wf(
    state: InnerStateView,
    target: usize,
    new_state: Lesson,
    peer: usize,
    peer_new: Lesson,
)
    requires
        state.wf(),
        state.is_placed(target as int),
        state.is_placed(peer as int),
        target != peer,
        forall|other: usize|
            state.in_the_way(new_state, target, other) ==> other == peer,
        forall|other: usize|
            state.in_the_way(peer_new, peer, other) ==> other == target,
        new_state.teacher_time_key() != peer_new.teacher_time_key(),
        new_state.classroom_time_key() != peer_new.classroom_time_key(),
        new_state.group_time_key() != peer_new.group_time_key(),
    ensures
        state.replaced(target as int, new_state, peer as int, peer_new).wf(),
        forall|k: int|
            state.replaced(target as int, new_state, peer as int, peer_new).is_placed(k)
                == state.is_placed(k),
{
    let next = state.replaced(target as int, new_state, peer as int, peer_new);
    assert forall|j: int| 0 <= j < state.lessons.len() && j != target && j != peer implies {
        &&& next.holds_teacher_slot(j) == state.holds_teacher_slot(j)
        &&& next.holds_classroom_slot(j) == state.holds_classroom_slot(j)
        &&& next.holds_group_slot(j) == state.holds_group_slot(j)
    } by {
        assert(!state.in_the_way(new_state, target, j as usize));
        assert(!state.in_the_way(peer_new, peer, j as usize));
    }
    assert(next.holds_teacher_slot(target as int));
    assert(next.holds_classroom_slot(target as int));
    assert(next.holds_group_slot(target as int));
    assert(next.holds_teacher_slot(peer as int));
    assert(next.holds_classroom_slot(peer as int));
    assert(next.holds_group_slot(peer as int));
    assert(next.wf());
    assert forall|k: int| next.is_placed(k) == state.is_placed(k) by {}
}

/// Reversibility. After a mutation of a placed lesson, the mutation that
/// restores the target's former value of the changed field brings back the
/// very state that held before: the same lessons and the same three maps.
/// Where the first mutation was carried out, so is the second; where it was
/// refused, the second finds the state untouched and leaves it so.
pub proof fn lemma_reverse_restores(state: InnerStateView, mutation: Mutation)
    requires
        state.wf(),
        state.is_placed(mutation.target_lesson as int),
    ensures
        state.accepts(mutation) ==> state.after(mutation).accepts(
            mutation.reversed(state.lessons[mutation.target_lesson as int]),
        ),
        state.after(mutation).after(
            mutation.reversed(state.lessons[mutation.target_lesson as int]),
        ) == state,
{
    if !state.accepts(mutation) {
        lemma_restoring_is_idle(state, mutation);
    } else {
        lemma_reverse_of_accepted(state, mutation);
    }
}

/// A mutation that writes into a placed lesson the value it already holds
/// leaves the state as it is.
proof fn lemma_restoring_is_idle(state: InnerStateView, mutation: Mutation)
    requires
        state.wf(),
        state.is_placed(mutation.target_lesson as int),
    ensures
        state.after(mutation.reversed(state.lessons[mutation.target_lesson as int])) == state,
{
    let target = mutation.target_lesson;
    let old_state = state.lessons[target as int];
    let reverse = mutation.reversed(old_state);
    assert(old_state.changed(reverse.mutation_type) == old_state);
    lemma_collision_meaning(state, old_state, target);
    assert forall|other: usize| !state.in_the_way(old_state, target, other) by {}
    let back = state.moved(target as int, old_state);
    assert(back.lessons =~= state.lessons);
    assert(back.teacher_time =~= state.teacher_time);
    assert(back.classroom_time =~= state.classroom_time);
    assert(back.group_time =~= state.group_time);
}

proof fn lemma_reverse_of_accepted(state: InnerStateView, mutation: Mutation)
    requires
        state.wf(),
        state.is_placed(mutation.target_lesson as int),
        state.accepts(mutation),
    ensures
        state.after(mutation).accepts(
            mutation.reversed(state.lessons[mutation.target_lesson as int]),
        ),
        state.after(mutation).after(
            mutation.reversed(state.lessons[mutation.target_lesson as int]),
        ) == state,
{
    let target = mutation.target_lesson;
    let old_state = state.lessons[target as int];
    let new_state = old_state.changed(mutation.mutation_type);
    let reverse = mutation.reversed(old_state);
    let next = state.after(mutation);
    lemma_collision_meaning(state, new_state, target);
    lemma_mutation_keeps_wf(state, mutation);
    assert(next.lessons[target as int] == new_state);
    assert(new_state.changed(reverse.mutation_type) == old_state);
    lemma_collision_meaning(next, old_state, target);
    match state.collision(new_state, target) {
        InnerCollision::CollidesWithOne(peer) => {
            let peer_old = state.lessons[peer as int];
            let peer_new = peer_old.inheriting(old_state, mutation.mutation_type);
            lemma_in_the_way_is_placed(state, new_state, target, peer);
            lemma_collision_meaning(state, peer_new, peer);
            assert(next.lessons[peer as int] == peer_new);
            assert(peer_new.inheriting(new_state, reverse.mutation_type) == peer_old);
            assert(next.in_the_way(old_state, target, peer));
            assert forall|other: usize|
                next.in_the_way(old_state, target, other) implies other == peer by {
                lemma_in_the_way_is_placed(next, old_state, target, other);
            }
            assert(next.collision(old_state, target) == InnerCollision::CollidesWithOne(peer));
            lemma_collision_meaning(next, peer_old, peer);
            assert(next.in_the_way(peer_old, peer, target));
            assert forall|other: usize|
                next.in_the_way(peer_old, peer, other) implies other == target by {
                lemma_in_the_way_is_placed(next, peer_old, peer, other);
            }
            assert(next.collision(peer_old, peer) == InnerCollision::CollidesWithOne(target));
            assert(next.accepts(reverse));
            let back = next.replaced(target as int, old_state, peer as int, peer_old);
            assert(next.after(reverse) == back);
            assert(back.lessons =~= state.lessons);
            assert(back.teacher_time =~= state.teacher_time);
            assert(back.classroom_time =~= state.classroom_time);
            assert(back.group_time =~= state.group_time);
        },
        _ => {
            assert forall|other: usize| !next.in_the_way(old_state, target, other) by {
                if next.in_the_way(old_state, target, other) {
                    lemma_in_the_way_is_placed(next, old_state, target, other);
                }
            }
            assert(next.collision(old_state, target) == InnerCollision::NoCollisions);
            assert(next.accepts(reverse));
            let back = next.moved(target as int, old_state);
            assert(next.after(reverse) == back);
            assert(back.lessons =~= state.lessons);
            assert(back.teacher_time =~= state.teacher_time);
            assert(back.classroom_time =~= state.classroom_time);
            assert(back.group_time =~= state.group_time);
        },
    }
}

/// Bijection. In a synchronized state each of the three maps sends the key
/// derived from every lesson to that lesson's id, no two lessons share a
/// teacher, a classroom or a group at one time, and each map has exactly as
/// many entries as there are lessons.
pub proof fn lemma_synchronized_is_bijection(state: InnerStateView)
    requires
        state.synchronized(),
    ensures
        forall|k: int|
            0 <= k < state.lessons.len() ==> {
                &&& state.teacher_time.contains_key(state.lessons[k].teacher_time_key())
                &&& state.teacher_time[#[trigger] state.lessons[k].teacher_time_key()] == k
                &&& state.classroom_time.contains_key(state.lessons[k].classroom_time_key())
                &&& state.classroom_time[state.lessons[k].classroom_time_key()] == k
                &&& state.group_time.contains_key(state.lessons[k].group_time_key())
                &&& state.group_time[state.lessons[k].group_time_key()] == k
            },
        forall|j: int, k: int|
            0 <= j < k < state.lessons.len() ==> {
                &&& #[trigger] state.lessons[j].teacher_time_key()
                    != #[trigger] state.lessons[k].teacher_time_key()
                &&& state.lessons[j].classroom_time_key() != state.lessons[k].classroom_time_key()
                &&& state.lessons[j].group_time_key() != state.lessons[k].group_time_key()
            },
        state.teacher_time.dom().finite(),
        state.classroom_time.dom().finite(),
        state.group_time.dom().finite(),
        state.teacher_time.len() == state.lessons.len(),
        state.classroom_time.len() == state.lessons.len(),
        state.group_time.len() == state.lessons.len(),
{
    let count = state.lessons.len() as int;
    let ids = set_int_range(0, count);
    lemma_int_range(0, count);
    assert forall|k: int| 0 <= k < count implies {
        &&& #[trigger] state.holds_teacher_slot(k)
        &&& state.holds_classroom_slot(k)
        &&& state.holds_group_slot(k)
    } by {
        assert(state.is_placed(k));
    }
    assert forall|k: int| 0 <= k < count implies {
        &&& state.teacher_time.contains_key(state.lessons[k].teacher_time_key())
        &&& state.teacher_time[#[trigger] state.lessons[k].teacher_time_key()] == k
        &&& state.classroom_time.contains_key(state.lessons[k].classroom_time_key())
        &&& state.classroom_time[state.lessons[k].classroom_time_key()] == k
        &&& state.group_time.contains_key(state.lessons[k].group_time_key())
        &&& state.group_time[state.lessons[k].group_time_key()] == k
    } by {
        assert(state.is_placed(k));
    }

    let teacher_key = |k: int| state.lessons[k].teacher_time_key();
    assert(ids.map(teacher_key) =~= state.teacher_time.dom()) by {
        assert forall|key: TeacherTimeKey|
            state.teacher_time.dom().contains(key) implies ids.map(teacher_key).contains(
            key,
        ) by {
            let k = state.teacher_time[key] as int;
            assert(ids.contains(k) && key == teacher_key(k));
        }
        assert forall|key: TeacherTimeKey|
            ids.map(teacher_key).contains(key) implies state.teacher_time.dom().contains(
            key,
        ) by {
            let k = choose|k: int| ids.contains(k) && key == teacher_key(k);
            assert(state.is_placed(k));
        }
    }
    assert forall|j: int, k: int|
        ids.contains(j) && ids.contains(k) && #[trigger] teacher_key(j) == #[trigger] teacher_key(
            k,
        ) implies j == k by {
        assert(state.is_placed(j) && state.is_placed(k));
    }
    lemma_map_size(ids, state.teacher_time.dom(), teacher_key);

    let classroom_key = |k: int| state.lessons[k].classroom_time_key();
    assert(ids.map(classroom_key) =~= state.classroom_time.dom()) by {
        assert forall|key: ClassroomTimeKey|
            state.classroom_time.dom().contains(key) implies ids.map(classroom_key).contains(
            key,
        ) by {
            let k = state.classroom_time[key] as int;
            assert(ids.contains(k) && key == classroom_key(k));
        }
        assert forall|key: ClassroomTimeKey|
            ids.map(classroom_key).contains(key) implies state.classroom_time.dom().contains(
            key,
        ) by {
            let k = choose|k: int| ids.contains(k) && key == classroom_key(k);
            assert(state.is_placed(k));
        }
    }
    assert forall|j: int, k: int|
        ids.contains(j) && ids.contains(k) && #[trigger] classroom_key(j)
            == #[trigger] classroom_key(k) implies j == k by {
        assert(state.is_placed(j) && state.is_placed(k));
    }
    lemma_map_size(ids, state.classroom_time.dom(), classroom_key);

    let group_key = |k: int| state.lessons[k].group_time_key();
    assert(ids.map(group_key) =~= state.group_time.dom()) by {
        assert forall|key: GroupTimeKey|
            state.group_time.dom().contains(key) implies ids.map(group_key).contains(key) by {
            let k = state.group_time[key] as int;
            assert(ids.contains(k) && key == group_key(k));
        }
        assert forall|key: GroupTimeKey|
            ids.map(group_key).contains(key) implies state.group_time.dom().contains(key) by {
            let k = choose|k: int| ids.contains(k) && key == group_key(k);
            assert(state.is_placed(k));
        }
    }
    assert forall|j: int, k: int|
        ids.contains(j) && ids.contains(k) && #[trigger] group_key(j) == #[trigger] group_key(
            k,
        ) implies j == k by {
        assert(state.is_placed(j) && state.is_placed(k));
    }
    lemma_map_size(ids, state.group_time.dom(), group_key);

    assert forall|j: int, k: int| 0 <= j < k < state.lessons.len() implies {
        &&& #[trigger] state.lessons[j].teacher_time_key()
            != #[trigger] state.lessons[k].teacher_time_key()
        &&& state.lessons[j].classroom_time_key() != state.lessons[k].classroom_time_key()
        &&& state.lessons[j].group_time_key() != state.lessons[k].group_time_key()
    } by {
        assert(state.is_placed(j) && state.is_placed(k));
        assert(state.is_placed(j) && state.is_placed(k));
        assert(state.is_placed(j) && state.is_placed(k));
    }
}

/// The pair that a slot code stands for.
pub open spec fn slot_of(code: u16) -> (u8, u8) {
    ((code / 256) as u8, (code % 256) as u8)
}

/// The typed maps have as many entries as the raw maps they stand for.
proof fn lemma_slots_len(
    teachers: Map<u16, usize>,
    classrooms: Map<u16, usize>,
    groups: Map<u16, usize>,
)
    requires
        teachers.dom().finite(),
        classrooms.dom().finite(),
        groups.dom().finite(),
    ensures
        teacher_slots(teachers).dom().finite(),
        teacher_slots(teachers).len() == teachers.len(),
        classroom_slots(classrooms).dom().finite(),
        classroom_slots(classrooms).len() == classrooms.len(),
        group_slots(groups).dom().finite(),
        group_slots(groups).len() == groups.len(),
{
    let teacher_of = |code: u16| TeacherTimeKey { teacher: slot_of(code).0, time: slot_of(code).1 };
    assert(teachers.dom().map(teacher_of) =~= teacher_slots(teachers).dom()) by {
        assert forall|key: TeacherTimeKey|
            teacher_slots(teachers).dom().contains(key) implies teachers.dom().map(
            teacher_of,
        ).contains(key) by {
            assert(teachers.dom().contains(key.code()) && teacher_of(key.code()) == key);
        }
    }
    lemma_map_size(teachers.dom(), teacher_slots(teachers).dom(), teacher_of);

    let classroom_of = |code: u16|
        ClassroomTimeKey { classroom: slot_of(code).0, time: slot_of(code).1 };
    assert(classrooms.dom().map(classroom_of) =~= classroom_slots(classrooms).dom()) by {
        assert forall|key: ClassroomTimeKey|
            classroom_slots(classrooms).dom().contains(key) implies classrooms.dom().map(
            classroom_of,
        ).contains(key) by {
            assert(classrooms.dom().contains(key.code()) && classroom_of(key.code()) == key);
        }
    }
    lemma_map_size(classrooms.dom(), classroom_slots(classrooms).dom(), classroom_of);

    let group_of = |code: u16| GroupTimeKey { group: slot_of(code).0, time: slot_of(code).1 };
    assert(groups.dom().map(group_of) =~= group_slots(groups).dom()) by {
        assert forall|key: GroupTimeKey|
            group_slots(groups).dom().contains(key) implies groups.dom().map(group_of).contains(
            key,
        ) by {
            assert(groups.dom().contains(key.code()) && group_of(key.code()) == key);
        }
    }
    lemma_map_size(groups.dom(), group_slots(groups).dom(), group_of);
}

/// Where every lesson is placed and each map has exactly as many entries
/// as there are lessons, no map holds anything but the lessons: the state
/// is synchronized.
pub proof fn lemma_full_maps_are_synchronized(state: InnerStateView)
    requires
        state.lessons.len() <= usize::MAX,
        forall|k: int| 0 <= k < state.lessons.len() ==> state.is_placed(k),
        state.teacher_time.dom().finite(),
        state.classroom_time.dom().finite(),
        state.group_time.dom().finite(),
        state.teacher_time.len() == state.lessons.len(),
        state.classroom_time.len() == state.lessons.len(),
        state.group_time.len() == state.lessons.len(),
    ensures
        state.synchronized(),
{
    let count = state.lessons.len() as int;
    let ids = set_int_range(0, count);
    lemma_int_range(0, count);

    let teacher_key = |k: int| state.lessons[k].teacher_time_key();
    let teacher_keys = ids.map(teacher_key);
    assert forall|j: int, k: int|
        ids.contains(j) && ids.contains(k) && #[trigger] teacher_key(j) == #[trigger] teacher_key(
            k,
        ) implies j == k by {
        assert(state.is_placed(j) && state.is_placed(k));
    }
    lemma_map_size(ids, teacher_keys, teacher_key);
    assert(teacher_keys.subset_of(state.teacher_time.dom())) by {
        assert forall|key: TeacherTimeKey|
            teacher_keys.contains(key) implies state.teacher_time.dom().contains(key) by {
            let k = choose|k: int| ids.contains(k) && key == teacher_key(k);
            assert(state.is_placed(k));
        }
    }
    lemma_subset_equality(teacher_keys, state.teacher_time.dom());
    assert forall|key: TeacherTimeKey| #[trigger]
        state.teacher_time.contains_key(key) implies state.teacher_time[key] < state.lessons.len()
        && state.lessons[state.teacher_time[key] as int].teacher_time_key() == key by {
        assert(teacher_keys.contains(key));
        let k = choose|k: int| ids.contains(k) && key == teacher_key(k);
        assert(state.is_placed(k));
    }

    let classroom_key = |k: int| state.lessons[k].classroom_time_key();
    let classroom_keys = ids.map(classroom_key);
    assert forall|j: int, k: int|
        ids.contains(j) && ids.contains(k) && #[trigger] classroom_key(j)
            == #[trigger] classroom_key(k) implies j == k by {
        assert(state.is_placed(j) && state.is_placed(k));
    }
    lemma_map_size(ids, classroom_keys, classroom_key);
    assert(classroom_keys.subset_of(state.classroom_time.dom())) by {
        assert forall|key: ClassroomTimeKey|
            classroom_keys.contains(key) implies state.classroom_time.dom().contains(key) by {
            let k = choose|k: int| ids.contains(k) && key == classroom_key(k);
            assert(state.is_placed(k));
        }
    }
    lemma_subset_equality(classroom_keys, state.classroom_time.dom());
    assert forall|key: ClassroomTimeKey| #[trigger]
        state.classroom_time.contains_key(key) implies state.classroom_time[key]
        < state.lessons.len()
        && state.lessons[state.classroom_time[key] as int].classroom_time_key() == key by {
        assert(classroom_keys.contains(key));
        let k = choose|k: int| ids.contains(k) && key == classroom_key(k);
        assert(state.is_placed(k));
    }

    let group_key = |k: int| state.lessons[k].group_time_key();
    let group_keys = ids.map(group_key);
    assert forall|j: int, k: int|
        ids.contains(j) && ids.contains(k) && #[trigger] group_key(j) == #[trigger] group_key(
            k,
        ) implies j == k by {
        assert(state.is_placed(j) && state.is_placed(k));
    }
    lemma_map_size(ids, group_keys, group_key);
    assert(group_keys.subset_of(state.group_time.dom())) by {
        assert forall|key: GroupTimeKey|
            group_keys.contains(key) implies state.group_time.dom().contains(key) by {
            let k = choose|k: int| ids.contains(k) && key == group_key(k);
            assert(state.is_placed(k));
        }
    }
    lemma_subset_equality(group_keys, state.group_time.dom());
    assert forall|key: GroupTimeKey| #[trigger]
        state.group_time.contains_key(key) implies state.group_time[key] < state.lessons.len()
        && state.lessons[state.group_time[key] as int].group_time_key() == key by {
        assert(group_keys.contains(key));
        let k = choose|k: int| ids.contains(k) && key == group_key(k);
        assert(state.is_placed(k));
    }

    assert forall|k: int| 0 <= k < state.lessons.len() implies {
        &&& #[trigger] state.holds_teacher_slot(k) == state.holds_classroom_slot(k)
        &&& state.holds_teacher_slot(k) == state.holds_group_slot(k)
    } by {
        assert(state.is_placed(k));
    }
}

/// A mutation never changes the group of a lesson, and one whose new value
/// lies in its domain leaves every lesson within the domains of time,
/// classroom and teacher.
pub proof fn lemma_mutation_keeps_domains(
    state: InnerStateView,
    mutation: Mutation,
    max_time: int,
    classroom_count: int,
    teacher_count: int,
)
    requires
        state.wf(),
        state.is_placed(mutation.target_lesson as int),
    ensures
        state.after(mutation).lessons.len() == state.lessons.len(),
        forall|k: int|
            0 <= k < state.lessons.len() ==> (#[trigger] state.after(mutation).lessons[k]).group
                == state.lessons[k].group,
        state.within(max_time, classroom_count, teacher_count) && match mutation.mutation_type {
            MutationType::ChangeTeacher(teacher) => teacher < teacher_count,
            MutationType::ChangeTime(time) => time < max_time,
            MutationType::ChangeClassroom(classroom) => classroom < classroom_count,
        } ==> state.after(mutation).within(max_time, classroom_count, teacher_count),
{
    let target = mutation.target_lesson;
    let old_state = state.lessons[target as int];
    let new_state = old_state.changed(mutation.mutation_type);
    lemma_collision_meaning(state, new_state, target);
    if state.accepts(mutation) {
        if let InnerCollision::CollidesWithOne(peer) = state.collision(new_state, target) {
            lemma_in_the_way_is_placed(state, new_state, target, peer);
        }
    }
}

/// Refusal. A change of teacher or classroom of a placed lesson is never
/// refused: at most the one lesson that holds the new teacher or classroom
/// at that time is in the way. A change of time is refused exactly where
/// more than one lesson is in the way of the target, or where the one
/// lesson in its way is hindered by a third on its way to the target's
/// time. That lesson always runs into the target itself.
pub proof fn lemma_refused_is_too_complex(state: InnerStateView, mutation: Mutation)
    requires
        state.wf(),
        state.is_placed(mutation.target_lesson as int),
    ensures
        !(mutation.mutation_type is ChangeTime) ==> state.accepts(mutation),
        !state.accepts(mutation) <==> {
            let target = mutation.target_lesson;
            let old_state = state.lessons[target as int];
            let new_state = old_state.changed(mutation.mutation_type);
            match state.collision(new_state, target) {
                InnerCollision::NoCollisions => false,
                InnerCollision::CollidesWithOne(peer) => state.collision(
                    state.lessons[peer as int].inheriting(old_state, mutation.mutation_type),
                    peer,
                ) == InnerCollision::TooComplex,
                InnerCollision::TooComplex => true,
            }
        },
        match state.collision(
            state.lessons[mutation.target_lesson as int].changed(mutation.mutation_type),
            mutation.target_lesson,
        ) {
            InnerCollision::CollidesWithOne(peer) => state.in_the_way(
                state.lessons[peer as int].inheriting(
                    state.lessons[mutation.target_lesson as int],
                    mutation.mutation_type,
                ),
                peer,
                mutation.target_lesson,
            ),
            _ => true,
        },
{
    let target = mutation.target_lesson;
    let old_state = state.lessons[target as int];
    let new_state = old_state.changed(mutation.mutation_type);
    lemma_collision_meaning(state, new_state, target);
    match state.collision(new_state, target) {
        InnerCollision::CollidesWithOne(peer) => {
            let peer_old = state.lessons[peer as int];
            let peer_new = peer_old.inheriting(old_state, mutation.mutation_type);
            lemma_in_the_way_is_placed(state, new_state, target, peer);
            lemma_collision_meaning(state, peer_new, peer);
            assert(state.in_the_way(peer_new, peer, target));
            assert forall|other: usize|
                state.in_the_way(peer_new, peer, other) && !(mutation.mutation_type
                    is ChangeTime) implies other == target by {
                lemma_in_the_way_is_placed(state, peer_new, peer, other);
            }
        },
        InnerCollision::TooComplex => {
            if !(mutation.mutation_type is ChangeTime) {
                let (one, other) = choose|one: usize, other: usize|
                    {
                        &&& state.in_the_way(new_state, target, one)
                        &&& state.in_the_way(new_state, target, other)
                        &&& one != other
                    };
                lemma_in_the_way_is_placed(state, new_state, target, one);
                lemma_in_the_way_is_placed(state, new_state, target, other);
                assert(false);
            }
        },
        InnerCollision::NoCollisions => {},
    }
}

} // verus!
