use std::collections::HashMap;
use vstd::prelude::*;

use super::annealing_buffer::AnnealingBuffer;
use super::inner_state::{lemma_slot_code_injective, slot_code, Lesson};
use crate::data_types::simple_date::SLOTS_PER_DAY;

verus! {

/// Number of lessons in a day that costs nothing.
pub const IDEAL_LESSONS_IN_DAY: usize = 4;

/// Whose timetable a statistic follows.
#[derive(Clone, Copy, PartialEq, Eq, Debug, Structural)]
pub enum Party {
    Group,
    Teacher,
}

impl Party {
    /// The group or the teacher of `lesson`.
    pub open spec fn spec_of(self, lesson: Lesson) -> u8 {
        match self {
            Party::Group => lesson.group,
            Party::Teacher => lesson.teacher,
        }
    }

    #[verifier::when_used_as_spec(spec_of)]
    pub fn of(self, lesson: Lesson) -> (who: u8)
        ensures
            who == self.spec_of(lesson),
    {
        match self {
            Party::Group => lesson.group,
            Party::Teacher => lesson.teacher,
        }
    }
}

/// `lesson` is a lesson of `who` in slot `time`.
pub open spec fn attends(lesson: Lesson, party: Party, who: u8, time: int) -> bool {
    party.of(lesson) == who && lesson.time == time
}

/// One of the first `count` lessons is a lesson of `who` in slot `time`.
pub open spec fn busy_among(
    lessons: Seq<Lesson>,
    count: int,
    party: Party,
    who: u8,
    time: int,
) -> bool {
    exists|i: int|
        0 <= i < count && i < lessons.len() && attends(#[trigger] lessons[i], party, who, time)
}

/// `who` has a lesson in slot `time`.
pub open spec fn busy(lessons: Seq<Lesson>, party: Party, who: u8, time: int) -> bool {
    busy_among(lessons, lessons.len() as int, party, who, time)
}

/// The latest slot before `time` in which `who` has a lesson, or -1 where
/// there is none.
pub open spec fn last_busy_before(lessons: Seq<Lesson>, party: Party, who: u8, time: int) -> int
    decreases time,
{
    if time <= 0 {
        -1
    } else if busy(lessons, party, who, time - 1) {
        time - 1
    } else {
        last_busy_before(lessons, party, who, time - 1)
    }
}

/// What a lesson of `who` in slot `time` adds to the gaps: the distance to
/// the lesson of `who` before it, where the two are on the same day.
pub open spec fn gap_ending_at(lessons: Seq<Lesson>, party: Party, who: u8, time: int) -> int {
    let before = last_busy_before(lessons, party, who, time);
    if busy(lessons, party, who, time) && before >= 0 && before / (SLOTS_PER_DAY as int) == time / (
        SLOTS_PER_DAY as int
    ) {
        time - before
    } else {
        0
    }
}

/// The gaps of `who` that end in one of the first `slots` slots.
pub open spec fn gaps_of(lessons: Seq<Lesson>, party: Party, who: u8, slots: int) -> int
    decreases slots,
{
    if slots <= 0 {
        0
    } else {
        gaps_of(lessons, party, who, slots - 1) + gap_ending_at(lessons, party, who, slots - 1)
    }
}

/// The gaps of the first `parties` groups, or teachers, over all slots.
pub open spec fn gaps(lessons: Seq<Lesson>, party: Party, parties: int) -> int
    decreases parties,
{
    if parties <= 0 {
        0
    } else {
        gaps(lessons, party, parties - 1) + gaps_of(lessons, party, (parties - 1) as u8, 256)
    }
}

/// `lesson` is a lesson of `who` on day `day`.
pub open spec fn on_day(lesson: Lesson, party: Party, who: u8, day: u8) -> bool {
    party.of(lesson) == who && lesson.time / SLOTS_PER_DAY == day
}

/// How many of the first `count` lessons are lessons of `who` on day `day`.
pub open spec fn lessons_in_day(
    lessons: Seq<Lesson>,
    count: int,
    party: Party,
    who: u8,
    day: u8,
) -> nat
    decreases count,
{
    if count <= 0 {
        0
    } else {
        lessons_in_day(lessons, count - 1, party, who, day) + if on_day(
            lessons[count - 1],
            party,
            who,
            day,
        ) {
            1nat
        } else {
            0nat
        }
    }
}

/// The latest day on which one of the first `count` lessons takes place; 0
/// where there is none.
pub open spec fn latest_day(lessons: Seq<Lesson>, count: int) -> u8
    decreases count,
{
    if count <= 0 {
        0
    } else {
        let before = latest_day(lessons, count - 1);
        let day = (lessons[count - 1].time / SLOTS_PER_DAY) as u8;
        if day > before {
            day
        } else {
            before
        }
    }
}

/// The highest group, or teacher, among the first `count` lessons; 0 where
/// there is none.
pub open spec fn highest(lessons: Seq<Lesson>, count: int, party: Party) -> u8
    decreases count,
{
    if count <= 0 {
        0
    } else {
        let before = highest(lessons, count - 1, party);
        let who = party.of(lessons[count - 1]);
        if who > before {
            who
        } else {
            before
        }
    }
}

/// For every `(who, day)` with at least one lesson, the number of lessons.
pub open spec fn day_counts_of(lessons: Seq<Lesson>, party: Party) -> Map<(u8, u8), nat> {
    Map::new(
        |cell: (u8, u8)| lessons_in_day(lessons, lessons.len() as int, party, cell.0, cell.1) > 0,
        |cell: (u8, u8)| lessons_in_day(lessons, lessons.len() as int, party, cell.0, cell.1),
    )
}

/// The table of lessons per day that a raw map of slot codes stands for.
pub open spec fn day_counts(raw: Map<u16, usize>) -> Map<(u8, u8), nat> {
    Map::new(
        |cell: (u8, u8)| raw.contains_key(slot_code(cell.0, cell.1)),
        |cell: (u8, u8)| raw[slot_code(cell.0, cell.1)] as nat,
    )
}

/// What one `(who, day)` adds to the imbalance: how far its number of
/// lessons is from the ideal, and nothing where it has no entry.
pub open spec fn imbalance_at(table: Map<(u8, u8), nat>, who: int, day: int) -> nat {
    if table.contains_key((who as u8, day as u8)) {
        let lessons = table[(who as u8, day as u8)];
        if lessons >= IDEAL_LESSONS_IN_DAY {
            (lessons - IDEAL_LESSONS_IN_DAY) as nat
        } else {
            (IDEAL_LESSONS_IN_DAY - lessons) as nat
        }
    } else {
        0
    }
}

/// The imbalance of the first `parties` groups, or teachers, on one day.
pub open spec fn imbalance_on(table: Map<(u8, u8), nat>, day: int, parties: int) -> nat
    decreases parties,
{
    if parties <= 0 {
        0
    } else {
        imbalance_on(table, day, parties - 1) + imbalance_at(table, parties - 1, day)
    }
}

/// The imbalance of the first `parties` groups, or teachers, over the first
/// `days` days.
pub open spec fn imbalance(table: Map<(u8, u8), nat>, days: int, parties: int) -> nat
    decreases days,
{
    if days <= 0 {
        0
    } else {
        imbalance(table, days - 1, parties) + imbalance_on(table, days - 1, parties)
    }
}

/// The figures that the energy of a timetable is made of.
pub struct StatisticsView {
    pub group_gaps: nat,
    pub teacher_gaps: nat,
    pub group_lessons_in_day: Map<(u8, u8), nat>,
    pub teacher_lessons_in_day: Map<(u8, u8), nat>,
    pub max_day: u8,
    pub max_group: u8,
    pub max_teacher: u8,
}

impl StatisticsView {
    /// The figures of a list of lessons.
    pub open spec fn of_lessons(lessons: Seq<Lesson>) -> StatisticsView {
        StatisticsView {
            group_gaps: gaps(lessons, Party::Group, 256) as nat,
            teacher_gaps: gaps(lessons, Party::Teacher, 256) as nat,
            group_lessons_in_day: day_counts_of(lessons, Party::Group),
            teacher_lessons_in_day: day_counts_of(lessons, Party::Teacher),
            max_day: latest_day(lessons, lessons.len() as int),
            max_group: highest(lessons, lessons.len() as int, Party::Group),
            max_teacher: highest(lessons, lessons.len() as int, Party::Teacher),
        }
    }

    /// Summed over the days before the latest and the groups below the
    /// highest: how far the number of lessons of a group on a day is from
    /// the ideal.
    pub open spec fn group_imbalance(self) -> nat {
        imbalance(self.group_lessons_in_day, self.max_day as int, self.max_group as int)
    }

    /// The same for teachers.
    pub open spec fn teacher_imbalance(self) -> nat {
        imbalance(self.teacher_lessons_in_day, self.max_day as int, self.max_teacher as int)
    }
}

/// Counters over a timetable, from which its energy is computed.
pub struct BufferStatistics {
    group_gaps: u32,
    teacher_gaps: u32,
    group_lessons_in_day: HashMap<u16, usize>,
    teacher_lessons_in_day: HashMap<u16, usize>,
    max_day: u8,
    max_group: u8,
    max_teacher: u8,
}

impl View for BufferStatistics {
    type V = StatisticsView;

    closed spec fn view(&self) -> StatisticsView {
        StatisticsView {
            group_gaps: self.group_gaps as nat,
            teacher_gaps: self.teacher_gaps as nat,
            group_lessons_in_day: day_counts(self.group_lessons_in_day@),
            teacher_lessons_in_day: day_counts(self.teacher_lessons_in_day@),
            max_day: self.max_day,
            max_group: self.max_group,
            max_teacher: self.max_teacher,
        }
    }
}

/// A gap never spans more than one day.
proof fn lemma_gap_is_short(lessons: Seq<Lesson>, party: Party, who: u8, time: int)
    requires
        0 <= time,
    ensures
        0 <= gap_ending_at(lessons, party, who, time) <= 5,
        -1 <= last_busy_before(lessons, party, who, time) < time,
    decreases time,
{
    if time > 0 {
        lemma_gap_is_short(lessons, party, who, time - 1);
    }
}

/// Who has no lesson has no gaps.
proof fn lemma_idle_has_no_gaps(lessons: Seq<Lesson>, party: Party, who: u8, slots: int)
    requires
        forall|i: int| 0 <= i < lessons.len() ==> party.of(#[trigger] lessons[i]) != who,
    ensures
        gaps_of(lessons, party, who, slots) == 0,
    decreases slots,
{
    if slots > 0 {
        lemma_idle_has_no_gaps(lessons, party, who, slots - 1);
        assert(!busy(lessons, party, who, slots - 1));
    }
}

/// Parties above the highest one add nothing to the gaps.
proof fn lemma_gaps_above_highest(lessons: Seq<Lesson>, party: Party, top: u8, parties: int)
    requires
        forall|i: int| 0 <= i < lessons.len() ==> party.of(#[trigger] lessons[i]) <= top,
        top < parties <= 256,
    ensures
        gaps(lessons, party, parties) == gaps(lessons, party, top + 1),
    decreases parties,
{
    if parties > top + 1 {
        lemma_gaps_above_highest(lessons, party, top, parties - 1);
        lemma_idle_has_no_gaps(lessons, party, (parties - 1) as u8, 256);
    }
}

/// No party is above the highest.
proof fn lemma_highest_bounds(lessons: Seq<Lesson>, count: int, party: Party)
    requires
        0 <= count <= lessons.len(),
    ensures
        forall|i: int|
            0 <= i < count ==> party.of(#[trigger] lessons[i]) <= highest(lessons, count, party),
    decreases count,
{
    if count > 0 {
        lemma_highest_bounds(lessons, count - 1, party);
    }
}

/// No more lessons are counted than were looked at.
proof fn lemma_lessons_in_day_bound(
    lessons: Seq<Lesson>,
    count: int,
    party: Party,
    who: u8,
    day: u8,
)
    requires
        0 <= count,
    ensures
        lessons_in_day(lessons, count, party, who, day) <= count,
    decreases count,
{
    if count > 0 {
        lemma_lessons_in_day_bound(lessons, count - 1, party, who, day);
    }
}

/// The gaps of one party over the whole timetable.
fn gaps_along(lessons: &Vec<Lesson>, party: Party, top: u8) -> (total: u32)
    requires
        forall|i: int| 0 <= i < lessons.len() ==> party.of(#[trigger] lessons[i]) <= top,
    ensures
        total == gaps(lessons@, party, 256),
{
    // One flag for every party and slot: whether the party has a lesson then.
    let mut taken: Vec<bool> = vec![false; 65536];
    let mut seen: usize = 0;
    while seen < lessons.len()
        invariant
            seen <= lessons.len(),
            taken.len() == 65536,
            forall|who: u8, time: u8|
                taken[#[trigger] slot_code(who, time) as int] == busy_among(
                    lessons@,
                    seen as int,
                    party,
                    who,
                    time as int,
                ),
        decreases lessons.len() - seen,
    {
        let lesson = lessons[seen];
        let code = slot_code(party.of(lesson), lesson.time);
        taken.set(code as usize, true);
        proof {
            assert forall|who: u8, time: u8|
                taken[#[trigger] slot_code(who, time) as int] == busy_among(
                    lessons@,
                    seen + 1,
                    party,
                    who,
                    time as int,
                ) by {
                lemma_slot_code_injective(who, time, party.of(lesson), lesson.time);
                if attends(lesson, party, who, time as int) {
                    assert(attends(lessons@[seen as int], party, who, time as int));
                } else if busy_among(lessons@, seen + 1, party, who, time as int) {
                    let i = choose|i: int|
                        0 <= i < seen + 1 && i < lessons@.len() && attends(
                            #[trigger] lessons@[i],
                            party,
                            who,
                            time as int,
                        );
                    assert(i < seen);
                } else if busy_among(lessons@, seen as int, party, who, time as int) {
                    let i = choose|i: int|
                        0 <= i < seen && i < lessons@.len() && attends(
                            #[trigger] lessons@[i],
                            party,
                            who,
                            time as int,
                        );
                    assert(i < seen + 1);
                }
            }
        }
        seen += 1;
    }

    let mut total: u32 = 0;
    let mut who: u16 = 0;
    while who <= top as u16
        invariant
            who <= top + 1,
            taken.len() == 65536,
            forall|who: u8, time: u8|
                taken[#[trigger] slot_code(who, time) as int] == busy(
                    lessons@,
                    party,
                    who,
                    time as int,
                ),
            total == gaps(lessons@, party, who as int),
            total <= 1280 * who,
        decreases top + 1 - who,
    {
        let mut previous: Option<u8> = None;
        let mut time: u16 = 0;
        while time < 256
            invariant
                who <= top,
                time <= 256,
                taken.len() == 65536,
                forall|who: u8, time: u8|
                    taken[#[trigger] slot_code(who, time) as int] == busy(
                        lessons@,
                        party,
                        who,
                        time as int,
                    ),
                match previous {
                    Some(slot) => slot == last_busy_before(
                        lessons@,
                        party,
                        who as u8,
                        time as int,
                    ),
                    None => last_busy_before(lessons@, party, who as u8, time as int) == -1,
                },
                total == gaps(lessons@, party, who as int) + gaps_of(
                    lessons@,
                    party,
                    who as u8,
                    time as int,
                ),
                total <= 1280 * who + 5 * time,
            decreases 256 - time,
        {
            proof {
                lemma_gap_is_short(lessons@, party, who as u8, time as int);
            }
            let code = slot_code(who as u8, time as u8);
            if taken[code as usize] {
                if let Some(slot) = previous {
                    if slot / SLOTS_PER_DAY == (time as u8) / SLOTS_PER_DAY {
                        total += (time as u32) - (slot as u32);
                    }
                }
                previous = Some(time as u8);
            }
            time += 1;
        }
        who += 1;
    }
    proof {
        lemma_gaps_above_highest(lessons@, party, top, 256);
    }
    total
}

/// Fills `table` with the number of lessons of every party on every day.
fn count_lessons_in_day(table: &mut HashMap<u16, usize>, lessons: &Vec<Lesson>, party: Party)
    ensures
        day_counts(final(table)@) == day_counts_of(lessons@, party),
{
    broadcast use vstd::std_specs::hash::group_hash_axioms;

    table.clear();
    let mut seen: usize = 0;
    while seen < lessons.len()
        invariant
            seen <= lessons.len(),
            forall|who: u8, day: u8|
                table@.contains_key(#[trigger] slot_code(who, day)) == (lessons_in_day(
                    lessons@,
                    seen as int,
                    party,
                    who,
                    day,
                ) > 0),
            forall|who: u8, day: u8|
                table@.contains_key(#[trigger] slot_code(who, day)) ==> table@[slot_code(
                    who,
                    day,
                )] == lessons_in_day(lessons@, seen as int, party, who, day),
        decreases lessons.len() - seen,
    {
        let lesson = lessons[seen];
        let who = party.of(lesson);
        let day = lesson.time / SLOTS_PER_DAY;
        let code = slot_code(who, day);
        proof {
            lemma_lessons_in_day_bound(lessons@, seen as int, party, who, day);
            assert forall|other_who: u8, other_day: u8|
                slot_code(other_who, other_day) == code implies other_who == who && other_day
                == day by {
                lemma_slot_code_injective(other_who, other_day, who, day);
            }
        }
        let current = match table.get(&code) {
            Some(current) => *current,
            None => 0,
        };
        table.insert(code, current + 1);
        seen += 1;
    }
    proof {
        assert(day_counts(table@) =~= day_counts_of(lessons@, party));
    }
}

impl Default for BufferStatistics {
    fn default() -> (statistics: Self)
        ensures
            statistics@ == StatisticsView::of_lessons(Seq::empty()),
    {
        BufferStatistics::new()
    }
}

impl BufferStatistics {
    pub fn new() -> (statistics: Self)
        ensures
            statistics@ == StatisticsView::of_lessons(Seq::empty()),
    {
        let statistics = Self {
            group_gaps: 0,
            teacher_gaps: 0,
            group_lessons_in_day: HashMap::new(),
            teacher_lessons_in_day: HashMap::new(),
            max_day: 0,
            max_group: 0,
            max_teacher: 0,
        };
        proof {
            let lessons = Seq::<Lesson>::empty();
            let figures = StatisticsView::of_lessons(lessons);
            lemma_gaps_above_highest(lessons, Party::Group, 0, 256);
            lemma_gaps_above_highest(lessons, Party::Teacher, 0, 256);
            lemma_idle_has_no_gaps(lessons, Party::Group, 0, 256);
            lemma_idle_has_no_gaps(lessons, Party::Teacher, 0, 256);
            assert(gaps(lessons, Party::Group, 1) == 0) by {
                assert(gaps(lessons, Party::Group, 0) == 0);
            }
            assert(gaps(lessons, Party::Teacher, 1) == 0) by {
                assert(gaps(lessons, Party::Teacher, 0) == 0);
            }
            assert(statistics@.group_lessons_in_day =~= figures.group_lessons_in_day);
            assert(statistics@.teacher_lessons_in_day =~= figures.teacher_lessons_in_day);
        }
        statistics
    }

    /// Computes every counter anew from the lessons of `buffer`.
    pub fn emplace_of_buffer(&mut self, buffer: &AnnealingBuffer)
        ensures
            final(self)@ == StatisticsView::of_lessons(buffer.inner_state@.lessons),
    {
        self.clear();

        let state_ref = buffer.inner_state.state_ref();
        let lessons = state_ref.lessons;

        let mut max_day: u8 = 0;
        let mut max_group: u8 = 0;
        let mut max_teacher: u8 = 0;
        let mut seen: usize = 0;
        while seen < lessons.len()
            invariant
                seen <= lessons.len(),
                max_day == latest_day(lessons@, seen as int),
                max_group == highest(lessons@, seen as int, Party::Group),
                max_teacher == highest(lessons@, seen as int, Party::Teacher),
            decreases lessons.len() - seen,
        {
            let lesson = lessons[seen];
            let day = lesson.time / SLOTS_PER_DAY;
            if day > max_day {
                max_day = day;
            }
            if lesson.group > max_group {
                max_group = lesson.group;
            }
            if lesson.teacher > max_teacher {
                max_teacher = lesson.teacher;
            }
            seen += 1;
        }
        self.max_day = max_day;
        self.max_group = max_group;
        self.max_teacher = max_teacher;

        count_lessons_in_day(&mut self.group_lessons_in_day, lessons, Party::Group);
        count_lessons_in_day(&mut self.teacher_lessons_in_day, lessons, Party::Teacher);

        proof {
            lemma_highest_bounds(lessons@, lessons@.len() as int, Party::Group);
            lemma_highest_bounds(lessons@, lessons@.len() as int, Party::Teacher);
        }
        self.group_gaps = gaps_along(lessons, Party::Group, max_group);
        self.teacher_gaps = gaps_along(lessons, Party::Teacher, max_teacher);
    }

    /// How far the numbers of lessons per day are from the ideal, for
    /// groups and for teachers.
    pub fn gaps_energy(&self) -> (energy: (u128, u128))
        ensures
            energy.0 == self@.group_imbalance(),
            energy.1 == self@.teacher_imbalance(),
    {
        let mut group_energy: u128 = 0;
        let mut teacher_energy: u128 = 0;

        let mut day: u8 = 0;
        while day < self.max_day
            invariant
                day <= self.max_day,
                group_energy == imbalance(
                    self@.group_lessons_in_day,
                    day as int,
                    self.max_group as int,
                ),
                teacher_energy == imbalance(
                    self@.teacher_lessons_in_day,
                    day as int,
                    self.max_teacher as int,
                ),
                group_energy <= day * 256 * 0x1_0000_0000_0000_0000,
                teacher_energy <= day * 256 * 0x1_0000_0000_0000_0000,
            decreases self.max_day - day,
        {
            let group_part = imbalance_of_day(&self.group_lessons_in_day, day, self.max_group);
            let teacher_part = imbalance_of_day(
                &self.teacher_lessons_in_day,
                day,
                self.max_teacher,
            );
            group_energy += group_part;
            teacher_energy += teacher_part;
            day += 1;
        }

        (group_energy, teacher_energy)
    }

    /// The gaps in the timetables of all groups.
    pub fn group_gaps(&self) -> (gaps: u32)
        ensures
            gaps == self@.group_gaps,
    {
        self.group_gaps
    }

    /// The gaps in the timetables of all teachers.
    pub fn teacher_gaps(&self) -> (gaps: u32)
        ensures
            gaps == self@.teacher_gaps,
    {
        self.teacher_gaps
    }

    /// Empties the tables and sets the gap counters to zero. The observed
    /// maxima stay.
    pub fn clear(&mut self)
        ensures
            final(self)@ == (StatisticsView {
                group_gaps: 0,
                teacher_gaps: 0,
                group_lessons_in_day: Map::empty(),
                teacher_lessons_in_day: Map::empty(),
                ..old(self)@
            }),
    {
        self.group_lessons_in_day.clear();
        self.teacher_lessons_in_day.clear();
        self.group_gaps = 0;
        self.teacher_gaps = 0;
        proof {
            assert(self@.group_lessons_in_day =~= Map::empty());
            assert(self@.teacher_lessons_in_day =~= Map::empty());
        }
    }
}

/// The imbalance of the parties below `parties` on one day.
fn imbalance_of_day(table: &HashMap<u16, usize>, day: u8, parties: u8) -> (total: u128)
    ensures
        total == imbalance_on(day_counts(table@), day as int, parties as int),
        total <= parties * 0x1_0000_0000_0000_0000,
{
    broadcast use vstd::std_specs::hash::group_hash_axioms;

    let mut total: u128 = 0;
    let mut who: u8 = 0;
    while who < parties
        invariant
            who <= parties,
            total == imbalance_on(day_counts(table@), day as int, who as int),
            total <= who * 0x1_0000_0000_0000_0000,
        decreases parties - who,
    {
        let code = slot_code(who, day);
        if let Some(lessons) = table.get(&code) {
            let diff_from_perfect = if *lessons >= IDEAL_LESSONS_IN_DAY {
                *lessons - IDEAL_LESSONS_IN_DAY
            } else {
                IDEAL_LESSONS_IN_DAY - *lessons
            };
            total += diff_from_perfect as u128;
        }
        who += 1;
    }
    total
}

} // verus!
