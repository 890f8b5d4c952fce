//! The definition of a schedule: its calendars, its types of day and its typical week.
use vstd::prelude::*;

use crate::schedule::schedule_type::ScheduleType;
use crate::text::str_eq;

verus! {

/// The place of the first entry named `name`.
pub open spec fn type_index(entries: Seq<(String, ScheduleType)>, name: Seq<char>) -> Option<int>
    decreases entries.len(),
{
    if entries.len() == 0 {
        None
    } else if entries.last().0@ == name && type_index(entries.drop_last(), name) is None {
        Some(entries.len() - 1)
    } else {
        type_index(entries.drop_last(), name)
    }
}

/// The schedule type named `name`.
pub open spec fn lookup_type(entries: Seq<(String, ScheduleType)>, name: Seq<char>) -> Option<ScheduleType> {
    match type_index(entries, name) {
        Some(i) => Some(entries[i].1),
        None => None,
    }
}

proof fn lemma_type_index(entries: Seq<(String, ScheduleType)>, name: Seq<char>)
    ensures
        type_index(entries, name) matches Some(i) ==> 0 <= i < entries.len() && entries[i].0@ == name
            && forall|j: int| 0 <= j < i ==> (#[trigger] entries[j]).0@ != name,
        type_index(entries, name) is None ==> forall|j: int| 0 <= j < entries.len() ==> (#[trigger] entries[j]).0@ != name,
    decreases entries.len(),
{
    if entries.len() > 0 {
        lemma_type_index(entries.drop_last(), name);
        assert forall|j: int| 0 <= j < entries.len() - 1 implies entries.drop_last()[j] == entries[j] by {}
    }
}

proof fn lemma_type_index_at(entries: Seq<(String, ScheduleType)>, name: Seq<char>, i: int)
    requires
        0 <= i < entries.len(),
        entries[i].0@ == name,
        forall|j: int| 0 <= j < i ==> (#[trigger] entries[j]).0@ != name,
    ensures
        type_index(entries, name) == Some(i),
{
    lemma_type_index(entries, name);
    if let Some(k) = type_index(entries, name) {
        if k < i {
            assert(entries[k].0@ != name);
        } else if k > i {
            assert(entries[i].0@ != name);
        }
    }
}

/// The entries with `value` put under `name`: in place of the schedule type of
/// that name, the name kept, or as a new entry, last.
pub open spec fn inserted(entries: Seq<(String, ScheduleType)>, name: String, value: ScheduleType) -> Seq<(String, ScheduleType)> {
    match type_index(entries, name@) {
        Some(i) => entries.update(i, (entries[i].0, value)),
        None => entries.push((name, value)),
    }
}

/// What was put under a name is found under it.
pub proof fn law_lookup_after_insert(entries: Seq<(String, ScheduleType)>, name: String, value: ScheduleType)
    ensures
        lookup_type(inserted(entries, name, value), name@) == Some(value),
{
    lemma_type_index(entries, name@);
    let e2 = inserted(entries, name, value);
    match type_index(entries, name@) {
        Some(i) => {
            assert forall|j: int| 0 <= j < i implies (#[trigger] e2[j]).0@ != name@ by {
                assert(e2[j] == entries[j]);
            }
            lemma_type_index_at(e2, name@, i);
        },
        None => {
            assert forall|j: int| 0 <= j < entries.len() implies (#[trigger] e2[j]).0@ != name@ by {
                assert(e2[j] == entries[j]);
            }
            lemma_type_index_at(e2, name@, entries.len() as int);
        },
    }
}

/// Putting a schedule type under a name leaves what every other name finds.
pub proof fn law_insert_keeps_other_names(entries: Seq<(String, ScheduleType)>, name: String, value: ScheduleType, other: Seq<char>)
    requires
        other != name@,
    ensures
        lookup_type(inserted(entries, name, value), other) == lookup_type(entries, other),
{
    lemma_type_index(entries, name@);
    lemma_type_index(entries, other);
    let e2 = inserted(entries, name, value);
    lemma_type_index(e2, other);
    match type_index(entries, other) {
        Some(k) => {
            assert forall|j: int| 0 <= j < k implies (#[trigger] e2[j]).0@ != other by {
                assert(entries[j].0@ != other);
                assert(e2[j].0@ == entries[j].0@);
            }
            assert(e2[k].0@ == entries[k].0@);
            lemma_type_index_at(e2, other, k);
            if let Some(i) = type_index(entries, name@) {
                assert(i != k);
            }
        },
        None => {
            if let Some(k) = type_index(e2, other) {
                if k < entries.len() {
                    assert(e2[k].0@ == entries[k].0@);
                }
            }
        },
    }
}

/// The types of schedule, each under its name, in the order they were added.
#[derive(Clone, Debug)]
pub struct ScheduleTypes {
    /// The names and the schedule types.
    pub entries: Vec<(String, ScheduleType)>,
}

impl ScheduleTypes {
    /// No name has two entries.
    pub open spec fn wf(self) -> bool {
        forall|i: int, j: int| 0 <= i < j < self.entries@.len() ==> self.entries@[i].0@ != self.entries@[j].0@
    }

    /// No schedule types.
    pub fn new() -> (r: ScheduleTypes)
        ensures
            r.entries@.len() == 0,
            r.wf(),
    {
        ScheduleTypes { entries: Vec::new() }
    }

    /// The number of schedule types.
    pub fn len(&self) -> (r: usize)
        ensures
            r == self.entries@.len(),
    {
        self.entries.len()
    }

    /// The place of the entry named `name`.
    pub fn find(&self, name: &str) -> (r: Option<usize>)
        ensures
            r is None <==> type_index(self.entries@, name@) is None,
            r matches Some(i) ==> type_index(self.entries@, name@) == Some(i as int) && i < self.entries@.len(),
    {
        proof {
            lemma_type_index(self.entries@, name@);
        }
        let mut i: usize = 0;
        while i < self.entries.len()
            invariant
                i <= self.entries@.len(),
                forall|j: int| 0 <= j < i ==> (#[trigger] self.entries@[j]).0@ != name@,
            decreases self.entries@.len() - i,
        {
            if str_eq(self.entries[i].0.as_str(), name) {
                proof {
                    lemma_type_index_at(self.entries@, name@, i as int);
                }
                return Some(i);
            }
            i = i + 1;
        }
        proof {
            if let Some(k) = type_index(self.entries@, name@) {
                assert(self.entries@[k].0@ != name@);
            }
        }
        None
    }

    /// The schedule type named `name`.
    pub fn get(&self, name: &str) -> (r: Option<&ScheduleType>)
        ensures
            r is None <==> lookup_type(self.entries@, name@) is None,
            r matches Some(st) ==> lookup_type(self.entries@, name@) == Some(*st),
    {
        match self.find(name) {
            Some(i) => Some(&self.entries[i].1),
            None => None,
        }
    }

    /// Whether a schedule type is named `name`.
    pub fn contains_key(&self, name: &str) -> (r: bool)
        ensures
            r == (lookup_type(self.entries@, name@) is Some),
    {
        self.find(name).is_some()
    }

    /// Puts `value` under `name`: in place of the schedule type of that name,
    /// which comes back, or as a new entry, last.
    pub fn insert(&mut self, name: String, value: ScheduleType) -> (r: Option<ScheduleType>)
        ensures
            final(self).entries@ == inserted(old(self).entries@, name, value),
            r == lookup_type(old(self).entries@, name@),
            old(self).wf() ==> final(self).wf(),
    {
        match self.find(name.as_str()) {
            Some(i) => {
                let (key, old_value) = self.entries.remove(i);
                self.entries.insert(i, (key, value));
                assert(self.entries@ =~= old(self).entries@.update(i as int, (old(self).entries@[i as int].0, value)));
                proof {
                    lemma_type_index(old(self).entries@, name@);
                }
                Some(old_value)
            },
            None => {
                proof {
                    lemma_type_index(old(self).entries@, name@);
                }
                self.entries.push((name, value));
                None
            },
        }
    }
}

/// The definition of the schedule.
#[derive(Clone, Debug)]
pub struct ScheduleDefinition {
    /// The URLs of the ical calendars we fetch the schedule's data from, in ascending order of importance.
    pub calendar_urls: Vec<String>,
    /// All of the types of schedule there are.
    pub schedule_types: ScheduleTypes,
    /// The typical schedule: the name of the schedule type of each day of the
    /// week, starting on Sunday and ending on Saturday.
    pub typical_schedule: Vec<String>,
}

} // verus!
