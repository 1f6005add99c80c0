//! Projects and their children as they are kept, and the rules by which
//! they are named, listed and updated.

use crate::json::Json;
use crate::models::{ChildInputs, ChildMode, ChildOutputs, ChildType};
use crate::numerals::{decimal_padded4, push_decimal_padded4};
use crate::prompt::is_filled;
use crate::text::{trim, trimmed};
use vstd::prelude::*;
use vstd::string::StringExecFns;

verus! {

/// An instant: seconds since the start of 1970 in UTC, and the nanoseconds
/// into that second.
#[derive(Debug, Clone, Copy, PartialEq, Eq, Structural)]
pub struct Timestamp {
    pub seconds: i64,
    pub nanos: u32,
}

impl Timestamp {
    /// Whether `self` is later than `other`.
    pub open spec fn is_after(self, other: Timestamp) -> bool {
        self.seconds > other.seconds || (self.seconds == other.seconds && self.nanos > other.nanos)
    }

    /// Whether `self` is later than `other`.
    pub fn later_than(&self, other: &Timestamp) -> (later: bool)
        ensures
            later == self.is_after(*other),
    {
        self.seconds > other.seconds || (self.seconds == other.seconds && self.nanos > other.nanos)
    }
}

/// A project as it is listed.
#[derive(Debug, Clone)]
pub struct ProjectSummary {
    pub id: String,
    pub name: String,
    pub created_at: Timestamp,
    pub updated_at: Timestamp,
    pub child_count: usize,
}

/// A project as it is stored: its children by their ids.
#[derive(Debug, Clone)]
pub struct ProjectRecord {
    pub id: String,
    pub name: String,
    pub created_at: Timestamp,
    pub updated_at: Timestamp,
    pub child_ids: Vec<String>,
}

/// What was sent to the provider, with image data left out.
#[derive(Debug)]
pub struct OpenRouterSnapshot {
    pub model: String,
    pub payload: Json,
}

/// One generation or edit of a project.
#[derive(Debug)]
pub struct Child {
    pub id: String,
    pub project_id: String,
    pub child_type: ChildType,
    pub name: String,
    pub created_at: Timestamp,
    pub mode: ChildMode,
    pub inputs: ChildInputs,
    pub openrouter: OpenRouterSnapshot,
    pub outputs: ChildOutputs,
}

/// A project with its children.
#[derive(Debug)]
pub struct Project {
    pub id: String,
    pub name: String,
    pub created_at: Timestamp,
    pub updated_at: Timestamp,
    pub children: Vec<Child>,
}

/// What a generation or an edit hands back.
#[derive(Debug)]
pub struct ChildResult {
    pub project: ProjectSummary,
    pub child: Child,
}

impl ProjectRecord {
    /// The project as it is listed.
    pub fn to_summary(&self) -> (summary: ProjectSummary)
        ensures
            summary.id == self.id,
            summary.name == self.name,
            summary.created_at == self.created_at,
            summary.updated_at == self.updated_at,
            summary.child_count == self.child_ids@.len(),
    {
        ProjectSummary {
            id: self.id.clone(),
            name: self.name.clone(),
            created_at: self.created_at,
            updated_at: self.updated_at,
            child_count: self.child_ids.len(),
        }
    }
}

/// The name of a project: the trimmed name that was asked for where it
/// holds more than whitespace, else one made of the date.
pub open spec fn project_name_text(name: Option<String>, date: Seq<char>) -> Seq<char> {
    if is_filled(name) {
        trimmed(name->0@)
    } else {
        "sprite-project-"@ + date
    }
}

/// The name of a project. `date` is the day, written out by the caller.
pub fn normalize_project_name(name: Option<String>, date: &str) -> (text: String)
    ensures
        text@ == project_name_text(name, date@),
{
    match &name {
        Some(asked) => {
            let kept = trim(asked.as_str());
            if !kept.is_empty() {
                return String::from_str(kept);
            }
        },
        None => {},
    }
    let mut text = String::from_str("sprite-project-");
    text.append(date);
    text
}

/// A new project without children.
pub fn new_project_record(id: String, name: Option<String>, date: &str, now: Timestamp) -> (record:
    ProjectRecord)
    ensures
        record.id == id,
        record.name@ == project_name_text(name, date@),
        record.created_at == now,
        record.updated_at == now,
        record.child_ids@.len() == 0,
{
    ProjectRecord {
        id,
        name: normalize_project_name(name, date),
        created_at: now,
        updated_at: now,
        child_ids: Vec::new(),
    }
}

/// Renames a project where a name is given that holds more than
/// whitespace. Returns whether the record changed and has to be stored.
pub fn rename_project(record: &mut ProjectRecord, name: Option<String>, now: Timestamp) -> (changed:
    bool)
    ensures
        changed == is_filled(name),
        final(record).id == old(record).id,
        final(record).created_at == old(record).created_at,
        final(record).child_ids == old(record).child_ids,
        changed ==> final(record).name@ == trimmed(name->0@) && final(record).updated_at == now,
        !changed ==> *final(record) == *old(record),
{
    match &name {
        Some(asked) => {
            let kept = trim(asked.as_str());
            if !kept.is_empty() {
                record.name = String::from_str(kept);
                record.updated_at = now;
                return true;
            }
        },
        None => {},
    }
    false
}

/// Adds a child to a project.
pub fn add_child(record: &mut ProjectRecord, child_id: &str, now: Timestamp)
    ensures
        final(record).id == old(record).id,
        final(record).name == old(record).name,
        final(record).created_at == old(record).created_at,
        final(record).updated_at == now,
        final(record).child_ids@.len() == old(record).child_ids@.len() + 1,
        final(record).child_ids@.drop_last() == old(record).child_ids@,
        final(record).child_ids@.last()@ == child_id@,
{
    record.child_ids.push(String::from_str(child_id));
    record.updated_at = now;
    proof {
        assert(record.child_ids@.drop_last() =~= old(record).child_ids@);
    }
}

/// A project with the children that could be read.
pub fn assemble_project(record: ProjectRecord, children: Vec<Child>) -> (project: Project)
    ensures
        project.id == record.id,
        project.name == record.name,
        project.created_at == record.created_at,
        project.updated_at == record.updated_at,
        project.children == children,
{
    Project {
        id: record.id,
        name: record.name,
        created_at: record.created_at,
        updated_at: record.updated_at,
        children,
    }
}

/// How many of the children are of the given type.
pub open spec fn count_of_type(children: Seq<Child>, child_type: ChildType) -> nat
    decreases children.len(),
{
    if children.len() == 0 {
        0
    } else {
        count_of_type(children.drop_last(), child_type) + if children.last().child_type
            == child_type {
            1nat
        } else {
            0nat
        }
    }
}

/// The name of the next child of the given type: `gen` or `edit`, a
/// hyphen, and the number of the child among those of its type, in four
/// digits at least.
pub open spec fn child_name_text(child_type: ChildType, number: nat) -> Seq<char> {
    let prefix = match child_type {
        ChildType::Generate => "gen"@,
        ChildType::Edit => "edit"@,
    };
    prefix + "-"@ + decimal_padded4(number)
}

/// The name of the next child of the given type of a project.
pub fn next_child_name(children: &Vec<Child>, child_type: ChildType) -> (name: String)
    requires
        children@.len() < u64::MAX,
    ensures
        name@ == child_name_text(child_type, count_of_type(children@, child_type) + 1),
{
    let mut count: u64 = 0;
    let mut i: usize = 0;
    proof {
        assert(children@.take(0) =~= Seq::<Child>::empty());
    }
    while i < children.len()
        invariant
            i <= children@.len(),
            children@.len() < u64::MAX,
            count == count_of_type(children@.take(i as int), child_type),
            count <= i,
        decreases children@.len() - i,
    {
        proof {
            assert(children@.take(i + 1).drop_last() =~= children@.take(i as int));
            assert(children@.take(i + 1).last() == children@[i as int]);
        }
        let same = match (children[i].child_type, child_type) {
            (ChildType::Generate, ChildType::Generate) => true,
            (ChildType::Edit, ChildType::Edit) => true,
            _ => false,
        };
        if same {
            count = count + 1;
        }
        i = i + 1;
    }
    proof {
        assert(children@.take(children@.len() as int) =~= children@);
    }
    let mut name = match child_type {
        ChildType::Generate => String::from_str("gen"),
        ChildType::Edit => String::from_str("edit"),
    };
    name.append("-");
    push_decimal_padded4(&mut name, count + 1);
    name
}

/// The place of the record that was updated last; of several such, the
/// first.
pub open spec fn latest_index(records: Seq<ProjectRecord>) -> int
    decreases records.len(),
{
    if records.len() <= 1 {
        0
    } else {
        let before = latest_index(records.drop_last());
        if records.last().updated_at.is_after(records[before].updated_at) {
            records.len() - 1
        } else {
            before
        }
    }
}

/// The records from the one updated last to the one updated first; records
/// updated at the same instant stay in the order in which they came.
pub open spec fn by_recency(records: Seq<ProjectRecord>) -> Seq<ProjectRecord>
    decreases records.len(),
{
    if records.len() == 0 {
        records
    } else {
        let k = latest_index(records);
        if 0 <= k < records.len() {
            seq![records[k]] + by_recency(records.remove(k))
        } else {
            records
        }
    }
}

/// `latest_index` is a place of the list, no record was updated later than
/// the one there, and every record before it was updated earlier.
pub proof fn lemma_latest_index(records: Seq<ProjectRecord>)
    requires
        records.len() > 0,
    ensures
        0 <= latest_index(records) < records.len(),
        forall|j: int|
            0 <= j < records.len() ==> !(#[trigger] records[j]).updated_at.is_after(
                records[latest_index(records)].updated_at,
            ),
        forall|j: int|
            0 <= j < latest_index(records) ==> records[latest_index(records)].updated_at.is_after(
                (#[trigger] records[j]).updated_at,
            ),
    decreases records.len(),
{
    if records.len() > 1 {
        let shorter = records.drop_last();
        lemma_latest_index(shorter);
        let before = latest_index(shorter);
        assert forall|j: int| 0 <= j < records.len() implies !(#[trigger] records[j]).updated_at.is_after(
            records[latest_index(records)].updated_at,
        ) by {
            if j < shorter.len() {
                assert(shorter[j] == records[j]);
            }
        }
        assert forall|j: int| 0 <= j < latest_index(records) implies records[latest_index(
            records,
        )].updated_at.is_after((#[trigger] records[j]).updated_at) by {
            assert(shorter[j] == records[j]);
        }
    }
}

/// Listing by recency keeps every record, and puts no record before one
/// that was updated later.
pub proof fn lemma_by_recency(records: Seq<ProjectRecord>)
    ensures
        by_recency(records).len() == records.len(),
        by_recency(records).to_multiset() == records.to_multiset(),
        forall|i: int, j: int|
            0 <= i < j < records.len() ==> !(#[trigger] by_recency(records)[j]).updated_at.is_after(
                (#[trigger] by_recency(records)[i]).updated_at,
            ),
    decreases records.len(),
{
    if records.len() > 0 {
        lemma_latest_index(records);
        let k = latest_index(records);
        let rest = records.remove(k);
        lemma_by_recency(rest);
        let sorted = by_recency(records);
        let tail = by_recency(rest);
        assert(sorted =~= seq![records[k]] + tail);
        vstd::seq_lib::lemma_multiset_commutative(seq![records[k]], tail);
        assert(seq![records[k]].to_multiset() =~= vstd::multiset::Multiset::singleton(records[k])) by {
            vstd::seq::Seq::<ProjectRecord>::empty().to_multiset_ensures();
            assert(seq![records[k]] =~= Seq::<ProjectRecord>::empty().push(records[k]));
        }
        records.to_multiset_ensures();
        assert(records.to_multiset() =~= rest.to_multiset().insert(records[k])) by {
            assert(records =~= rest.insert(k, records[k]));
            rest.to_multiset_ensures();
        }
        assert(sorted.to_multiset() =~= records.to_multiset());
        assert forall|i: int, j: int| 0 <= i < j < records.len() implies !(#[trigger] sorted[j]).updated_at.is_after(
            (#[trigger] sorted[i]).updated_at,
        ) by {
            if i == 0 {
                let moved = tail[j - 1];
                tail.to_multiset_ensures();
                rest.to_multiset_ensures();
                assert(tail.to_multiset().count(moved) > 0);
                assert(rest.contains(moved));
                let at = choose|at: int| 0 <= at < rest.len() && rest[at] == moved;
                assert(rest[at] == if at < k {
                    records[at]
                } else {
                    records[at + 1]
                });
            } else {
                assert(sorted[i] == tail[i - 1]);
                assert(sorted[j] == tail[j - 1]);
            }
        }
    }
}

/// Lists the records from the one updated last to the one updated first.
pub fn sort_by_recency(records: Vec<ProjectRecord>) -> (sorted: Vec<ProjectRecord>)
    ensures
        sorted@ == by_recency(records@),
{
    let mut rest = records;
    let mut sorted: Vec<ProjectRecord> = Vec::new();
    proof {
        assert(sorted@ + by_recency(rest@) =~= by_recency(records@));
    }
    while rest.len() > 0
        invariant
            sorted@ + by_recency(rest@) == by_recency(records@),
        decreases rest@.len(),
    {
        let mut best: usize = 0;
        let mut i: usize = 1;
        proof {
            assert(rest@.take(1).len() == 1);
        }
        while i < rest.len()
            invariant
                1 <= i <= rest@.len(),
                best < i,
                best == latest_index(rest@.take(i as int)),
            decreases rest@.len() - i,
        {
            proof {
                assert(rest@.take(i + 1).drop_last() =~= rest@.take(i as int));
                assert(rest@.take(i + 1).last() == rest@[i as int]);
                assert(rest@.take(i + 1)[best as int] == rest@[best as int]);
            }
            if rest[i].updated_at.later_than(&rest[best].updated_at) {
                best = i;
            }
            i = i + 1;
        }
        proof {
            assert(rest@.take(rest@.len() as int) =~= rest@);
        }
        let ghost before = rest@;
        let ghost done = sorted@;
        let record = rest.remove(best);
        sorted.push(record);
        proof {
            assert(by_recency(before) =~= seq![before[best as int]] + by_recency(rest@));
            assert(sorted@ + by_recency(rest@) =~= done + by_recency(before));
        }
    }
    proof {
        assert(sorted@ + by_recency(rest@) =~= sorted@);
    }
    sorted
}

} // verus!
