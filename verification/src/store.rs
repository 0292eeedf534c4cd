//! The in-memory store backing the service: the task table and the two
//! lookup tables, with their well-formedness invariant — positive,
//! strictly increasing task identities below the next-identity counter,
//! decodable tags text in every row, and lookup tables with distinct
//! identities, kept sorted by name.
use vstd::prelude::*;

use crate::json::tags_of_text;
use crate::model::{Assignee, AssigneeV, Project, ProjectV, Row, RowV, Task};
use crate::text::lex_lt;

verus! {

/// Task rows are well formed: every identity is positive and below
/// `next`, identities strictly increase, and every row's tags text is
/// readable as a JSON array of strings.
pub open spec fn tasks_wf(tasks: Seq<RowV>, next: u64) -> bool {
    &&& forall|i: int| 0 <= i < tasks.len() ==> 1 <= (#[trigger] tasks[i]).id < next
    &&& forall|i: int, j: int|
        #![trigger tasks[i].id, tasks[j].id]
        0 <= i < j < tasks.len() ==> tasks[i].id < tasks[j].id
    &&& forall|i: int| 0 <= i < tasks.len() ==> tags_of_text((#[trigger] tasks[i]).tags_json) is Some
}

/// Project rows are well formed: positive identities below `next`, all
/// distinct, and rows strictly sorted by name (so names are unique).
pub open spec fn projects_wf(ps: Seq<ProjectV>, next: u64) -> bool {
    &&& forall|i: int| 0 <= i < ps.len() ==> 1 <= (#[trigger] ps[i]).id < next
    &&& forall|i: int, j: int|
        #![trigger ps[i].id, ps[j].id]
        0 <= i < j < ps.len() ==> ps[i].id != ps[j].id
    &&& forall|i: int, j: int|
        #![trigger ps[i].name, ps[j].name]
        0 <= i < j < ps.len() ==> lex_lt(ps[i].name, ps[j].name)
}

/// Assignee rows are well formed, as project rows are.
pub open spec fn assignees_wf(ps: Seq<AssigneeV>, next: u64) -> bool {
    &&& forall|i: int| 0 <= i < ps.len() ==> 1 <= (#[trigger] ps[i]).id < next
    &&& forall|i: int, j: int|
        #![trigger ps[i].id, ps[j].id]
        0 <= i < j < ps.len() ==> ps[i].id != ps[j].id
    &&& forall|i: int, j: int|
        #![trigger ps[i].name, ps[j].name]
        0 <= i < j < ps.len() ==> lex_lt(ps[i].name, ps[j].name)
}

/// Spec view of the whole store.
#[verifier::ext_equal]
pub struct StoreV {
    pub tasks: Seq<RowV>,
    pub projects: Seq<ProjectV>,
    pub assignees: Seq<AssigneeV>,
    pub next_task_id: u64,
    pub next_project_id: u64,
    pub next_assignee_id: u64,
}

impl StoreV {
    /// The store's invariant.
    pub open spec fn wf(self) -> bool {
        &&& self.next_task_id >= 1
        &&& self.next_project_id >= 1
        &&& self.next_assignee_id >= 1
        &&& tasks_wf(self.tasks, self.next_task_id)
        &&& projects_wf(self.projects, self.next_project_id)
        &&& assignees_wf(self.assignees, self.next_assignee_id)
    }
}

/// A task row with this identity exists.
pub open spec fn has_task(tasks: Seq<RowV>, id: u64) -> bool {
    exists|i: int| 0 <= i < tasks.len() && (#[trigger] tasks[i]).id == id
}

/// The index of the task row with this identity (meaningful when
/// `has_task` holds; identities are unique under the invariant).
pub open spec fn task_idx(tasks: Seq<RowV>, id: u64) -> int {
    choose|i: int| 0 <= i < tasks.len() && (#[trigger] tasks[i]).id == id
}

/// A project with this name exists.
pub open spec fn has_project(s: StoreV, name: Seq<char>) -> bool {
    exists|i: int| 0 <= i < s.projects.len() && (#[trigger] s.projects[i]).name == name
}

/// An assignee with this name exists.
pub open spec fn has_assignee(s: StoreV, name: Seq<char>) -> bool {
    exists|i: int| 0 <= i < s.assignees.len() && (#[trigger] s.assignees[i]).name == name
}

/// A project with this identity exists.
pub open spec fn has_project_id(s: StoreV, id: u64) -> bool {
    exists|i: int| 0 <= i < s.projects.len() && (#[trigger] s.projects[i]).id == id
}

/// The index of the project with this identity.
pub open spec fn project_idx(s: StoreV, id: u64) -> int {
    choose|i: int| 0 <= i < s.projects.len() && (#[trigger] s.projects[i]).id == id
}

/// An assignee with this identity exists.
pub open spec fn has_assignee_id(s: StoreV, id: u64) -> bool {
    exists|i: int| 0 <= i < s.assignees.len() && (#[trigger] s.assignees[i]).id == id
}

/// The index of the assignee with this identity.
pub open spec fn assignee_idx(s: StoreV, id: u64) -> int {
    choose|i: int| 0 <= i < s.assignees.len() && (#[trigger] s.assignees[i]).id == id
}

/// Under the invariant a task identity occurs at one index only, so the
/// chosen index is the found one.
pub proof fn lemma_task_idx_unique(tasks: Seq<RowV>, next: u64, id: u64, i: int)
    requires
        tasks_wf(tasks, next),
        0 <= i < tasks.len(),
        tasks[i].id == id,
    ensures
        has_task(tasks, id),
        task_idx(tasks, id) == i,
{
    assert(has_task(tasks, id));
    let j = task_idx(tasks, id);
    if j < i {
        assert(tasks[j].id < tasks[i].id);
    } else if j > i {
        assert(tasks[i].id < tasks[j].id);
    }
}

/// The store: the task table, the two lookup tables, and the three
/// identity counters.
pub struct Store {
    pub tasks: Vec<Row>,
    pub projects: Vec<Project>,
    pub assignees: Vec<Assignee>,
    pub next_task_id: u64,
    pub next_project_id: u64,
    pub next_assignee_id: u64,
}

impl View for Store {
    type V = StoreV;

    open spec fn view(&self) -> StoreV {
        StoreV {
            tasks: self.tasks.deep_view(),
            projects: self.projects.deep_view(),
            assignees: self.assignees.deep_view(),
            next_task_id: self.next_task_id,
            next_project_id: self.next_project_id,
            next_assignee_id: self.next_assignee_id,
        }
    }
}

impl Store {
    /// A fresh store: no tasks, and the two seeded defaults — project 1
    /// "General" and assignee 1 "Unassigned".
    pub fn new() -> (s: Store)
        ensures
            s@.wf(),
            s@.tasks == Seq::<RowV>::empty(),
            s@.projects == seq![ProjectV { id: 1u64, name: "General"@ }],
            s@.assignees == seq![AssigneeV { id: 1u64, name: "Unassigned"@ }],
            s@.next_task_id == 1u64,
            s@.next_project_id == 2u64,
            s@.next_assignee_id == 2u64,
    {
        let mut projects: Vec<Project> = Vec::new();
        projects.push(Project { id: 1, name: String::from_str("General") });
        let mut assignees: Vec<Assignee> = Vec::new();
        assignees.push(Assignee { id: 1, name: String::from_str("Unassigned") });
        let s = Store {
            tasks: Vec::new(),
            projects,
            assignees,
            next_task_id: 1,
            next_project_id: 2,
            next_assignee_id: 2,
        };
        proof {
            assert(s@.tasks =~= Seq::<RowV>::empty());
            assert(s@.projects =~= seq![ProjectV { id: 1u64, name: "General"@ }]);
            assert(s@.assignees =~= seq![AssigneeV { id: 1u64, name: "Unassigned"@ }]);
        }
        s
    }

    /// The index of the task row with this identity, if any.
    pub fn find_task(&self, id: u64) -> (r: Option<usize>)
        requires
            self@.wf(),
        ensures
            match r {
                Some(i) => {
                    &&& i < self.tasks@.len()
                    &&& self@.tasks[i as int].id == id
                    &&& has_task(self@.tasks, id)
                    &&& task_idx(self@.tasks, id) == i as int
                },
                None => !has_task(self@.tasks, id),
            },
    {
        let mut i: usize = 0;
        while i < self.tasks.len()
            invariant
                self@.wf(),
                0 <= i <= self.tasks@.len(),
                forall|m: int| 0 <= m < i ==> (#[trigger] self@.tasks[m]).id != id,
            decreases self.tasks@.len() - i,
        {
            if self.tasks[i].id == id {
                proof {
                    lemma_task_idx_unique(self@.tasks, self@.next_task_id, id, i as int);
                }
                return Some(i);
            }
            i += 1;
        }
        None
    }

    /// Whether a project of this name exists.
    pub fn project_exists(&self, name: &str) -> (r: bool)
        ensures
            r == has_project(self@, name@),
    {
        let mut i: usize = 0;
        while i < self.projects.len()
            invariant
                0 <= i <= self.projects@.len(),
                forall|m: int| 0 <= m < i ==> (#[trigger] self@.projects[m]).name != name@,
            decreases self.projects@.len() - i,
        {
            if crate::text::str_eq(self.projects[i].name.as_str(), name) {
                proof {
                    assert(self@.projects[i as int].name == name@);
                    assert(has_project(self@, name@));
                }
                return true;
            }
            i += 1;
        }
        false
    }

    /// Whether an assignee of this name exists.
    pub fn assignee_exists(&self, name: &str) -> (r: bool)
        ensures
            r == has_assignee(self@, name@),
    {
        let mut i: usize = 0;
        while i < self.assignees.len()
            invariant
                0 <= i <= self.assignees@.len(),
                forall|m: int| 0 <= m < i ==> (#[trigger] self@.assignees[m]).name != name@,
            decreases self.assignees@.len() - i,
        {
            if crate::text::str_eq(self.assignees[i].name.as_str(), name) {
                proof {
                    assert(self@.assignees[i as int].name == name@);
                    assert(has_assignee(self@, name@));
                }
                return true;
            }
            i += 1;
        }
        false
    }
}

/// Under the invariant a project identity occurs at one index only.
pub proof fn lemma_project_idx_unique(s: StoreV, id: u64, i: int)
    requires
        projects_wf(s.projects, s.next_project_id),
        0 <= i < s.projects.len(),
        s.projects[i].id == id,
    ensures
        has_project_id(s, id),
        project_idx(s, id) == i,
{
    assert(has_project_id(s, id));
    let j = project_idx(s, id);
    if j < i {
        assert(s.projects[j].id != s.projects[i].id);
    } else if j > i {
        assert(s.projects[i].id != s.projects[j].id);
    }
}

/// Under the invariant an assignee identity occurs at one index only.
pub proof fn lemma_assignee_idx_unique(s: StoreV, id: u64, i: int)
    requires
        assignees_wf(s.assignees, s.next_assignee_id),
        0 <= i < s.assignees.len(),
        s.assignees[i].id == id,
    ensures
        has_assignee_id(s, id),
        assignee_idx(s, id) == i,
{
    assert(has_assignee_id(s, id));
    let j = assignee_idx(s, id);
    if j < i {
        assert(s.assignees[j].id != s.assignees[i].id);
    } else if j > i {
        assert(s.assignees[i].id != s.assignees[j].id);
    }
}

impl Store {
    /// The index of the project with this identity, if any.
    pub fn find_project(&self, id: u64) -> (r: Option<usize>)
        requires
            self@.wf(),
        ensures
            match r {
                Some(i) => {
                    &&& i < self.projects@.len()
                    &&& self@.projects[i as int].id == id
                    &&& has_project_id(self@, id)
                    &&& project_idx(self@, id) == i as int
                },
                None => !has_project_id(self@, id),
            },
    {
        let mut i: usize = 0;
        while i < self.projects.len()
            invariant
                self@.wf(),
                0 <= i <= self.projects@.len(),
                forall|m: int| 0 <= m < i ==> (#[trigger] self@.projects[m]).id != id,
            decreases self.projects@.len() - i,
        {
            if self.projects[i].id == id {
                proof {
                    lemma_project_idx_unique(self@, id, i as int);
                }
                return Some(i);
            }
            i += 1;
        }
        None
    }

    /// The index of the assignee with this identity, if any.
    pub fn find_assignee(&self, id: u64) -> (r: Option<usize>)
        requires
            self@.wf(),
        ensures
            match r {
                Some(i) => {
                    &&& i < self.assignees@.len()
                    &&& self@.assignees[i as int].id == id
                    &&& has_assignee_id(self@, id)
                    &&& assignee_idx(self@, id) == i as int
                },
                None => !has_assignee_id(self@, id),
            },
    {
        let mut i: usize = 0;
        while i < self.assignees.len()
            invariant
                self@.wf(),
                0 <= i <= self.assignees@.len(),
                forall|m: int| 0 <= m < i ==> (#[trigger] self@.assignees[m]).id != id,
            decreases self.assignees@.len() - i,
        {
            if self.assignees[i].id == id {
                proof {
                    lemma_assignee_idx_unique(self@, id, i as int);
                }
                return Some(i);
            }
            i += 1;
        }
        None
    }
}

/// The wire task a stored row stands for: tags decoded from the column
/// text, notes absent when stored empty.
pub fn row_to_task(row: &Row) -> (t: Task)
    requires
        tags_of_text(row@.tags_json) is Some,
    ensures
        t@ == crate::model::task_of_row(row@),
{
    let tags: Vec<String> = match crate::json::decode_tags(row.tags_json.as_str()) {
        Some(ts) => ts,
        None => vstd::pervasive::unreached(),
    };
    let notes: Option<String> = if row.notes.as_str().unicode_len() == 0 {
        None
    } else {
        Some(row.notes.clone())
    };
    let deadline: Option<String> = match &row.deadline {
        Some(d) => Some(d.clone()),
        None => None,
    };
    Task {
        id: row.id,
        title: row.title.clone(),
        description: row.description.clone(),
        tags,
        deadline,
        project: row.project.clone(),
        assignee: row.assignee.clone(),
        status: row.status,
        in_sprint: row.in_sprint,
        notes,
    }
}

} // verus!
