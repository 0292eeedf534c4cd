//! The data model: drafts as clients send them, stored rows, and the
//! task shape handed back on the wire, with spec-level views of each.
use vstd::prelude::*;

use crate::json::tags_of_text;
use crate::status::Status;

verus! {

/// A candidate task as a client (or the extraction adapter) supplies it:
/// no identity, status and sprint flag optional.
#[derive(Debug)]
pub struct Draft {
    pub title: String,
    pub description: String,
    pub tags: Vec<String>,
    pub deadline: Option<String>,
    pub project: String,
    pub assignee: String,
    pub status: Option<String>,
    pub in_sprint: Option<bool>,
    pub notes: Option<String>,
}

/// Spec view of a `Draft`.
#[verifier::ext_equal]
pub struct DraftV {
    pub title: Seq<char>,
    pub description: Seq<char>,
    pub tags: Seq<Seq<char>>,
    pub deadline: Option<Seq<char>>,
    pub project: Seq<char>,
    pub assignee: Seq<char>,
    pub status: Option<Seq<char>>,
    pub in_sprint: Option<bool>,
    pub notes: Option<Seq<char>>,
}

impl View for Draft {
    type V = DraftV;

    open spec fn view(&self) -> DraftV {
        DraftV {
            title: self.title@,
            description: self.description@,
            tags: self.tags.deep_view(),
            deadline: self.deadline.deep_view(),
            project: self.project@,
            assignee: self.assignee@,
            status: self.status.deep_view(),
            in_sprint: self.in_sprint,
            notes: self.notes.deep_view(),
        }
    }
}

impl DeepView for Draft {
    type V = DraftV;

    open spec fn deep_view(&self) -> DraftV {
        self.view()
    }
}

/// A stored task row; tags are held as the JSON text the column stores,
/// and notes as a plain string, the empty string standing for "absent".
#[derive(Debug)]
pub struct Row {
    pub id: u64,
    pub title: String,
    pub description: String,
    pub tags_json: String,
    pub deadline: Option<String>,
    pub project: String,
    pub assignee: String,
    pub status: Status,
    pub in_sprint: bool,
    pub notes: String,
}

/// Spec view of a `Row`.
#[verifier::ext_equal]
pub struct RowV {
    pub id: u64,
    pub title: Seq<char>,
    pub description: Seq<char>,
    pub tags_json: Seq<char>,
    pub deadline: Option<Seq<char>>,
    pub project: Seq<char>,
    pub assignee: Seq<char>,
    pub status: Status,
    pub in_sprint: bool,
    pub notes: Seq<char>,
}

impl View for Row {
    type V = RowV;

    open spec fn view(&self) -> RowV {
        RowV {
            id: self.id,
            title: self.title@,
            description: self.description@,
            tags_json: self.tags_json@,
            deadline: self.deadline.deep_view(),
            project: self.project@,
            assignee: self.assignee@,
            status: self.status,
            in_sprint: self.in_sprint,
            notes: self.notes@,
        }
    }
}

impl DeepView for Row {
    type V = RowV;

    open spec fn deep_view(&self) -> RowV {
        self.view()
    }
}

impl Row {
    /// A copy of the row, field for field.
    pub fn clone_row(&self) -> (r: Row)
        ensures
            r@ == self@,
    {
        let deadline: Option<String> = match &self.deadline {
            Some(d) => Some(d.clone()),
            None => None,
        };
        let r = Row {
            id: self.id,
            title: self.title.clone(),
            description: self.description.clone(),
            tags_json: self.tags_json.clone(),
            deadline,
            project: self.project.clone(),
            assignee: self.assignee.clone(),
            status: self.status,
            in_sprint: self.in_sprint,
            notes: self.notes.clone(),
        };
        proof {
            assert(r@ =~= self@);
        }
        r
    }
}

/// A task as handed back on the wire: tags decoded, notes absent when
/// the row stores the empty string.
#[derive(Debug)]
pub struct Task {
    pub id: u64,
    pub title: String,
    pub description: String,
    pub tags: Vec<String>,
    pub deadline: Option<String>,
    pub project: String,
    pub assignee: String,
    pub status: Status,
    pub in_sprint: bool,
    pub notes: Option<String>,
}

/// Spec view of a `Task`.
#[verifier::ext_equal]
pub struct TaskV {
    pub id: u64,
    pub title: Seq<char>,
    pub description: Seq<char>,
    pub tags: Seq<Seq<char>>,
    pub deadline: Option<Seq<char>>,
    pub project: Seq<char>,
    pub assignee: Seq<char>,
    pub status: Status,
    pub in_sprint: bool,
    pub notes: Option<Seq<char>>,
}

impl View for Task {
    type V = TaskV;

    open spec fn view(&self) -> TaskV {
        TaskV {
            id: self.id,
            title: self.title@,
            description: self.description@,
            tags: self.tags.deep_view(),
            deadline: self.deadline.deep_view(),
            project: self.project@,
            assignee: self.assignee@,
            status: self.status,
            in_sprint: self.in_sprint,
            notes: self.notes.deep_view(),
        }
    }
}

impl DeepView for Task {
    type V = TaskV;

    open spec fn deep_view(&self) -> TaskV {
        self.view()
    }
}

/// The task a stored row stands for: tags decoded from the column text
/// (the empty list if that text were unreadable, which the store's
/// invariant rules out), notes absent when stored empty.
pub open spec fn task_of_row(r: RowV) -> TaskV {
    TaskV {
        id: r.id,
        title: r.title,
        description: r.description,
        tags: match tags_of_text(r.tags_json) {
            Some(ts) => ts,
            None => Seq::empty(),
        },
        deadline: r.deadline,
        project: r.project,
        assignee: r.assignee,
        status: r.status,
        in_sprint: r.in_sprint,
        notes: if r.notes.len() == 0 {
            None
        } else {
            Some(r.notes)
        },
    }
}

/// A named lookup row: a project.
#[derive(Debug)]
pub struct Project {
    pub id: u64,
    pub name: String,
}

/// Spec view of a `Project`.
#[verifier::ext_equal]
pub struct ProjectV {
    pub id: u64,
    pub name: Seq<char>,
}

impl View for Project {
    type V = ProjectV;

    open spec fn view(&self) -> ProjectV {
        ProjectV { id: self.id, name: self.name@ }
    }
}

impl DeepView for Project {
    type V = ProjectV;

    open spec fn deep_view(&self) -> ProjectV {
        self.view()
    }
}

/// A named lookup row: an assignee.
#[derive(Debug)]
pub struct Assignee {
    pub id: u64,
    pub name: String,
}

/// Spec view of an `Assignee`.
#[verifier::ext_equal]
pub struct AssigneeV {
    pub id: u64,
    pub name: Seq<char>,
}

impl View for Assignee {
    type V = AssigneeV;

    open spec fn view(&self) -> AssigneeV {
        AssigneeV { id: self.id, name: self.name@ }
    }
}

impl DeepView for Assignee {
    type V = AssigneeV;

    open spec fn deep_view(&self) -> AssigneeV {
        self.view()
    }
}

} // verus!
