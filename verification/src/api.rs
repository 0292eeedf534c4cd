//! The request handlers: each endpoint's decision logic as a function
//! over the store, with the error taxonomy mapped to HTTP status codes.
use vstd::prelude::*;

use crate::json::{enc_tags, tags_of_text};
use crate::model::{task_of_row, Assignee, AssigneeV, Draft, DraftV, Project, ProjectV, Row, RowV,
    Task};
use crate::status::{is_wire_status, status_of_wire, Status};
use crate::store::{assignee_idx, assignees_wf, has_assignee, has_assignee_id, has_project,
    has_project_id, has_task, project_idx, projects_wf, task_idx, tasks_wf, Store, StoreV};
use crate::text::{is_blank, lemma_lex_lt_total, lemma_lex_lt_trans, lex_lt, trimmed};
use crate::validate::{first_violation, validate, ValidationError};

verus! {

/// Why a request was refused, mapped to an HTTP status code and a
/// message by `http_status` and `message`.
#[derive(Debug)]
pub enum ApiError {
    /// A field constraint was violated (400).
    Validation(ValidationError),
    /// A lookup row's name was empty after trimming (400).
    EmptyName,
    /// The named project is not in the lookup table (400).
    UnknownProject,
    /// The named assignee is not in the lookup table (400).
    UnknownAssignee,
    /// No task row has the given identity (404).
    TaskNotFound,
    /// No project row has the given identity (404).
    ProjectNotFound,
    /// No assignee row has the given identity (404).
    AssigneeNotFound,
    /// A project of that name already exists (400).
    DuplicateProject,
    /// An assignee of that name already exists (400).
    DuplicateAssignee,
    /// The reserved default project cannot be deleted (400).
    ReservedProject,
    /// The reserved default assignee cannot be deleted (400).
    ReservedAssignee,
    /// No credential for the extraction endpoint is configured (503).
    MissingCredential,
    /// The meeting notes were empty after trimming (400).
    EmptyNotes,
    /// The extraction endpoint answered with a failure (502).
    Upstream(String),
    /// The reply could not be used, or the call could not be made (500).
    Internal(String),
}

impl ApiError {
    /// The HTTP status code this error is reported with.
    pub open spec fn status_view(self) -> u16 {
        match self {
            ApiError::Validation(_) => 400,
            ApiError::EmptyName => 400,
            ApiError::UnknownProject => 400,
            ApiError::UnknownAssignee => 400,
            ApiError::TaskNotFound => 404,
            ApiError::ProjectNotFound => 404,
            ApiError::AssigneeNotFound => 404,
            ApiError::DuplicateProject => 400,
            ApiError::DuplicateAssignee => 400,
            ApiError::ReservedProject => 400,
            ApiError::ReservedAssignee => 400,
            ApiError::MissingCredential => 503,
            ApiError::EmptyNotes => 400,
            ApiError::Upstream(_) => 502,
            ApiError::Internal(_) => 500,
        }
    }

    /// Reads the HTTP status code for this error.
    pub fn http_status(&self) -> (r: u16)
        ensures
            r == self.status_view(),
    {
        match self {
            ApiError::Validation(_) => 400,
            ApiError::EmptyName => 400,
            ApiError::UnknownProject => 400,
            ApiError::UnknownAssignee => 400,
            ApiError::TaskNotFound => 404,
            ApiError::ProjectNotFound => 404,
            ApiError::AssigneeNotFound => 404,
            ApiError::DuplicateProject => 400,
            ApiError::DuplicateAssignee => 400,
            ApiError::ReservedProject => 400,
            ApiError::ReservedAssignee => 400,
            ApiError::MissingCredential => 503,
            ApiError::EmptyNotes => 400,
            ApiError::Upstream(_) => 502,
            ApiError::Internal(_) => 500,
        }
    }

    /// The message reported in the error body.
    pub open spec fn message_view(self) -> Seq<char> {
        match self {
            ApiError::Validation(e) => e.message_view(),
            ApiError::EmptyName => "name must not be empty"@,
            ApiError::UnknownProject => "project does not exist"@,
            ApiError::UnknownAssignee => "assignee does not exist"@,
            ApiError::TaskNotFound => "task not found"@,
            ApiError::ProjectNotFound => "project not found"@,
            ApiError::AssigneeNotFound => "assignee not found"@,
            ApiError::DuplicateProject => "project already exists"@,
            ApiError::DuplicateAssignee => "assignee already exists"@,
            ApiError::ReservedProject => "cannot delete the default project"@,
            ApiError::ReservedAssignee => "cannot delete the default assignee"@,
            ApiError::MissingCredential => "AI credential is not configured"@,
            ApiError::EmptyNotes => "meeting_notes must not be empty"@,
            ApiError::Upstream(m) => m@,
            ApiError::Internal(m) => m@,
        }
    }

    /// Writes the message reported in the error body.
    pub fn message(&self) -> (r: String)
        ensures
            r@ == self.message_view(),
    {
        match self {
            ApiError::Validation(e) => e.message(),
            ApiError::EmptyName => String::from_str("name must not be empty"),
            ApiError::UnknownProject => String::from_str("project does not exist"),
            ApiError::UnknownAssignee => String::from_str("assignee does not exist"),
            ApiError::TaskNotFound => String::from_str("task not found"),
            ApiError::ProjectNotFound => String::from_str("project not found"),
            ApiError::AssigneeNotFound => String::from_str("assignee not found"),
            ApiError::DuplicateProject => String::from_str("project already exists"),
            ApiError::DuplicateAssignee => String::from_str("assignee already exists"),
            ApiError::ReservedProject => String::from_str("cannot delete the default project"),
            ApiError::ReservedAssignee => String::from_str("cannot delete the default assignee"),
            ApiError::MissingCredential => String::from_str("AI credential is not configured"),
            ApiError::EmptyNotes => String::from_str("meeting_notes must not be empty"),
            ApiError::Upstream(m) => m.clone(),
            ApiError::Internal(m) => m.clone(),
        }
    }
}

/// The status word a creation applies: the client's word when it is one
/// of the enumeration, the default otherwise or when absent.
pub open spec fn forced_status_wire(s: Option<Seq<char>>) -> Seq<char> {
    match s {
        Some(w) => if is_wire_status(w) {
            w
        } else {
            "todo"@
        },
        None => "todo"@,
    }
}

/// The draft a creation actually stores: the client's fields, with the
/// status forced to a valid word and sprint membership forced off.
pub open spec fn forced_create(d: DraftV) -> DraftV {
    DraftV {
        title: d.title,
        description: d.description,
        tags: d.tags,
        deadline: d.deadline,
        project: d.project,
        assignee: d.assignee,
        status: Some(forced_status_wire(d.status)),
        in_sprint: Some(false),
        notes: d.notes,
    }
}

/// The status a validated draft applies: the word's status, or the
/// default when the word is absent.
pub open spec fn applied_status(s: Option<Seq<char>>) -> Status {
    match s {
        Some(w) => status_of_wire(w),
        None => Status::Todo,
    }
}

/// The sprint flag a validated draft applies; off when absent.
pub open spec fn applied_sprint(b: Option<bool>) -> bool {
    match b {
        Some(x) => x,
        None => false,
    }
}

/// The row a validated draft stores under the given identity: tags as
/// their encoded JSON text, absent notes as the empty string.
pub open spec fn row_of_draft(id: u64, d: DraftV) -> RowV {
    RowV {
        id: id,
        title: d.title,
        description: d.description,
        tags_json: enc_tags(d.tags),
        deadline: d.deadline,
        project: d.project,
        assignee: d.assignee,
        status: applied_status(d.status),
        in_sprint: applied_sprint(d.in_sprint),
        notes: match d.notes {
            Some(n) => n,
            None => Seq::empty(),
        },
    }
}

/// The row a creation appends: the forced draft, under the store's next
/// task identity.
pub open spec fn created_row(s: StoreV, d: DraftV) -> RowV {
    row_of_draft(s.next_task_id, forced_create(d))
}

/// Lists every task, in identity order, as its wire form.
pub fn list_tasks(store: &Store) -> (r: Vec<Task>)
    requires
        store@.wf(),
    ensures
        r.deep_view().len() == store@.tasks.len(),
        forall|i: int|
            0 <= i < store@.tasks.len() ==> r.deep_view()[i] == task_of_row(
                #[trigger] store@.tasks[i],
            ),
{
    let mut out: Vec<Task> = Vec::new();
    let mut i: usize = 0;
    while i < store.tasks.len()
        invariant
            store@.wf(),
            0 <= i <= store@.tasks.len(),
            out.deep_view().len() == i,
            forall|m: int|
                0 <= m < i ==> out.deep_view()[m] == task_of_row(#[trigger] store@.tasks[m]),
        decreases store@.tasks.len() - i,
    {
        proof {
            assert(store.tasks@[i as int]@ == store@.tasks[i as int]);
            assert(tags_of_text(store@.tasks[i as int].tags_json) is Some);
        }
        let t = crate::store::row_to_task(&store.tasks[i]);
        out.push(t);
        i += 1;
    }
    out
}

/// Creates a task: the identity is store-assigned, the initial status is
/// the default unless the client named a valid one, and sprint
/// membership starts off whatever the client sent. The draft is
/// validated, then its project and assignee must exist; on success the
/// stored representation is returned.
pub fn create_task(store: &mut Store, d: Draft) -> (r: Result<Task, ApiError>)
    requires
        old(store)@.wf(),
        old(store)@.next_task_id < u64::MAX,
    ensures
        final(store)@.wf(),
        match r {
            Err(ApiError::Validation(e)) => {
                &&& first_violation(forced_create(d@)) == Some(e)
                &&& final(store)@ == old(store)@
            },
            Err(ApiError::UnknownProject) => {
                &&& first_violation(forced_create(d@)) is None
                &&& !has_project(old(store)@, d@.project)
                &&& final(store)@ == old(store)@
            },
            Err(ApiError::UnknownAssignee) => {
                &&& first_violation(forced_create(d@)) is None
                &&& has_project(old(store)@, d@.project)
                &&& !has_assignee(old(store)@, d@.assignee)
                &&& final(store)@ == old(store)@
            },
            Ok(t) => {
                &&& first_violation(forced_create(d@)) is None
                &&& has_project(old(store)@, d@.project)
                &&& has_assignee(old(store)@, d@.assignee)
                &&& t@ == task_of_row(created_row(old(store)@, d@))
                &&& final(store)@.tasks == old(store)@.tasks.push(created_row(old(store)@, d@))
                &&& final(store)@.projects == old(store)@.projects
                &&& final(store)@.assignees == old(store)@.assignees
                &&& final(store)@.next_task_id == old(store)@.next_task_id + 1
                &&& final(store)@.next_project_id == old(store)@.next_project_id
                &&& final(store)@.next_assignee_id == old(store)@.next_assignee_id
            },
            _ => false,
        },
{
    let ghost dv = d@;
    let ghost oldv = old(store)@;
    // Force the stored status word and compute its status.
    let (forced_word, st): (String, Status) = match &d.status {
        Some(w) => {
            match crate::status::parse_status(w.as_str()) {
                Some(x) => (w.clone(), x),
                None => (String::from_str("todo"), Status::Todo),
            }
        },
        None => (String::from_str("todo"), Status::Todo),
    };
    proof {
        reveal_strlit("todo");
        reveal_strlit("in_progress");
        reveal_strlit("done");
        reveal_strlit("blocked");
        assert("todo"@.len() == 4 && "in_progress"@.len() == 11 && "done"@.len() == 4
            && "blocked"@.len() == 7);
        assert("todo"@[0] == 't' && "done"@[0] == 'd');
        assert(is_wire_status("todo"@));
        assert(forced_word@ == forced_status_wire(dv.status));
        assert(st == status_of_wire(forced_word@));
    }
    let fd = Draft {
        title: d.title,
        description: d.description,
        tags: d.tags,
        deadline: d.deadline,
        project: d.project,
        assignee: d.assignee,
        status: Some(forced_word),
        in_sprint: Some(false),
        notes: d.notes,
    };
    proof {
        assert(fd@ =~= forced_create(dv));
    }
    match validate(&fd) {
        Some(e) => {
            return Err(ApiError::Validation(e));
        },
        None => {},
    }
    if !store.project_exists(fd.project.as_str()) {
        return Err(ApiError::UnknownProject);
    }
    if !store.assignee_exists(fd.assignee.as_str()) {
        return Err(ApiError::UnknownAssignee);
    }
    let id = store.next_task_id;
    let tags_json = crate::json::encode_tags(&fd.tags);
    let notes_stored: String = match &fd.notes {
        Some(n) => n.clone(),
        None => String::new(),
    };
    let row = Row {
        id,
        title: fd.title.clone(),
        description: fd.description.clone(),
        tags_json,
        deadline: clone_opt_string(&fd.deadline),
        project: fd.project.clone(),
        assignee: fd.assignee.clone(),
        status: st,
        in_sprint: false,
        notes: notes_stored.clone(),
    };
    let ghost rv = row@;
    proof {
        crate::json::lemma_tags_round_trip(fd@.tags);
        assert(rv =~= created_row(oldv, dv));
    }
    store.tasks.push(row);
    store.next_task_id = id + 1;
    proof {
        assert(store@.tasks =~= oldv.tasks.push(rv));
        assert(tasks_wf(store@.tasks, store@.next_task_id)) by {
            assert forall|i: int| 0 <= i < store@.tasks.len() implies 1 <= (
            #[trigger] store@.tasks[i]).id < store@.next_task_id by {
                if i < oldv.tasks.len() {
                    assert(oldv.tasks[i].id < oldv.next_task_id);
                }
            }
            assert forall|i: int, j: int|
                #![trigger store@.tasks[i].id, store@.tasks[j].id]
                0 <= i < j < store@.tasks.len() implies store@.tasks[i].id
                < store@.tasks[j].id by {
                if j < oldv.tasks.len() {
                    assert(oldv.tasks[i].id < oldv.tasks[j].id);
                } else {
                    assert(oldv.tasks[i].id < oldv.next_task_id);
                }
            }
            assert forall|i: int| 0 <= i < store@.tasks.len() implies tags_of_text((
            #[trigger] store@.tasks[i]).tags_json) is Some by {
                if i < oldv.tasks.len() {
                    assert(tags_of_text(oldv.tasks[i].tags_json) is Some);
                }
            }
        }
        assert(store@.wf());
    }
    let out_notes: Option<String> = if notes_stored.as_str().unicode_len() == 0 {
        None
    } else {
        Some(notes_stored)
    };
    let t = Task {
        id,
        title: fd.title,
        description: fd.description,
        tags: fd.tags,
        deadline: fd.deadline,
        project: fd.project,
        assignee: fd.assignee,
        status: st,
        in_sprint: false,
        notes: out_notes,
    };
    proof {
        assert(t@ =~= task_of_row(rv));
    }
    Ok(t)
}

/// The row with its status replaced.
pub open spec fn with_status(r: RowV, st: Status) -> RowV {
    RowV { status: st, ..r }
}

/// The row with its sprint flag replaced.
pub open spec fn with_sprint(r: RowV, f: bool) -> RowV {
    RowV { in_sprint: f, ..r }
}

/// Proves the invariant is kept when one row is replaced by another with
/// the same identity and readable tags text.
proof fn lemma_update_keeps_wf(tasks: Seq<RowV>, next: u64, i: int, nr: RowV)
    requires
        tasks_wf(tasks, next),
        0 <= i < tasks.len(),
        nr.id == tasks[i].id,
        tags_of_text(nr.tags_json) is Some,
    ensures
        tasks_wf(tasks.update(i, nr), next),
{
    let tv = tasks.update(i, nr);
    assert forall|m: int| 0 <= m < tv.len() implies 1 <= (#[trigger] tv[m]).id < next by {
        assert(1 <= tasks[m].id < next);
    }
    assert forall|m: int, n: int|
        #![trigger tv[m].id, tv[n].id]
        0 <= m < n < tv.len() implies tv[m].id < tv[n].id by {
        assert(tasks[m].id < tasks[n].id);
    }
    assert forall|m: int| 0 <= m < tv.len() implies tags_of_text(
        (#[trigger] tv[m]).tags_json,
    ) is Some by {
        if m != i {
            assert(tags_of_text(tasks[m].tags_json) is Some);
        }
    }
}

/// Replaces the row at `i` and hands back its wire task; the row keeps
/// its position and the rest of the table is untouched.
fn replace_row(store: &mut Store, i: usize, row: Row) -> (t: Task)
    requires
        old(store)@.wf(),
        i < old(store)@.tasks.len(),
        row@.id == old(store)@.tasks[i as int].id,
        tags_of_text(row@.tags_json) is Some,
    ensures
        final(store)@.wf(),
        final(store)@.tasks == old(store)@.tasks.update(i as int, row@),
        final(store)@.projects == old(store)@.projects,
        final(store)@.assignees == old(store)@.assignees,
        final(store)@.next_task_id == old(store)@.next_task_id,
        final(store)@.next_project_id == old(store)@.next_project_id,
        final(store)@.next_assignee_id == old(store)@.next_assignee_id,
        t@ == task_of_row(row@),
{
    let ghost oldv = old(store)@;
    let ghost rv = row@;
    let t = crate::store::row_to_task(&row);
    let _ = store.tasks.remove(i);
    store.tasks.insert(i, row);
    proof {
        assert(store@.tasks =~= oldv.tasks.update(i as int, rv));
        lemma_update_keeps_wf(oldv.tasks, oldv.next_task_id, i as int, rv);
        assert(store@ =~= StoreV { tasks: oldv.tasks.update(i as int, rv), ..oldv });
    }
    t
}

/// Replaces a task's status: the word must be one of the enumeration
/// (else a validation error and no change), the task must exist (else
/// not found); the refreshed full row is handed back.
pub fn update_status(store: &mut Store, id: u64, word: &str) -> (r: Result<Task, ApiError>)
    requires
        old(store)@.wf(),
    ensures
        final(store)@.wf(),
        match r {
            Err(ApiError::Validation(e)) => {
                &&& e == ValidationError::UnknownStatus
                &&& !is_wire_status(word@)
                &&& final(store)@ == old(store)@
            },
            Err(ApiError::TaskNotFound) => {
                &&& is_wire_status(word@)
                &&& !has_task(old(store)@.tasks, id)
                &&& final(store)@ == old(store)@
            },
            Ok(t) => {
                &&& is_wire_status(word@)
                &&& has_task(old(store)@.tasks, id)
                &&& ({
                    let i = task_idx(old(store)@.tasks, id);
                    let nr = with_status(old(store)@.tasks[i], status_of_wire(word@));
                    &&& final(store)@.tasks == old(store)@.tasks.update(i, nr)
                    &&& t@ == task_of_row(nr)
                })
                &&& final(store)@.projects == old(store)@.projects
                &&& final(store)@.assignees == old(store)@.assignees
                &&& final(store)@.next_task_id == old(store)@.next_task_id
                &&& final(store)@.next_project_id == old(store)@.next_project_id
                &&& final(store)@.next_assignee_id == old(store)@.next_assignee_id
            },
            _ => false,
        },
{
    let st = match crate::status::parse_status(word) {
        None => {
            return Err(ApiError::Validation(ValidationError::UnknownStatus));
        },
        Some(x) => x,
    };
    let i = match store.find_task(id) {
        None => {
            return Err(ApiError::TaskNotFound);
        },
        Some(i) => i,
    };
    let mut row = store.tasks[i].clone_row();
    row.status = st;
    let t = replace_row(store, i, row);
    Ok(t)
}

/// Replaces a task's sprint membership; the task must exist. The
/// refreshed full row is handed back.
pub fn update_sprint(store: &mut Store, id: u64, flag: bool) -> (r: Result<Task, ApiError>)
    requires
        old(store)@.wf(),
    ensures
        final(store)@.wf(),
        match r {
            Err(ApiError::TaskNotFound) => {
                &&& !has_task(old(store)@.tasks, id)
                &&& final(store)@ == old(store)@
            },
            Ok(t) => {
                &&& has_task(old(store)@.tasks, id)
                &&& ({
                    let i = task_idx(old(store)@.tasks, id);
                    let nr = with_sprint(old(store)@.tasks[i], flag);
                    &&& final(store)@.tasks == old(store)@.tasks.update(i, nr)
                    &&& t@ == task_of_row(nr)
                })
                &&& final(store)@.projects == old(store)@.projects
                &&& final(store)@.assignees == old(store)@.assignees
                &&& final(store)@.next_task_id == old(store)@.next_task_id
                &&& final(store)@.next_project_id == old(store)@.next_project_id
                &&& final(store)@.next_assignee_id == old(store)@.next_assignee_id
            },
            _ => false,
        },
{
    let i = match store.find_task(id) {
        None => {
            return Err(ApiError::TaskNotFound);
        },
        Some(i) => i,
    };
    let mut row = store.tasks[i].clone_row();
    row.in_sprint = flag;
    let t = replace_row(store, i, row);
    Ok(t)
}

/// Replaces every mutable field of a task by the incoming draft, under
/// the path-supplied identity: the draft is validated (the client may
/// now set status and sprint membership), its project and assignee must
/// exist, and the task must exist.
pub fn update_task(store: &mut Store, id: u64, d: Draft) -> (r: Result<Task, ApiError>)
    requires
        old(store)@.wf(),
    ensures
        final(store)@.wf(),
        match r {
            Err(ApiError::Validation(e)) => {
                &&& first_violation(d@) == Some(e)
                &&& final(store)@ == old(store)@
            },
            Err(ApiError::UnknownProject) => {
                &&& first_violation(d@) is None
                &&& !has_project(old(store)@, d@.project)
                &&& final(store)@ == old(store)@
            },
            Err(ApiError::UnknownAssignee) => {
                &&& first_violation(d@) is None
                &&& has_project(old(store)@, d@.project)
                &&& !has_assignee(old(store)@, d@.assignee)
                &&& final(store)@ == old(store)@
            },
            Err(ApiError::TaskNotFound) => {
                &&& first_violation(d@) is None
                &&& has_project(old(store)@, d@.project)
                &&& has_assignee(old(store)@, d@.assignee)
                &&& !has_task(old(store)@.tasks, id)
                &&& final(store)@ == old(store)@
            },
            Ok(t) => {
                &&& first_violation(d@) is None
                &&& has_project(old(store)@, d@.project)
                &&& has_assignee(old(store)@, d@.assignee)
                &&& has_task(old(store)@.tasks, id)
                &&& ({
                    let i = task_idx(old(store)@.tasks, id);
                    let nr = row_of_draft(id, d@);
                    &&& final(store)@.tasks == old(store)@.tasks.update(i, nr)
                    &&& t@ == task_of_row(nr)
                })
                &&& final(store)@.projects == old(store)@.projects
                &&& final(store)@.assignees == old(store)@.assignees
                &&& final(store)@.next_task_id == old(store)@.next_task_id
                &&& final(store)@.next_project_id == old(store)@.next_project_id
                &&& final(store)@.next_assignee_id == old(store)@.next_assignee_id
            },
            _ => false,
        },
{
    let ghost dv = d@;
    match validate(&d) {
        Some(e) => {
            return Err(ApiError::Validation(e));
        },
        None => {},
    }
    if !store.project_exists(d.project.as_str()) {
        return Err(ApiError::UnknownProject);
    }
    if !store.assignee_exists(d.assignee.as_str()) {
        return Err(ApiError::UnknownAssignee);
    }
    let i = match store.find_task(id) {
        None => {
            return Err(ApiError::TaskNotFound);
        },
        Some(i) => i,
    };
    let st: Status = match &d.status {
        Some(w) => {
            match crate::status::parse_status(w.as_str()) {
                Some(x) => x,
                None => vstd::pervasive::unreached(),
            }
        },
        None => Status::Todo,
    };
    proof {
        assert(st == applied_status(dv.status));
    }
    let flag: bool = match &d.in_sprint {
        Some(f) => *f,
        None => false,
    };
    let tags_json = crate::json::encode_tags(&d.tags);
    let notes_stored: String = match &d.notes {
        Some(n) => n.clone(),
        None => String::new(),
    };
    let row = Row {
        id,
        title: d.title,
        description: d.description,
        tags_json,
        deadline: d.deadline,
        project: d.project,
        assignee: d.assignee,
        status: st,
        in_sprint: flag,
        notes: notes_stored,
    };
    proof {
        crate::json::lemma_tags_round_trip(dv.tags);
        assert(row@ =~= row_of_draft(id, dv));
    }
    let t = replace_row(store, i, row);
    Ok(t)
}

/// Removes a task by identity; nothing is handed back on success.
pub fn delete_task(store: &mut Store, id: u64) -> (r: Result<(), ApiError>)
    requires
        old(store)@.wf(),
    ensures
        final(store)@.wf(),
        match r {
            Err(ApiError::TaskNotFound) => {
                &&& !has_task(old(store)@.tasks, id)
                &&& final(store)@ == old(store)@
            },
            Ok(_) => {
                &&& has_task(old(store)@.tasks, id)
                &&& final(store)@.tasks == old(store)@.tasks.remove(
                    task_idx(old(store)@.tasks, id),
                )
                &&& final(store)@.projects == old(store)@.projects
                &&& final(store)@.assignees == old(store)@.assignees
                &&& final(store)@.next_task_id == old(store)@.next_task_id
                &&& final(store)@.next_project_id == old(store)@.next_project_id
                &&& final(store)@.next_assignee_id == old(store)@.next_assignee_id
            },
            _ => false,
        },
{
    let ghost oldv = old(store)@;
    let i = match store.find_task(id) {
        None => {
            return Err(ApiError::TaskNotFound);
        },
        Some(i) => i,
    };
    let _ = store.tasks.remove(i);
    proof {
        let tv = store@.tasks;
        assert(tv =~= oldv.tasks.remove(i as int));
        assert forall|m: int| 0 <= m < tv.len() implies 1 <= (#[trigger] tv[m]).id
            < store@.next_task_id by {
            if m < i {
                assert(1 <= oldv.tasks[m].id < oldv.next_task_id);
            } else {
                assert(1 <= oldv.tasks[m + 1].id < oldv.next_task_id);
            }
        }
        assert forall|m: int, n: int|
            #![trigger tv[m].id, tv[n].id]
            0 <= m < n < tv.len() implies tv[m].id < tv[n].id by {
            let m2: int = if m < i {
                m
            } else {
                m + 1
            };
            let n2: int = if n < i {
                n
            } else {
                n + 1
            };
            assert(oldv.tasks[m2].id < oldv.tasks[n2].id);
        }
        assert forall|m: int| 0 <= m < tv.len() implies tags_of_text(
            (#[trigger] tv[m]).tags_json,
        ) is Some by {
            if m < i {
                assert(tags_of_text(oldv.tasks[m].tags_json) is Some);
            } else {
                assert(tags_of_text(oldv.tasks[m + 1].tags_json) is Some);
            }
        }
        assert(store@ =~= StoreV { tasks: oldv.tasks.remove(i as int), ..oldv });
    }
    Ok(())
}

/// The position in the name-sorted project table where a row of this
/// name belongs: the first index whose name does not precede it.
pub open spec fn project_pos(ps: Seq<ProjectV>, name: Seq<char>) -> int
    decreases ps.len(),
{
    if ps.len() == 0 {
        0
    } else if !lex_lt(ps[0].name, name) {
        0
    } else {
        1 + project_pos(ps.drop_first(), name)
    }
}

/// The position in the name-sorted assignee table where a row of this
/// name belongs.
pub open spec fn assignee_pos(ps: Seq<AssigneeV>, name: Seq<char>) -> int
    decreases ps.len(),
{
    if ps.len() == 0 {
        0
    } else if !lex_lt(ps[0].name, name) {
        0
    } else {
        1 + assignee_pos(ps.drop_first(), name)
    }
}

/// A scan that stopped at the first name not preceding `name` found
/// `project_pos`.
proof fn lemma_project_pos_from_scan(ps: Seq<ProjectV>, name: Seq<char>, i: int)
    requires
        0 <= i <= ps.len(),
        forall|m: int| 0 <= m < i ==> lex_lt((#[trigger] ps[m]).name, name),
        i < ps.len() ==> !lex_lt(ps[i].name, name),
    ensures
        project_pos(ps, name) == i,
    decreases ps.len(),
{
    if ps.len() == 0 {
    } else if i == 0 {
    } else {
        assert(lex_lt(ps[0].name, name));
        assert(forall|m: int|
            0 <= m < i - 1 ==> lex_lt((#[trigger] ps.drop_first()[m]).name, name)) by {
            assert(forall|m: int|
                0 <= m < i - 1 ==> (#[trigger] ps.drop_first()[m]) == ps[m + 1]);
        }
        assert(i - 1 < ps.drop_first().len() ==> !lex_lt(ps.drop_first()[i - 1].name, name));
        lemma_project_pos_from_scan(ps.drop_first(), name, i - 1);
    }
}

/// A scan that stopped at the first name not preceding `name` found
/// `assignee_pos`.
proof fn lemma_assignee_pos_from_scan(ps: Seq<AssigneeV>, name: Seq<char>, i: int)
    requires
        0 <= i <= ps.len(),
        forall|m: int| 0 <= m < i ==> lex_lt((#[trigger] ps[m]).name, name),
        i < ps.len() ==> !lex_lt(ps[i].name, name),
    ensures
        assignee_pos(ps, name) == i,
    decreases ps.len(),
{
    if ps.len() == 0 {
    } else if i == 0 {
    } else {
        assert(lex_lt(ps[0].name, name));
        assert(forall|m: int|
            0 <= m < i - 1 ==> lex_lt((#[trigger] ps.drop_first()[m]).name, name)) by {
            assert(forall|m: int|
                0 <= m < i - 1 ==> (#[trigger] ps.drop_first()[m]) == ps[m + 1]);
        }
        assert(i - 1 < ps.drop_first().len() ==> !lex_lt(ps.drop_first()[i - 1].name, name));
        lemma_assignee_pos_from_scan(ps.drop_first(), name, i - 1);
    }
}

/// Lists every project, in name order.
pub fn list_projects(store: &Store) -> (r: Vec<Project>)
    ensures
        r.deep_view() == store@.projects,
{
    let mut out: Vec<Project> = Vec::new();
    let mut i: usize = 0;
    while i < store.projects.len()
        invariant
            0 <= i <= store@.projects.len(),
            out.deep_view().len() == i,
            forall|m: int| 0 <= m < i ==> out.deep_view()[m] == #[trigger] store@.projects[m],
        decreases store@.projects.len() - i,
    {
        out.push(Project { id: store.projects[i].id, name: store.projects[i].name.clone() });
        i += 1;
    }
    proof {
        assert(out.deep_view() =~= store@.projects);
    }
    out
}

/// Lists every assignee, in name order.
pub fn list_assignees(store: &Store) -> (r: Vec<Assignee>)
    ensures
        r.deep_view() == store@.assignees,
{
    let mut out: Vec<Assignee> = Vec::new();
    let mut i: usize = 0;
    while i < store.assignees.len()
        invariant
            0 <= i <= store@.assignees.len(),
            out.deep_view().len() == i,
            forall|m: int| 0 <= m < i ==> out.deep_view()[m] == #[trigger] store@.assignees[m],
        decreases store@.assignees.len() - i,
    {
        out.push(Assignee { id: store.assignees[i].id, name: store.assignees[i].name.clone() });
        i += 1;
    }
    proof {
        assert(out.deep_view() =~= store@.assignees);
    }
    out
}

/// Puts a project row of this name — which must be absent — at its
/// place in name order, under the next identity.
fn insert_project_row(store: &mut Store, name: String)
    requires
        old(store)@.wf(),
        !has_project(old(store)@, name@),
        old(store)@.next_project_id < u64::MAX,
    ensures
        final(store)@.wf(),
        0 <= project_pos(old(store)@.projects, name@) <= old(store)@.projects.len(),
        final(store)@.projects == old(store)@.projects.insert(
            project_pos(old(store)@.projects, name@),
            ProjectV { id: old(store)@.next_project_id, name: name@ },
        ),
        final(store)@.tasks == old(store)@.tasks,
        final(store)@.assignees == old(store)@.assignees,
        final(store)@.next_task_id == old(store)@.next_task_id,
        final(store)@.next_project_id == old(store)@.next_project_id + 1,
        final(store)@.next_assignee_id == old(store)@.next_assignee_id,
        has_project(final(store)@, name@),
        forall|n: Seq<char>| has_project(old(store)@, n) ==> has_project(final(store)@, n),
{
    let ghost oldv = old(store)@;
    let id = store.next_project_id;
    let mut i: usize = 0;
    while i < store.projects.len()
        invariant
            oldv == store@,
            0 <= i <= store@.projects.len(),
            name@ == name@,
            forall|m: int| 0 <= m < i ==> lex_lt((#[trigger] store@.projects[m]).name, name@),
        ensures
            oldv == store@,
            0 <= i <= store@.projects.len(),
            forall|m: int| 0 <= m < i ==> lex_lt((#[trigger] store@.projects[m]).name, name@),
            i < store@.projects.len() ==> !lex_lt(store@.projects[i as int].name, name@),
        decreases store@.projects.len() - i,
    {
        if !crate::text::str_lt(store.projects[i].name.as_str(), name.as_str()) {
            break;
        }
        i += 1;
    }
    proof {
        assert forall|m: int| i <= m < oldv.projects.len() implies lex_lt(
            name@,
            (#[trigger] oldv.projects[m]).name,
        ) by {
            if !lex_lt(name@, oldv.projects[i as int].name) {
                lemma_lex_lt_total(oldv.projects[i as int].name, name@);
                assert(oldv.projects[i as int].name == name@);
                assert(has_project(oldv, name@));
            }
            if m > i {
                assert(lex_lt(oldv.projects[i as int].name, oldv.projects[m].name));
                lemma_lex_lt_trans(name@, oldv.projects[i as int].name, oldv.projects[m].name);
            }
        }
    }
    store.projects.insert(i, Project { id, name: name });
    store.next_project_id = id + 1;
    proof {
        let ghost pv = ProjectV { id: oldv.next_project_id, name: name@ };
        let pn = store@.projects;
        assert(pn =~= oldv.projects.insert(i as int, pv));
        assert forall|m: int| 0 <= m < pn.len() implies 1 <= (#[trigger] pn[m]).id
            < store@.next_project_id by {
            if m < i {
                assert(1 <= oldv.projects[m].id < oldv.next_project_id);
            } else if m > i {
                assert(1 <= oldv.projects[m - 1].id < oldv.next_project_id);
            }
        }
        assert forall|m: int, n: int|
            #![trigger pn[m].id, pn[n].id]
            0 <= m < n < pn.len() implies pn[m].id != pn[n].id by {
            if m != i && n != i {
                let m2: int = if m < i {
                    m
                } else {
                    m - 1
                };
                let n2: int = if n < i {
                    n
                } else {
                    n - 1
                };
                assert(oldv.projects[m2].id != oldv.projects[n2].id);
            } else if m == i {
                assert(oldv.projects[n - 1].id < oldv.next_project_id);
            } else {
                assert(oldv.projects[m].id < oldv.next_project_id);
            }
        }
        assert forall|m: int, n: int|
            #![trigger pn[m].name, pn[n].name]
            0 <= m < n < pn.len() implies lex_lt(pn[m].name, pn[n].name) by {
            if m != i && n != i {
                let m2: int = if m < i {
                    m
                } else {
                    m - 1
                };
                let n2: int = if n < i {
                    n
                } else {
                    n - 1
                };
                assert(lex_lt(oldv.projects[m2].name, oldv.projects[n2].name));
            } else if m == i {
                assert(lex_lt(name@, oldv.projects[n - 1].name));
            } else {
                assert(lex_lt(oldv.projects[m].name, name@));
            }
        }
        assert(store@ =~= StoreV {
            projects: oldv.projects.insert(i as int, pv),
            next_project_id: (oldv.next_project_id + 1) as u64,
            ..oldv
        });
        lemma_project_pos_from_scan(oldv.projects, name@, i as int);
        assert(store@.projects[i as int].name == name@);
        assert(has_project(store@, name@));
        assert forall|n: Seq<char>| has_project(oldv, n) implies has_project(store@, n) by {
            let j = choose|j: int| 0 <= j < oldv.projects.len() && (#[trigger] oldv.projects[j]).name
                == n;
            let j2: int = if j < i {
                j
            } else {
                j + 1
            };
            assert(store@.projects[j2].name == n);
        }
    }
}

/// Creates a project: the name is trimmed; an empty name and a name
/// already present are refused; the row gets the next identity and its
/// place in name order.
#[verifier::rlimit(100)]
pub fn create_project(store: &mut Store, name: &str) -> (r: Result<Project, ApiError>)
    requires
        old(store)@.wf(),
        old(store)@.next_project_id < u64::MAX,
    ensures
        final(store)@.wf(),
        match r {
            Err(ApiError::EmptyName) => {
                &&& is_blank(name@)
                &&& final(store)@ == old(store)@
            },
            Err(ApiError::DuplicateProject) => {
                &&& !is_blank(name@)
                &&& has_project(old(store)@, trimmed(name@))
                &&& final(store)@ == old(store)@
            },
            Ok(p) => {
                &&& !is_blank(name@)
                &&& !has_project(old(store)@, trimmed(name@))
                &&& p@ == (ProjectV { id: old(store)@.next_project_id, name: trimmed(name@) })
                &&& 0 <= project_pos(old(store)@.projects, trimmed(name@)) <= old(
                    store,
                )@.projects.len()
                &&& final(store)@.projects == old(store)@.projects.insert(
                    project_pos(old(store)@.projects, trimmed(name@)),
                    p@,
                )
                &&& final(store)@.tasks == old(store)@.tasks
                &&& final(store)@.assignees == old(store)@.assignees
                &&& final(store)@.next_task_id == old(store)@.next_task_id
                &&& final(store)@.next_project_id == old(store)@.next_project_id + 1
                &&& final(store)@.next_assignee_id == old(store)@.next_assignee_id
            },
            _ => false,
        },
{
    let ghost oldv = old(store)@;
    if crate::text::blank(name) {
        return Err(ApiError::EmptyName);
    }
    let tname = crate::text::trim(name);
    if store.project_exists(tname.as_str()) {
        return Err(ApiError::DuplicateProject);
    }
    let id = store.next_project_id;
    let p = Project { id, name: tname.clone() };
    proof {
        assert(tname@ == trimmed(name@));
    }
    insert_project_row(store, tname);
    Ok(p)
}

/// Puts an assignee row of this name — which must be absent — at its
/// place in name order, under the next identity.
fn insert_assignee_row(store: &mut Store, name: String)
    requires
        old(store)@.wf(),
        !has_assignee(old(store)@, name@),
        old(store)@.next_assignee_id < u64::MAX,
    ensures
        final(store)@.wf(),
        0 <= assignee_pos(old(store)@.assignees, name@) <= old(store)@.assignees.len(),
        final(store)@.assignees == old(store)@.assignees.insert(
            assignee_pos(old(store)@.assignees, name@),
            AssigneeV { id: old(store)@.next_assignee_id, name: name@ },
        ),
        final(store)@.tasks == old(store)@.tasks,
        final(store)@.projects == old(store)@.projects,
        final(store)@.next_task_id == old(store)@.next_task_id,
        final(store)@.next_project_id == old(store)@.next_project_id,
        final(store)@.next_assignee_id == old(store)@.next_assignee_id + 1,
        has_assignee(final(store)@, name@),
        forall|n: Seq<char>| has_assignee(old(store)@, n) ==> has_assignee(final(store)@, n),
{
    let ghost oldv = old(store)@;
    let id = store.next_assignee_id;
    let mut i: usize = 0;
    while i < store.assignees.len()
        invariant
            oldv == store@,
            0 <= i <= store@.assignees.len(),
            name@ == name@,
            forall|m: int| 0 <= m < i ==> lex_lt((#[trigger] store@.assignees[m]).name, name@),
        ensures
            oldv == store@,
            0 <= i <= store@.assignees.len(),
            forall|m: int| 0 <= m < i ==> lex_lt((#[trigger] store@.assignees[m]).name, name@),
            i < store@.assignees.len() ==> !lex_lt(store@.assignees[i as int].name, name@),
        decreases store@.assignees.len() - i,
    {
        if !crate::text::str_lt(store.assignees[i].name.as_str(), name.as_str()) {
            break;
        }
        i += 1;
    }
    proof {
        assert forall|m: int| i <= m < oldv.assignees.len() implies lex_lt(
            name@,
            (#[trigger] oldv.assignees[m]).name,
        ) by {
            if !lex_lt(name@, oldv.assignees[i as int].name) {
                lemma_lex_lt_total(oldv.assignees[i as int].name, name@);
                assert(oldv.assignees[i as int].name == name@);
                assert(has_assignee(oldv, name@));
            }
            if m > i {
                assert(lex_lt(oldv.assignees[i as int].name, oldv.assignees[m].name));
                lemma_lex_lt_trans(name@, oldv.assignees[i as int].name, oldv.assignees[m].name);
            }
        }
    }
    store.assignees.insert(i, Assignee { id, name: name });
    store.next_assignee_id = id + 1;
    proof {
        let ghost pv = AssigneeV { id: oldv.next_assignee_id, name: name@ };
        let pn = store@.assignees;
        assert(pn =~= oldv.assignees.insert(i as int, pv));
        assert forall|m: int| 0 <= m < pn.len() implies 1 <= (#[trigger] pn[m]).id
            < store@.next_assignee_id by {
            if m < i {
                assert(1 <= oldv.assignees[m].id < oldv.next_assignee_id);
            } else if m > i {
                assert(1 <= oldv.assignees[m - 1].id < oldv.next_assignee_id);
            }
        }
        assert forall|m: int, n: int|
            #![trigger pn[m].id, pn[n].id]
            0 <= m < n < pn.len() implies pn[m].id != pn[n].id by {
            if m != i && n != i {
                let m2: int = if m < i {
                    m
                } else {
                    m - 1
                };
                let n2: int = if n < i {
                    n
                } else {
                    n - 1
                };
                assert(oldv.assignees[m2].id != oldv.assignees[n2].id);
            } else if m == i {
                assert(oldv.assignees[n - 1].id < oldv.next_assignee_id);
            } else {
                assert(oldv.assignees[m].id < oldv.next_assignee_id);
            }
        }
        assert forall|m: int, n: int|
            #![trigger pn[m].name, pn[n].name]
            0 <= m < n < pn.len() implies lex_lt(pn[m].name, pn[n].name) by {
            if m != i && n != i {
                let m2: int = if m < i {
                    m
                } else {
                    m - 1
                };
                let n2: int = if n < i {
                    n
                } else {
                    n - 1
                };
                assert(lex_lt(oldv.assignees[m2].name, oldv.assignees[n2].name));
            } else if m == i {
                assert(lex_lt(name@, oldv.assignees[n - 1].name));
            } else {
                assert(lex_lt(oldv.assignees[m].name, name@));
            }
        }
        assert(store@ =~= StoreV {
            assignees: oldv.assignees.insert(i as int, pv),
            next_assignee_id: (oldv.next_assignee_id + 1) as u64,
            ..oldv
        });
        lemma_assignee_pos_from_scan(oldv.assignees, name@, i as int);
        assert(store@.assignees[i as int].name == name@);
        assert(has_assignee(store@, name@));
        assert forall|n: Seq<char>| has_assignee(oldv, n) implies has_assignee(store@, n) by {
            let j = choose|j: int| 0 <= j < oldv.assignees.len() && (
            #[trigger] oldv.assignees[j]).name == n;
            let j2: int = if j < i {
                j
            } else {
                j + 1
            };
            assert(store@.assignees[j2].name == n);
        }
    }
}

/// Creates an assignee: the name is trimmed; an empty name and a name
/// already present are refused; the row gets the next identity and its
/// place in name order.
#[verifier::rlimit(100)]
pub fn create_assignee(store: &mut Store, name: &str) -> (r: Result<Assignee, ApiError>)
    requires
        old(store)@.wf(),
        old(store)@.next_assignee_id < u64::MAX,
    ensures
        final(store)@.wf(),
        match r {
            Err(ApiError::EmptyName) => {
                &&& is_blank(name@)
                &&& final(store)@ == old(store)@
            },
            Err(ApiError::DuplicateAssignee) => {
                &&& !is_blank(name@)
                &&& has_assignee(old(store)@, trimmed(name@))
                &&& final(store)@ == old(store)@
            },
            Ok(p) => {
                &&& !is_blank(name@)
                &&& !has_assignee(old(store)@, trimmed(name@))
                &&& p@ == (AssigneeV { id: old(store)@.next_assignee_id, name: trimmed(name@) })
                &&& 0 <= assignee_pos(old(store)@.assignees, trimmed(name@)) <= old(
                    store,
                )@.assignees.len()
                &&& final(store)@.assignees == old(store)@.assignees.insert(
                    assignee_pos(old(store)@.assignees, trimmed(name@)),
                    p@,
                )
                &&& final(store)@.tasks == old(store)@.tasks
                &&& final(store)@.projects == old(store)@.projects
                &&& final(store)@.next_task_id == old(store)@.next_task_id
                &&& final(store)@.next_project_id == old(store)@.next_project_id
                &&& final(store)@.next_assignee_id == old(store)@.next_assignee_id + 1
            },
            _ => false,
        },
{
    let ghost oldv = old(store)@;
    if crate::text::blank(name) {
        return Err(ApiError::EmptyName);
    }
    let tname = crate::text::trim(name);
    if store.assignee_exists(tname.as_str()) {
        return Err(ApiError::DuplicateAssignee);
    }
    let id = store.next_assignee_id;
    let p = Assignee { id, name: tname.clone() };
    proof {
        assert(tname@ == trimmed(name@));
    }
    insert_assignee_row(store, tname);
    Ok(p)
}

/// Deletes a project by identity. Identity 1 — the reserved default —
/// is always refused, whatever the store holds.
pub fn delete_project(store: &mut Store, id: u64) -> (r: Result<(), ApiError>)
    requires
        old(store)@.wf(),
    ensures
        final(store)@.wf(),
        match r {
            Err(ApiError::ReservedProject) => {
                &&& id == 1
                &&& final(store)@ == old(store)@
            },
            Err(ApiError::ProjectNotFound) => {
                &&& id != 1
                &&& !has_project_id(old(store)@, id)
                &&& final(store)@ == old(store)@
            },
            Ok(_) => {
                &&& id != 1
                &&& has_project_id(old(store)@, id)
                &&& final(store)@.projects == old(store)@.projects.remove(
                    project_idx(old(store)@, id),
                )
                &&& final(store)@.tasks == old(store)@.tasks
                &&& final(store)@.assignees == old(store)@.assignees
                &&& final(store)@.next_task_id == old(store)@.next_task_id
                &&& final(store)@.next_project_id == old(store)@.next_project_id
                &&& final(store)@.next_assignee_id == old(store)@.next_assignee_id
            },
            _ => false,
        },
{
    let ghost oldv = old(store)@;
    if id == 1 {
        return Err(ApiError::ReservedProject);
    }
    let i = match store.find_project(id) {
        None => {
            return Err(ApiError::ProjectNotFound);
        },
        Some(i) => i,
    };
    let _ = store.projects.remove(i);
    proof {
        let pn = store@.projects;
        assert(pn =~= oldv.projects.remove(i as int));
        assert forall|m: int| 0 <= m < pn.len() implies 1 <= (#[trigger] pn[m]).id
            < store@.next_project_id by {
            let m2: int = if m < i {
                m
            } else {
                m + 1
            };
            assert(1 <= oldv.projects[m2].id < oldv.next_project_id);
        }
        assert forall|m: int, n: int|
            #![trigger pn[m].id, pn[n].id]
            0 <= m < n < pn.len() implies pn[m].id != pn[n].id by {
            let m2: int = if m < i {
                m
            } else {
                m + 1
            };
            let n2: int = if n < i {
                n
            } else {
                n + 1
            };
            assert(oldv.projects[m2].id != oldv.projects[n2].id);
        }
        assert forall|m: int, n: int|
            #![trigger pn[m].name, pn[n].name]
            0 <= m < n < pn.len() implies lex_lt(pn[m].name, pn[n].name) by {
            let m2: int = if m < i {
                m
            } else {
                m + 1
            };
            let n2: int = if n < i {
                n
            } else {
                n + 1
            };
            assert(lex_lt(oldv.projects[m2].name, oldv.projects[n2].name));
        }
        assert(store@ =~= StoreV { projects: oldv.projects.remove(i as int), ..oldv });
    }
    Ok(())
}

/// Deletes an assignee by identity. Identity 1 — the reserved default —
/// is always refused, whatever the store holds.
pub fn delete_assignee(store: &mut Store, id: u64) -> (r: Result<(), ApiError>)
    requires
        old(store)@.wf(),
    ensures
        final(store)@.wf(),
        match r {
            Err(ApiError::ReservedAssignee) => {
                &&& id == 1
                &&& final(store)@ == old(store)@
            },
            Err(ApiError::AssigneeNotFound) => {
                &&& id != 1
                &&& !has_assignee_id(old(store)@, id)
                &&& final(store)@ == old(store)@
            },
            Ok(_) => {
                &&& id != 1
                &&& has_assignee_id(old(store)@, id)
                &&& final(store)@.assignees == old(store)@.assignees.remove(
                    assignee_idx(old(store)@, id),
                )
                &&& final(store)@.tasks == old(store)@.tasks
                &&& final(store)@.projects == old(store)@.projects
                &&& final(store)@.next_task_id == old(store)@.next_task_id
                &&& final(store)@.next_project_id == old(store)@.next_project_id
                &&& final(store)@.next_assignee_id == old(store)@.next_assignee_id
            },
            _ => false,
        },
{
    let ghost oldv = old(store)@;
    if id == 1 {
        return Err(ApiError::ReservedAssignee);
    }
    let i = match store.find_assignee(id) {
        None => {
            return Err(ApiError::AssigneeNotFound);
        },
        Some(i) => i,
    };
    let _ = store.assignees.remove(i);
    proof {
        let pn = store@.assignees;
        assert(pn =~= oldv.assignees.remove(i as int));
        assert forall|m: int| 0 <= m < pn.len() implies 1 <= (#[trigger] pn[m]).id
            < store@.next_assignee_id by {
            let m2: int = if m < i {
                m
            } else {
                m + 1
            };
            assert(1 <= oldv.assignees[m2].id < oldv.next_assignee_id);
        }
        assert forall|m: int, n: int|
            #![trigger pn[m].id, pn[n].id]
            0 <= m < n < pn.len() implies pn[m].id != pn[n].id by {
            let m2: int = if m < i {
                m
            } else {
                m + 1
            };
            let n2: int = if n < i {
                n
            } else {
                n + 1
            };
            assert(oldv.assignees[m2].id != oldv.assignees[n2].id);
        }
        assert forall|m: int, n: int|
            #![trigger pn[m].name, pn[n].name]
            0 <= m < n < pn.len() implies lex_lt(pn[m].name, pn[n].name) by {
            let m2: int = if m < i {
                m
            } else {
                m + 1
            };
            let n2: int = if n < i {
                n
            } else {
                n + 1
            };
            assert(lex_lt(oldv.assignees[m2].name, oldv.assignees[n2].name));
        }
        assert(store@ =~= StoreV { assignees: oldv.assignees.remove(i as int), ..oldv });
    }
    Ok(())
}

/// The startup backfill: any project or assignee name that a stored
/// task row holds and the lookup tables lack is created, so that legacy
/// rows from an earlier run reference existing lookup rows; seeded and
/// created rows all stay.
pub fn backfill_lookups(store: &mut Store)
    requires
        old(store)@.wf(),
        old(store)@.next_project_id + old(store)@.tasks.len() < u64::MAX,
        old(store)@.next_assignee_id + old(store)@.tasks.len() < u64::MAX,
    ensures
        final(store)@.wf(),
        final(store)@.tasks == old(store)@.tasks,
        final(store)@.next_task_id == old(store)@.next_task_id,
        forall|i: int|
            0 <= i < final(store)@.tasks.len() ==> has_project(
                final(store)@,
                (#[trigger] final(store)@.tasks[i]).project,
            ) && has_assignee(final(store)@, final(store)@.tasks[i].assignee),
        forall|n: Seq<char>| has_project(old(store)@, n) ==> has_project(final(store)@, n),
        forall|n: Seq<char>| has_assignee(old(store)@, n) ==> has_assignee(final(store)@, n),
{
    let ghost oldv = old(store)@;
    let mut k: usize = 0;
    let total = store.tasks.len();
    while k < total
        invariant
            store@.wf(),
            total == oldv.tasks.len(),
            0 <= k <= total,
            store@.tasks == oldv.tasks,
            store@.next_task_id == oldv.next_task_id,
            store@.next_project_id <= oldv.next_project_id + k,
            store@.next_assignee_id <= oldv.next_assignee_id + k,
            oldv.next_project_id + oldv.tasks.len() < u64::MAX,
            oldv.next_assignee_id + oldv.tasks.len() < u64::MAX,
            forall|m: int|
                0 <= m < k ==> has_project(store@, (#[trigger] store@.tasks[m]).project)
                    && has_assignee(store@, store@.tasks[m].assignee),
            forall|n: Seq<char>| has_project(oldv, n) ==> has_project(store@, n),
            forall|n: Seq<char>| has_assignee(oldv, n) ==> has_assignee(store@, n),
        decreases total - k,
    {
        let pname = store.tasks[k].project.clone();
        let aname = store.tasks[k].assignee.clone();
        proof {
            assert(pname@ == store@.tasks[k as int].project);
            assert(aname@ == store@.tasks[k as int].assignee);
        }
        if !store.project_exists(pname.as_str()) {
            insert_project_row(store, pname);
        }
        if !store.assignee_exists(aname.as_str()) {
            insert_assignee_row(store, aname);
        }
        k += 1;
    }
}

/// A copy of an optional string.
fn clone_opt_string(s: &Option<String>) -> (r: Option<String>)
    ensures
        r.deep_view() == s.deep_view(),
{
    match s {
        Some(x) => Some(x.clone()),
        None => None,
    }
}


} // verus!
