use tasktrack::api::{
    create_assignee, create_project, create_task, delete_assignee, delete_project, delete_task,
    list_assignees, list_projects, list_tasks, update_sprint, update_status, update_task,
    backfill_lookups, ApiError,
};
use tasktrack::model::{Draft, Row};
use tasktrack::status::Status;
use tasktrack::store::Store;

fn draft(title: &str, project: &str, assignee: &str) -> Draft {
    Draft {
        title: String::from(title),
        description: String::new(),
        tags: Vec::new(),
        deadline: None,
        project: String::from(project),
        assignee: String::from(assignee),
        status: None,
        in_sprint: None,
        notes: None,
    }
}

#[test]
fn created_ids_are_positive_and_increasing() {
    let mut store = Store::new();
    let a = create_task(&mut store, draft("first", "General", "Unassigned")).unwrap();
    let b = create_task(&mut store, draft("second", "General", "Unassigned")).unwrap();
    let c = create_task(&mut store, draft("third", "General", "Unassigned")).unwrap();
    assert!(a.id >= 1);
    assert!(a.id < b.id);
    assert!(b.id < c.id);
}

#[test]
fn long_title_is_rejected_and_nothing_stored() {
    let mut store = Store::new();
    let mut d = draft("x", "General", "Unassigned");
    d.title = "t".repeat(501);
    let r = create_task(&mut store, d);
    match r {
        Err(ApiError::Validation(e)) => {
            assert_eq!(ApiError::Validation(e).http_status(), 400);
        }
        _ => panic!("expected a validation error"),
    }
    assert_eq!(list_tasks(&store).len(), 0);
}

#[test]
fn title_at_limit_is_accepted() {
    let mut store = Store::new();
    let mut d = draft("x", "General", "Unassigned");
    d.title = "t".repeat(500);
    assert!(create_task(&mut store, d).is_ok());
}

#[test]
fn unknown_project_is_a_reference_error() {
    let mut store = Store::new();
    let r = create_task(&mut store, draft("ok title", "Nonexistent", "Unassigned"));
    match r {
        Err(e @ ApiError::UnknownProject) => {
            assert_eq!(e.http_status(), 400);
            assert_eq!(e.message(), "project does not exist");
        }
        _ => panic!("expected an unknown-project error"),
    }
    assert_eq!(list_tasks(&store).len(), 0);
}

#[test]
fn unknown_assignee_is_a_reference_error() {
    let mut store = Store::new();
    let r = create_task(&mut store, draft("ok title", "General", "Nobody"));
    assert!(matches!(r, Err(ApiError::UnknownAssignee)));
}

#[test]
fn invalid_status_update_leaves_status_unchanged() {
    let mut store = Store::new();
    let t = create_task(&mut store, draft("task", "General", "Unassigned")).unwrap();
    let r = update_status(&mut store, t.id, "finished");
    match r {
        Err(e @ ApiError::Validation(_)) => {
            assert_eq!(e.http_status(), 400);
        }
        _ => panic!("expected a validation error"),
    }
    let listed = list_tasks(&store);
    assert_eq!(listed[0].status, Status::Todo);
}

#[test]
fn valid_status_update_applies() {
    let mut store = Store::new();
    let t = create_task(&mut store, draft("task", "General", "Unassigned")).unwrap();
    let updated = update_status(&mut store, t.id, "in_progress").unwrap();
    assert_eq!(updated.status, Status::InProgress);
    assert_eq!(list_tasks(&store)[0].status, Status::InProgress);
}

#[test]
fn deleting_default_project_is_always_rejected() {
    let mut store = Store::new();
    let r = delete_project(&mut store, 1);
    match r {
        Err(e @ ApiError::ReservedProject) => {
            assert_eq!(e.http_status(), 400);
            assert_eq!(e.message(), "cannot delete the default project");
        }
        _ => panic!("expected the fixed rejection"),
    }
    create_project(&mut store, "Alpha").unwrap();
    assert!(matches!(delete_project(&mut store, 1), Err(ApiError::ReservedProject)));
    assert_eq!(list_projects(&store).len(), 2);
}

#[test]
fn deleting_default_assignee_is_always_rejected() {
    let mut store = Store::new();
    assert!(matches!(delete_assignee(&mut store, 1), Err(ApiError::ReservedAssignee)));
    assert_eq!(list_assignees(&store).len(), 1);
}

#[test]
fn tags_round_trip_through_create_and_list() {
    let mut store = Store::new();
    let mut d = draft("tagged", "General", "Unassigned");
    d.tags = vec![String::from("a"), String::from("b")];
    create_task(&mut store, d).unwrap();
    let listed = list_tasks(&store);
    assert_eq!(listed[0].tags, vec![String::from("a"), String::from("b")]);
}

#[test]
fn tags_with_quotes_and_backslashes_round_trip() {
    let mut store = Store::new();
    let mut d = draft("tricky tags", "General", "Unassigned");
    d.tags = vec![String::from("a\"b"), String::from("c\\d"), String::from("e\nf")];
    create_task(&mut store, d).unwrap();
    let listed = list_tasks(&store);
    assert_eq!(
        listed[0].tags,
        vec![String::from("a\"b"), String::from("c\\d"), String::from("e\nf")]
    );
}

#[test]
fn create_scenario_fills_defaults() {
    let mut store = Store::new();
    let d = Draft {
        title: String::from("Buy milk"),
        description: String::new(),
        tags: Vec::new(),
        deadline: None,
        project: String::from("General"),
        assignee: String::from("Unassigned"),
        status: None,
        in_sprint: None,
        notes: None,
    };
    let t = create_task(&mut store, d).unwrap();
    assert_eq!(t.status, Status::Todo);
    assert_eq!(t.status.to_wire(), "todo");
    assert!(!t.in_sprint);
    assert!(t.id >= 1);
    assert_eq!(t.title, "Buy milk");
}

#[test]
fn create_ignores_client_sprint_flag_and_invalid_status() {
    let mut store = Store::new();
    let mut d = draft("task", "General", "Unassigned");
    d.in_sprint = Some(true);
    d.status = Some(String::from("not-a-status"));
    let t = create_task(&mut store, d).unwrap();
    assert!(!t.in_sprint);
    assert_eq!(t.status, Status::Todo);
}

#[test]
fn create_keeps_valid_client_status() {
    let mut store = Store::new();
    let mut d = draft("task", "General", "Unassigned");
    d.status = Some(String::from("blocked"));
    let t = create_task(&mut store, d).unwrap();
    assert_eq!(t.status, Status::Blocked);
}

#[test]
fn status_update_on_missing_task_is_not_found() {
    let mut store = Store::new();
    let r = update_status(&mut store, 999, "done");
    match r {
        Err(e @ ApiError::TaskNotFound) => {
            assert_eq!(e.http_status(), 404);
            assert_eq!(e.message(), "task not found");
        }
        _ => panic!("expected not found"),
    }
}

#[test]
fn full_update_replaces_fields_and_keeps_identity() {
    let mut store = Store::new();
    let t = create_task(&mut store, draft("before", "General", "Unassigned")).unwrap();
    let mut d = draft("after", "General", "Unassigned");
    d.status = Some(String::from("done"));
    d.in_sprint = Some(true);
    d.tags = vec![String::from("x")];
    let u = update_task(&mut store, t.id, d).unwrap();
    assert_eq!(u.id, t.id);
    assert_eq!(u.title, "after");
    assert_eq!(u.status, Status::Done);
    assert!(u.in_sprint);
    assert_eq!(u.tags, vec![String::from("x")]);
    assert_eq!(list_tasks(&store).len(), 1);
}

#[test]
fn full_update_on_missing_task_is_not_found() {
    let mut store = Store::new();
    let r = update_task(&mut store, 5, draft("x", "General", "Unassigned"));
    assert!(matches!(r, Err(ApiError::TaskNotFound)));
}

#[test]
fn sprint_update_sets_flag() {
    let mut store = Store::new();
    let t = create_task(&mut store, draft("task", "General", "Unassigned")).unwrap();
    let u = update_sprint(&mut store, t.id, true).unwrap();
    assert!(u.in_sprint);
    assert!(matches!(update_sprint(&mut store, 77, true), Err(ApiError::TaskNotFound)));
}

#[test]
fn delete_task_removes_the_row() {
    let mut store = Store::new();
    let a = create_task(&mut store, draft("one", "General", "Unassigned")).unwrap();
    let b = create_task(&mut store, draft("two", "General", "Unassigned")).unwrap();
    delete_task(&mut store, a.id).unwrap();
    let listed = list_tasks(&store);
    assert_eq!(listed.len(), 1);
    assert_eq!(listed[0].id, b.id);
    assert!(matches!(delete_task(&mut store, a.id), Err(ApiError::TaskNotFound)));
}

#[test]
fn listed_tasks_come_in_identity_order() {
    let mut store = Store::new();
    for n in 0..5 {
        create_task(&mut store, draft(&format!("t{n}"), "General", "Unassigned")).unwrap();
    }
    let listed = list_tasks(&store);
    for w in listed.windows(2) {
        assert!(w[0].id < w[1].id);
    }
}

#[test]
fn project_names_are_trimmed_and_listed_in_name_order() {
    let mut store = Store::new();
    create_project(&mut store, "  Zeta  ").unwrap();
    create_project(&mut store, "Alpha").unwrap();
    let names: Vec<String> = list_projects(&store).into_iter().map(|p| p.name).collect();
    assert_eq!(names, vec!["Alpha", "General", "Zeta"]);
}

#[test]
fn duplicate_project_name_is_refused() {
    let mut store = Store::new();
    create_project(&mut store, "Alpha").unwrap();
    let r = create_project(&mut store, "Alpha");
    match r {
        Err(e @ ApiError::DuplicateProject) => {
            assert_eq!(e.http_status(), 400);
            assert_eq!(e.message(), "project already exists");
        }
        _ => panic!("expected a duplicate error"),
    }
}

#[test]
fn blank_project_name_is_refused() {
    let mut store = Store::new();
    assert!(matches!(create_project(&mut store, "   "), Err(ApiError::EmptyName)));
}

#[test]
fn deleting_missing_project_is_not_found() {
    let mut store = Store::new();
    let r = delete_project(&mut store, 42);
    match r {
        Err(e @ ApiError::ProjectNotFound) => assert_eq!(e.http_status(), 404),
        _ => panic!("expected not found"),
    }
}

#[test]
fn created_project_can_be_deleted() {
    let mut store = Store::new();
    let p = create_project(&mut store, "Temp").unwrap();
    assert!(p.id >= 2);
    delete_project(&mut store, p.id).unwrap();
    assert_eq!(list_projects(&store).len(), 1);
}

#[test]
fn assignee_creation_and_deletion_mirror_projects() {
    let mut store = Store::new();
    let a = create_assignee(&mut store, " Ada ").unwrap();
    assert_eq!(a.name, "Ada");
    assert!(matches!(create_assignee(&mut store, "Ada"), Err(ApiError::DuplicateAssignee)));
    delete_assignee(&mut store, a.id).unwrap();
    assert!(matches!(delete_assignee(&mut store, a.id), Err(ApiError::AssigneeNotFound)));
}

#[test]
fn empty_notes_are_normalized_to_absent() {
    let mut store = Store::new();
    let mut d = draft("task", "General", "Unassigned");
    d.notes = Some(String::new());
    let t = create_task(&mut store, d).unwrap();
    assert!(t.notes.is_none());
    assert!(list_tasks(&store)[0].notes.is_none());
}

#[test]
fn overlong_notes_are_rejected() {
    let mut store = Store::new();
    let mut d = draft("task", "General", "Unassigned");
    d.notes = Some("n".repeat(2001));
    let r = create_task(&mut store, d);
    assert!(matches!(r, Err(ApiError::Validation(_))));
}

#[test]
fn backfill_creates_missing_lookup_rows() {
    let row = Row {
        id: 1,
        title: String::from("legacy"),
        description: String::new(),
        tags_json: String::from("[]"),
        deadline: None,
        project: String::from("Legacy Project"),
        assignee: String::from("Old Owner"),
        status: Status::Todo,
        in_sprint: false,
        notes: String::new(),
    };
    let mut store = Store::new();
    store.tasks.push(row);
    store.next_task_id = 2;
    backfill_lookups(&mut store);
    let project_names: Vec<String> = list_projects(&store).into_iter().map(|p| p.name).collect();
    assert!(project_names.contains(&String::from("General")));
    assert!(project_names.contains(&String::from("Legacy Project")));
    let assignee_names: Vec<String> =
        list_assignees(&store).into_iter().map(|a| a.name).collect();
    assert!(assignee_names.contains(&String::from("Old Owner")));
    assert_eq!(list_tasks(&store).len(), 1);
}

#[test]
fn store_seeds_the_two_defaults() {
    let store = Store::new();
    let ps = list_projects(&store);
    let as_ = list_assignees(&store);
    assert_eq!(ps.len(), 1);
    assert_eq!(ps[0].id, 1);
    assert_eq!(ps[0].name, "General");
    assert_eq!(as_.len(), 1);
    assert_eq!(as_[0].id, 1);
    assert_eq!(as_[0].name, "Unassigned");
    assert_eq!(list_tasks(&store).len(), 0);
}
