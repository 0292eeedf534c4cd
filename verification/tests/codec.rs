use tasktrack::ai::{
    build_system_prompt, build_user_message, extract_payload, ingest_reply, plan_generation,
    upstream_error,
};
use tasktrack::api::{create_task, list_tasks, ApiError};
use tasktrack::cors::origin_allowed;
use tasktrack::json::{decode_tags, encode_tags, parse_docs_text};
use tasktrack::model::Draft;
use tasktrack::status::{parse_status, Status};
use tasktrack::store::Store;
use tasktrack::text::{blank, trim};
use tasktrack::validate::{validate, ValidationError};

fn draft(title: &str, project: &str, assignee: &str) -> Draft {
    Draft {
        title: String::from(title),
        description: String::new(),
        tags: Vec::new(),
        deadline: None,
        project: String::from(project),
        assignee: String::from(assignee),
        status: None,
        in_sprint: None,
        notes: None,
    }
}

#[test]
fn encode_tags_writes_the_exact_json_text() {
    assert_eq!(encode_tags(&vec![]), "[]");
    assert_eq!(encode_tags(&vec![String::from("a")]), "[\"a\"]");
    assert_eq!(
        encode_tags(&vec![String::from("a"), String::from("b")]),
        "[\"a\",\"b\"]"
    );
    assert_eq!(encode_tags(&vec![String::from("a\"b")]), "[\"a\\\"b\"]");
    assert_eq!(encode_tags(&vec![String::from("a\\b")]), "[\"a\\\\b\"]");
}

#[test]
fn decode_tags_reads_back_what_encode_wrote() {
    let tags = vec![
        String::from("plain"),
        String::from("with \"quotes\""),
        String::from("back\\slash"),
        String::from("line\nbreak"),
        String::new(),
    ];
    let text = encode_tags(&tags);
    assert_eq!(decode_tags(&text), Some(tags));
}

#[test]
fn decode_tags_accepts_whitespace_and_escapes() {
    assert_eq!(
        decode_tags(" [ \"a\" , \"b\\n\" ] "),
        Some(vec![String::from("a"), String::from("b\n")])
    );
    assert_eq!(decode_tags("[]"), Some(vec![]));
}

#[test]
fn decode_tags_rejects_other_shapes() {
    assert_eq!(decode_tags("{\"a\":1}"), None);
    assert_eq!(decode_tags("[1,2]"), None);
    assert_eq!(decode_tags("[\"a\""), None);
    assert_eq!(decode_tags("[\"a\"] trailing"), None);
    assert_eq!(decode_tags(""), None);
}

#[test]
fn status_words_round_trip() {
    for st in [Status::Todo, Status::InProgress, Status::Done, Status::Blocked] {
        assert_eq!(parse_status(st.to_wire()), Some(st));
    }
    assert_eq!(parse_status("finished"), None);
    assert_eq!(parse_status("TODO"), None);
    assert_eq!(parse_status(""), None);
}

#[test]
fn trim_and_blank_follow_the_whitespace_rule() {
    assert_eq!(trim("  hello \t"), "hello");
    assert_eq!(trim("hello"), "hello");
    assert_eq!(trim(" \r\n "), "");
    assert!(blank(""));
    assert!(blank(" \t\n"));
    assert!(!blank(" a "));
}

#[test]
fn validation_reports_the_first_violation_in_order() {
    let mut d = draft("  ", "General", "Unassigned");
    d.description = "d".repeat(10001);
    assert_eq!(validate(&d), Some(ValidationError::EmptyTitle));
    d.title = String::from("ok");
    assert_eq!(validate(&d), Some(ValidationError::DescriptionTooLong));
    d.description = String::new();
    d.tags = (0..51).map(|n| format!("t{n}")).collect();
    assert_eq!(validate(&d), Some(ValidationError::TooManyTags));
    d.tags = vec!["x".repeat(101)];
    assert_eq!(validate(&d), Some(ValidationError::TagTooLong));
    d.tags = Vec::new();
    d.status = Some(String::from("bogus"));
    assert_eq!(validate(&d), Some(ValidationError::UnknownStatus));
    d.status = Some(String::from("done"));
    d.project = String::from(" ");
    assert_eq!(validate(&d), Some(ValidationError::EmptyProject));
    d.project = String::from("General");
    d.assignee = String::from("");
    assert_eq!(validate(&d), Some(ValidationError::EmptyAssignee));
    d.assignee = String::from("Unassigned");
    d.notes = Some("n".repeat(2001));
    assert_eq!(validate(&d), Some(ValidationError::NotesTooLong));
    d.notes = None;
    assert_eq!(validate(&d), None);
}

#[test]
fn validation_title_too_long_comes_after_emptiness() {
    let mut d = draft("t", "General", "Unassigned");
    d.title = "x".repeat(501);
    assert_eq!(validate(&d), Some(ValidationError::TitleTooLong));
    assert_eq!(
        ValidationError::TitleTooLong.message(),
        "title must be at most 500 characters"
    );
}

#[test]
fn cors_accepts_local_and_private_origins() {
    assert!(origin_allowed("http://localhost:3000"));
    assert!(origin_allowed("https://localhost"));
    assert!(origin_allowed("http://127.0.0.1:8080"));
    assert!(origin_allowed("http://172.16.0.1"));
    assert!(origin_allowed("https://192.168.1.5:8443"));
}

#[test]
fn cors_rejects_everything_else() {
    assert!(!origin_allowed("http://example.com"));
    assert!(!origin_allowed("https://evil.test:443"));
    assert!(!origin_allowed("ftp://localhost"));
    assert!(!origin_allowed("localhost"));
    assert!(!origin_allowed(""));
    assert!(!origin_allowed("http://192.169.0.1"));
}

#[test]
fn payload_extraction_prefers_the_json_fence() {
    assert_eq!(
        extract_payload("before ```json\n[1]\n``` after").as_deref(),
        Some("\n[1]\n")
    );
    assert_eq!(
        extract_payload("``` ignored ``` then ```json[2]```").as_deref(),
        Some("[2]")
    );
    assert_eq!(extract_payload("```\n[3]\n```").as_deref(), Some("\n[3]\n"));
    assert_eq!(extract_payload("  [4]  ").as_deref(), Some("[4]"));
    assert_eq!(extract_payload("no json here"), None);
    assert_eq!(extract_payload("```json [unclosed"), None);
}

#[test]
fn reply_parsing_reads_arrays_of_objects() {
    let docs = parse_docs_text("[{\"title\":\"A\",\"tags\":[\"x\",\"y\"],\"done\":true}]");
    assert!(docs.is_some());
    assert_eq!(docs.unwrap().len(), 1);
    assert!(parse_docs_text("[]").is_some());
    assert!(parse_docs_text("[{}]").is_some());
    assert!(parse_docs_text("{\"not\":\"array\"}").is_none());
    assert!(parse_docs_text("[{\"n\":1.5e3,\"z\":null}]").is_some());
}

#[test]
fn plan_generation_requires_a_credential_first() {
    let r = plan_generation(false, "some notes");
    match r {
        Err(e @ ApiError::MissingCredential) => {
            assert_eq!(e.http_status(), 503);
            assert_eq!(e.message(), "AI credential is not configured");
        }
        _ => panic!("expected the configuration error"),
    }
}

#[test]
fn plan_generation_rejects_blank_notes() {
    let r = plan_generation(true, "   \n");
    match r {
        Err(e @ ApiError::EmptyNotes) => {
            assert_eq!(e.http_status(), 400);
            assert_eq!(e.message(), "meeting_notes must not be empty");
        }
        _ => panic!("expected the empty-notes error"),
    }
}

#[test]
fn plan_generation_builds_the_two_messages() {
    let (system, user) = plan_generation(true, "ship the beta").unwrap();
    assert_eq!(system, build_system_prompt());
    assert_eq!(user, build_user_message("ship the beta"));
    assert!(user.ends_with("ship the beta"));
    assert!(user.starts_with("Meeting notes:\n"));
}

#[test]
fn fenced_reply_with_unknown_project_falls_back_to_general() {
    let mut store = Store::new();
    let reply = "```json\n[{\"title\":\"Call the vendor\",\"project\":\"No Such Project\"}]\n```";
    let tasks = ingest_reply(&mut store, reply).unwrap();
    assert_eq!(tasks.len(), 1);
    assert_eq!(tasks[0].project, "General");
    assert_eq!(tasks[0].title, "Call the vendor");
    assert_eq!(list_tasks(&store).len(), 1);
}

#[test]
fn ingested_items_get_their_defaults() {
    let mut store = Store::new();
    let reply = "[{\"description\":\"only a description\",\"tags\":\"not-an-array\",\"status\":\"bogus\",\"deadline\":\"\"}]";
    let tasks = ingest_reply(&mut store, reply).unwrap();
    assert_eq!(tasks.len(), 1);
    assert_eq!(tasks[0].title, "Untitled");
    assert_eq!(tasks[0].tags, vec![String::from("ai-generated")]);
    assert_eq!(tasks[0].status, Status::Todo);
    assert!(tasks[0].deadline.is_none());
    assert_eq!(tasks[0].assignee, "Unassigned");
}

#[test]
fn invalid_ingested_items_are_dropped_silently() {
    let mut store = Store::new();
    let reply = "[{\"title\":\"ok\"},{\"title\":\"   \"}]";
    let tasks = ingest_reply(&mut store, reply).unwrap();
    assert_eq!(tasks.len(), 1);
    assert_eq!(tasks[0].title, "ok");
    assert_eq!(list_tasks(&store).len(), 1);
}

#[test]
fn unreadable_reply_is_an_internal_error_and_stores_nothing() {
    let mut store = Store::new();
    let r = ingest_reply(&mut store, "sorry, I cannot help with that");
    match r {
        Err(e @ ApiError::Internal(_)) => {
            assert_eq!(e.http_status(), 500);
            assert!(e.message().contains("sorry, I cannot help with that"));
        }
        _ => panic!("expected an internal error"),
    }
    assert_eq!(list_tasks(&store).len(), 0);
}

#[test]
fn upstream_error_reads_the_structured_message() {
    let e = upstream_error("{\"error\":{\"message\":\"quota exceeded\",\"code\":null}}");
    assert_eq!(e.http_status(), 502);
    assert_eq!(e.message(), "quota exceeded");
    let e2 = upstream_error("{\"error\":\"plain text\"}");
    assert_eq!(e2.message(), "plain text");
    let e3 = upstream_error("{\"message\":\"top level\"}");
    assert_eq!(e3.message(), "top level");
}

#[test]
fn upstream_error_falls_back_to_the_raw_body() {
    let e = upstream_error("<html>bad gateway</html>");
    assert_eq!(e.http_status(), 502);
    assert_eq!(e.message(), "<html>bad gateway</html>");
}

#[test]
fn ingest_reply_without_fence_takes_raw_arrays() {
    let mut store = Store::new();
    let tasks = ingest_reply(&mut store, "  [{\"title\":\"raw\"}]  ").unwrap();
    assert_eq!(tasks.len(), 1);
    assert_eq!(tasks[0].title, "raw");
}

#[test]
fn ingested_tasks_validate_like_manual_ones() {
    let mut store = Store::new();
    let long_title = "t".repeat(501);
    let reply = format!("[{{\"title\":\"{long_title}\"}}]");
    let tasks = ingest_reply(&mut store, &reply).unwrap();
    assert_eq!(tasks.len(), 0);
    assert_eq!(list_tasks(&store).len(), 0);
}

#[test]
fn ingest_batch_preserves_order_and_ids() {
    let mut store = Store::new();
    create_task(&mut store, draft("manual", "General", "Unassigned")).unwrap();
    let reply = "[{\"title\":\"first\"},{\"title\":\"second\"}]";
    let tasks = ingest_reply(&mut store, reply).unwrap();
    assert_eq!(tasks.len(), 2);
    assert_eq!(tasks[0].title, "first");
    assert_eq!(tasks[1].title, "second");
    assert!(tasks[0].id < tasks[1].id);
    assert_eq!(list_tasks(&store).len(), 3);
}
