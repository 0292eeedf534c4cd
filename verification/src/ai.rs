//! The extraction adapter's logic: guarding the outbound call, building
//! the prompt, locating the JSON payload in a possibly fenced reply,
//! materialising each extracted item with its defaults and fallbacks,
//! and running the accepted items through the same creation path as
//! manual tasks. The HTTP call itself is made by the surrounding
//! program; this module decides everything around it.
use vstd::prelude::*;

use crate::api::{create_task, forced_create, ApiError};
use crate::json::{all_strings, as_strings, docs_of_text, find_entry, find_field, matches_at,
    matches_at_x, parse_docs_text, parse_doc_text, doc_of_text, FieldS, FieldValue, ScalarS,
    Simple, SimpleS, ValueS};
use crate::model::{task_of_row, Draft, DraftV, Task, TaskV};
use crate::status::is_wire_status;
use crate::store::{has_assignee, has_project, Store, StoreV};
use crate::text::{is_blank, trimmed};
use crate::validate::first_violation;

verus! {

// ---------------------------------------------------------------------
// Locating the payload in the reply
// ---------------------------------------------------------------------

/// A code fence.
pub open spec fn fence3() -> Seq<char> {
    seq!['`', '`', '`']
}

/// A code fence tagged as JSON.
pub open spec fn fence_json() -> Seq<char> {
    seq!['`', '`', '`', 'j', 's', 'o', 'n']
}

/// The first index at or after `i` where `pat` occurs in `s`, if any.
pub open spec fn find_from(s: Seq<char>, i: int, pat: Seq<char>) -> Option<int>
    decreases s.len() - i,
    when 0 <= i <= s.len() && pat.len() >= 1
{
    if i + pat.len() > s.len() {
        None
    } else if matches_at(s, i, pat) {
        Some(i)
    } else {
        find_from(s, i + 1, pat)
    }
}

pub proof fn lemma_find_from(s: Seq<char>, i: int, pat: Seq<char>)
    requires
        0 <= i <= s.len(),
        pat.len() >= 1,
    ensures
        match find_from(s, i, pat) {
            Some(j) => {
                &&& i <= j
                &&& j + pat.len() <= s.len()
                &&& matches_at(s, j, pat)
                &&& forall|m: int| i <= m < j ==> !matches_at(s, m, pat)
            },
            None => forall|m: int| i <= m ==> !matches_at(s, m, pat),
        },
    decreases s.len() - i,
{
    if i + pat.len() > s.len() {
    } else if matches_at(s, i, pat) {
    } else {
        lemma_find_from(s, i + 1, pat);
    }
}

/// Runtime mirror of `find_from`.
pub fn find_from_x(s: &Vec<char>, i: usize, pat: &Vec<char>) -> (r: Option<usize>)
    requires
        i <= s@.len(),
        pat@.len() >= 1,
    ensures
        match r {
            Some(j) => find_from(s@, i as int, pat@) == Some(j as int) && i <= j && j + pat@.len()
                <= s@.len(),
            None => find_from(s@, i as int, pat@) is None,
        },
    decreases s@.len() - i,
{
    proof {
        lemma_find_from(s@, i as int, pat@);
    }
    if pat.len() > s.len() - i {
        return None;
    }
    if matches_at_x(s, i, pat) {
        return Some(i);
    }
    find_from_x(s, i + 1, pat)
}

/// The JSON payload of a reply: the interior of the first fenced block
/// tagged `json`, else of the first fenced block, else the trimmed
/// content when no fence occurs and the content starts with `[`.
pub open spec fn extracted_payload(c: Seq<char>) -> Option<Seq<char>> {
    match find_from(c, 0, fence_json()) {
        Some(a) => match find_from(c, a + 7, fence3()) {
            Some(b) => Some(c.subrange(a + 7, b)),
            None => None,
        },
        None => match find_from(c, 0, fence3()) {
            Some(a) => match find_from(c, a + 3, fence3()) {
                Some(b) => Some(c.subrange(a + 3, b)),
                None => None,
            },
            None => {
                let t = trimmed(c);
                if t.len() > 0 && t[0] == '[' {
                    Some(t)
                } else {
                    None
                }
            },
        },
    }
}

/// Runtime mirror of `extracted_payload`.
pub fn extract_payload(c: &str) -> (r: Option<String>)
    ensures
        match r {
            Some(p) => extracted_payload(c@) == Some(p@),
            None => extracted_payload(c@) is None,
        },
{
    let cs = crate::text::str_to_chars(c);
    let cs_len = cs.len();
    proof {
        assert(cs_len == cs@.len());
    }
    let pat_json: Vec<char> = vec!['`', '`', '`', 'j', 's', 'o', 'n'];
    let pat3: Vec<char> = vec!['`', '`', '`'];
    proof {
        assert(pat_json@ =~= fence_json());
        assert(pat3@ =~= fence3());
    }
    match find_from_x(&cs, 0, &pat_json) {
        Some(a) => {
            proof {
                assert(fence_json().len() == 7);
                assert(a + 7 <= cs@.len());
            }
            match find_from_x(&cs, a + 7, &pat3) {
                Some(b) => {
                    let piece = c.substring_char(a + 7, b);
                    Some(String::from_str(piece))
                },
                None => None,
            }
        },
        None => {
            match find_from_x(&cs, 0, &pat3) {
                Some(a) => {
                    proof {
                        assert(fence3().len() == 3);
                        assert(a + 3 <= cs@.len());
                    }
                    match find_from_x(&cs, a + 3, &pat3) {
                        Some(b) => {
                            let piece = c.substring_char(a + 3, b);
                            Some(String::from_str(piece))
                        },
                        None => None,
                    }
                },
                None => {
                    let t = crate::text::trim(c);
                    if t.as_str().unicode_len() > 0 {
                        let c0 = t.as_str().get_char(0);
                        if c0 == '[' {
                            return Some(t);
                        }
                    }
                    None
                },
            }
        },
    }
}

// ---------------------------------------------------------------------
// Guarding the call and building the prompt
// ---------------------------------------------------------------------

/// The fixed system instruction sent with every extraction request.
pub open spec fn system_prompt() -> Seq<char> {
    "You are a task extraction assistant. Read the meeting notes and reply with a JSON array of task objects, each with the fields title, description, tags, deadline, project, assignee and status. Reply with JSON only."@
}

/// Writes the fixed system instruction.
pub fn build_system_prompt() -> (r: String)
    ensures
        r@ == system_prompt(),
{
    String::from_str(
        "You are a task extraction assistant. Read the meeting notes and reply with a JSON array of task objects, each with the fields title, description, tags, deadline, project, assignee and status. Reply with JSON only.",
    )
}

/// The user message: a fixed preamble with the notes embedded verbatim.
pub open spec fn user_message(notes: Seq<char>) -> Seq<char> {
    "Meeting notes:\n"@ + notes
}

/// Writes the user message for these notes.
pub fn build_user_message(notes: &str) -> (r: String)
    ensures
        r@ == user_message(notes@),
{
    let mut m = String::from_str("Meeting notes:\n");
    m.append(notes);
    m
}

/// Decides whether the outbound extraction call may be made: without a
/// configured credential the service is unavailable, and blank notes are
/// refused; otherwise the two prompt messages are handed back.
pub fn plan_generation(credential_present: bool, notes: &str) -> (r: Result<
    (String, String),
    ApiError,
>)
    ensures
        match r {
            Err(ApiError::MissingCredential) => !credential_present,
            Err(ApiError::EmptyNotes) => credential_present && is_blank(notes@),
            Ok(p) => {
                &&& credential_present
                &&& !is_blank(notes@)
                &&& p.0@ == system_prompt()
                &&& p.1@ == user_message(notes@)
            },
            _ => false,
        },
{
    if !credential_present {
        return Err(ApiError::MissingCredential);
    }
    if crate::text::blank(notes) {
        return Err(ApiError::EmptyNotes);
    }
    Ok((build_system_prompt(), build_user_message(notes)))
}

// ---------------------------------------------------------------------
// Upstream failure bodies
// ---------------------------------------------------------------------

/// The message inside an upstream failure body, where one can be found:
/// an `error` object's `message` string, an `error` string, or a
/// top-level `message` string.
pub open spec fn upstream_message(body: Seq<char>) -> Option<Seq<char>> {
    match doc_of_text(body) {
        Some(d) => match find_field(d, "error"@) {
            Some(ValueS::Object(es)) => match find_entry(es, "message"@) {
                Some(SimpleS::One(ScalarS::Str(t))) => Some(t),
                _ => None,
            },
            Some(ValueS::Plain(SimpleS::One(ScalarS::Str(t)))) => Some(t),
            _ => match find_field(d, "message"@) {
                Some(ValueS::Plain(SimpleS::One(ScalarS::Str(t)))) => Some(t),
                _ => None,
            },
        },
        None => None,
    }
}

/// The bad-gateway error for a failing upstream answer: the structured
/// message when the body holds one, else the raw body text.
pub fn upstream_error(body: &str) -> (r: ApiError)
    ensures
        match r {
            ApiError::Upstream(m) => m@ == match upstream_message(body@) {
                Some(t) => t,
                None => body@,
            },
            _ => false,
        },
{
    let msg: Option<String> = match parse_doc_text(body) {
        Some(d) => {
            match crate::json::find_field_x(&d, "error") {
                Some(FieldValue::Object(es)) => {
                    match crate::json::find_entry_x(es, "message") {
                        Some(Simple::One(crate::json::Scalar::Str(t))) => Some(t.clone()),
                        _ => None,
                    }
                },
                Some(FieldValue::Plain(Simple::One(crate::json::Scalar::Str(t)))) => Some(
                    t.clone(),
                ),
                _ => {
                    match crate::json::find_field_x(&d, "message") {
                        Some(FieldValue::Plain(Simple::One(crate::json::Scalar::Str(t)))) => Some(
                            t.clone(),
                        ),
                        _ => None,
                    }
                },
            }
        },
        None => None,
    };
    match msg {
        Some(m) => ApiError::Upstream(m),
        None => ApiError::Upstream(String::from_str(body)),
    }
}

// ---------------------------------------------------------------------
// Materialising extracted items
// ---------------------------------------------------------------------

/// The string a document holds under this key, where the field is
/// present and a string.
pub open spec fn doc_string(d: Seq<FieldS>, k: Seq<char>) -> Option<Seq<char>> {
    match find_field(d, k) {
        Some(ValueS::Plain(SimpleS::One(ScalarS::Str(t)))) => Some(t),
        _ => None,
    }
}

/// The list of strings a document holds under this key, where the field
/// is present and an array of strings.
pub open spec fn doc_string_list(d: Seq<FieldS>, k: Seq<char>) -> Option<Seq<Seq<char>>> {
    match find_field(d, k) {
        Some(ValueS::Plain(SimpleS::Many(items))) => if all_strings(items) {
            Some(as_strings(items))
        } else {
            None
        },
        _ => None,
    }
}

/// The candidate task an extracted document stands for: every field
/// pulled defensively with its default — an absent title becomes
/// "Untitled", absent or non-array tags become ["ai-generated"], an
/// empty deadline is treated as absent, a project or assignee that is
/// absent or not in the store falls back to the seeded default, and a
/// status outside the enumeration falls back to the default.
pub open spec fn materialized(d: Seq<FieldS>, s: StoreV) -> DraftV {
    DraftV {
        title: match doc_string(d, "title"@) {
            Some(t) => t,
            None => "Untitled"@,
        },
        description: match doc_string(d, "description"@) {
            Some(t) => t,
            None => Seq::empty(),
        },
        tags: match doc_string_list(d, "tags"@) {
            Some(ts) => ts,
            None => seq!["ai-generated"@],
        },
        deadline: match doc_string(d, "deadline"@) {
            Some(t) => if t.len() == 0 {
                None
            } else {
                Some(t)
            },
            None => None,
        },
        project: match doc_string(d, "project"@) {
            Some(p) => if has_project(s, p) {
                p
            } else {
                "General"@
            },
            None => "General"@,
        },
        assignee: match doc_string(d, "assignee"@) {
            Some(a) => if has_assignee(s, a) {
                a
            } else {
                "Unassigned"@
            },
            None => "Unassigned"@,
        },
        status: match doc_string(d, "status"@) {
            Some(w) => if is_wire_status(w) {
                Some(w)
            } else {
                Some("todo"@)
            },
            None => Some("todo"@),
        },
        in_sprint: None,
        notes: None,
    }
}

/// Pulls the string under this key, if the field holds one.
fn doc_string_x(d: &Vec<crate::json::Field>, k: &str) -> (r: Option<String>)
    ensures
        match r {
            Some(t) => doc_string(d.deep_view(), k@) == Some(t@),
            None => doc_string(d.deep_view(), k@) is None,
        },
{
    match crate::json::find_field_x(d, k) {
        Some(FieldValue::Plain(Simple::One(crate::json::Scalar::Str(t)))) => Some(t.clone()),
        _ => None,
    }
}

/// Pulls the list of strings under this key, if the field holds one.
fn doc_string_list_x(d: &Vec<crate::json::Field>, k: &str) -> (r: Option<Vec<String>>)
    ensures
        match r {
            Some(ts) => doc_string_list(d.deep_view(), k@) == Some(ts.deep_view()),
            None => doc_string_list(d.deep_view(), k@) is None,
        },
{
    match crate::json::find_field_x(d, k) {
        Some(FieldValue::Plain(Simple::Many(items))) => {
            let ghost sp = items.deep_view();
            let mut out: Vec<String> = Vec::new();
            let mut i: usize = 0;
            while i < items.len()
                invariant
                    find_field(d.deep_view(), k@) == Some(ValueS::Plain(SimpleS::Many(sp))),
                    sp == items.deep_view(),
                    items@.len() == sp.len(),
                    0 <= i <= items@.len(),
                    out@.len() == i,
                    forall|m: int| 0 <= m < i ==> sp[m] is Str,
                    forall|m: int|
                        0 <= m < i ==> out.deep_view()[m] == crate::json::scalar_str(sp[m]),
                decreases items@.len() - i,
            {
                let ghost old_out = out.deep_view();
                match &items[i] {
                    crate::json::Scalar::Str(t) => {
                        out.push(t.clone());
                        proof {
                            assert(out.deep_view() =~= old_out.push(t@));
                        }
                    },
                    _ => {
                        proof {
                            assert(!(sp[i as int] is Str));
                            assert(!all_strings(sp));
                        }
                        return None;
                    },
                }
                i += 1;
            }
            proof {
                assert(all_strings(sp));
                assert(out.deep_view() =~= as_strings(sp));
            }
            Some(out)
        },
        _ => None,
    }
}

/// Builds the candidate task an extracted document stands for.
pub fn materialize_item(d: &Vec<crate::json::Field>, store: &Store) -> (r: Draft)
    ensures
        r@ == materialized(d.deep_view(), store@),
{
    let title: String = match doc_string_x(d, "title") {
        Some(t) => t,
        None => String::from_str("Untitled"),
    };
    let description: String = match doc_string_x(d, "description") {
        Some(t) => t,
        None => String::new(),
    };
    let tags: Vec<String> = match doc_string_list_x(d, "tags") {
        Some(ts) => ts,
        None => {
            let mut v: Vec<String> = Vec::new();
            v.push(String::from_str("ai-generated"));
            proof {
                assert(v.deep_view() =~= seq!["ai-generated"@]);
            }
            v
        },
    };
    let deadline: Option<String> = match doc_string_x(d, "deadline") {
        Some(t) => {
            if t.as_str().unicode_len() == 0 {
                None
            } else {
                Some(t)
            }
        },
        None => None,
    };
    let project: String = match doc_string_x(d, "project") {
        Some(p) => {
            if store.project_exists(p.as_str()) {
                p
            } else {
                String::from_str("General")
            }
        },
        None => String::from_str("General"),
    };
    let assignee: String = match doc_string_x(d, "assignee") {
        Some(a) => {
            if store.assignee_exists(a.as_str()) {
                a
            } else {
                String::from_str("Unassigned")
            }
        },
        None => String::from_str("Unassigned"),
    };
    let status: Option<String> = match doc_string_x(d, "status") {
        Some(w) => {
            if crate::status::parse_status(w.as_str()).is_some() {
                Some(w)
            } else {
                Some(String::from_str("todo"))
            }
        },
        None => Some(String::from_str("todo")),
    };
    let r = Draft {
        title,
        description,
        tags,
        deadline,
        project,
        assignee,
        status,
        in_sprint: None,
        notes: None,
    };
    proof {
        assert(r@ =~= materialized(d.deep_view(), store@));
    }
    r
}

// ---------------------------------------------------------------------
// Ingesting a whole reply
// ---------------------------------------------------------------------

/// One extracted document's effect on the store: materialise it, and
/// create the task unless validation or a missing reference refuses it,
/// in which case the item is dropped and the store is untouched.
pub open spec fn ingest_step(s: StoreV, d: Seq<FieldS>) -> (StoreV, Option<TaskV>) {
    let md = materialized(d, s);
    if first_violation(forced_create(md)) is Some || !has_project(s, md.project) || !has_assignee(
        s,
        md.assignee,
    ) || s.next_task_id == u64::MAX {
        (s, None)
    } else {
        (
            StoreV {
                tasks: s.tasks.push(crate::api::created_row(s, md)),
                next_task_id: (s.next_task_id + 1) as u64,
                ..s
            },
            Some(task_of_row(crate::api::created_row(s, md))),
        )
    }
}

/// The effect of a whole array of extracted documents, in order: the
/// store after every accepted item is created, and the created tasks.
pub open spec fn ingest_fold(s: StoreV, ds: Seq<Seq<FieldS>>) -> (StoreV, Seq<TaskV>)
    decreases ds.len(),
{
    if ds.len() == 0 {
        (s, Seq::empty())
    } else {
        let (s1, t) = ingest_step(s, ds[0]);
        let (s2, ts) = ingest_fold(s1, ds.drop_first());
        (
            s2,
            match t {
                Some(tv) => seq![tv] + ts,
                None => ts,
            },
        )
    }
}

/// The documents a reply carries: the payload located by the fence
/// rules, read as an array of objects.
pub open spec fn reply_docs(content: Seq<char>) -> Option<Seq<Seq<FieldS>>> {
    match extracted_payload(content) {
        Some(pay) => docs_of_text(pay),
        None => None,
    }
}

/// The message reported when a reply cannot be read as a task array.
pub open spec fn unparsable_message(content: Seq<char>) -> Seq<char> {
    "could not read a JSON task array from the reply: "@ + content
}

/// Ingests a reply from the extraction endpoint: locates the JSON
/// payload, reads it as an array of objects, materialises each item and
/// creates the accepted ones, in order, dropping items that fail
/// validation rather than aborting the batch. A reply without a usable
/// payload is an internal error and changes nothing.
pub fn ingest_reply(store: &mut Store, content: &str) -> (r: Result<Vec<Task>, ApiError>)
    requires
        old(store)@.wf(),
    ensures
        final(store)@.wf(),
        match r {
            Ok(ts) => match reply_docs(content@) {
                Some(ds) => {
                    &&& final(store)@ == ingest_fold(old(store)@, ds).0
                    &&& ts.deep_view() == ingest_fold(old(store)@, ds).1
                },
                None => false,
            },
            Err(ApiError::Internal(m)) => {
                &&& reply_docs(content@) is None
                &&& m@ == unparsable_message(content@)
                &&& final(store)@ == old(store)@
            },
            _ => false,
        },
{
    let ghost oldv = old(store)@;
    let pay: String = match extract_payload(content) {
        Some(p) => p,
        None => {
            let mut m = String::from_str("could not read a JSON task array from the reply: ");
            m.append(content);
            return Err(ApiError::Internal(m));
        },
    };
    let docs: Vec<Vec<crate::json::Field>> = match parse_docs_text(pay.as_str()) {
        Some(ds) => ds,
        None => {
            let mut m = String::from_str("could not read a JSON task array from the reply: ");
            m.append(content);
            return Err(ApiError::Internal(m));
        },
    };
    let ghost dsv = docs.deep_view();
    let mut out: Vec<Task> = Vec::new();
    let mut k: usize = 0;
    proof {
        assert(dsv.subrange(0, dsv.len() as int) =~= dsv);
        assert(out.deep_view() =~= Seq::<TaskV>::empty());
        assert(Seq::<TaskV>::empty() + ingest_fold(oldv, dsv).1 =~= ingest_fold(oldv, dsv).1);
    }
    while k < docs.len()
        invariant
            store@.wf(),
            dsv == docs.deep_view(),
            docs@.len() == dsv.len(),
            0 <= k <= dsv.len(),
            ingest_fold(store@, dsv.subrange(k as int, dsv.len() as int)).0 == ingest_fold(
                oldv,
                dsv,
            ).0,
            out.deep_view() + ingest_fold(store@, dsv.subrange(k as int, dsv.len() as int)).1
                == ingest_fold(oldv, dsv).1,
        decreases dsv.len() - k,
    {
        let ghost pre = store@;
        let ghost suf = dsv.subrange(k as int, dsv.len() as int);
        proof {
            assert(suf[0] == dsv[k as int]);
            assert(suf.drop_first() =~= dsv.subrange(k + 1 as int, dsv.len() as int));
        }
        let md = materialize_item(&docs[k], store);
        proof {
            assert(docs@[k as int].deep_view() == dsv[k as int]);
        }
        if store.next_task_id < u64::MAX {
            match create_task(store, md) {
                Ok(t) => {
                    let ghost old_out = out.deep_view();
                    out.push(t);
                    proof {
                        assert(out.deep_view() =~= old_out.push(t@));
                        assert(ingest_step(pre, dsv[k as int]) == (
                            store@,
                            Some(task_of_row(crate::api::created_row(pre, md@))),
                        ));
                        assert(out.deep_view() + ingest_fold(
                            store@,
                            dsv.subrange(k + 1 as int, dsv.len() as int),
                        ).1 =~= old_out + ingest_fold(pre, suf).1);
                    }
                },
                Err(_) => {
                    proof {
                        assert(store@ == pre);
                        assert(ingest_step(pre, dsv[k as int]) == (pre, None::<TaskV>));
                    }
                },
            }
        } else {
            proof {
                assert(ingest_step(pre, dsv[k as int]) == (pre, None::<TaskV>));
            }
        }
        k += 1;
    }
    proof {
        let emp = dsv.subrange(dsv.len() as int, dsv.len() as int);
        assert(emp.len() == 0);
        assert(ingest_fold(store@, emp) == (store@, Seq::<TaskV>::empty()));
        assert(out.deep_view() + Seq::<TaskV>::empty() =~= out.deep_view());
    }
    Ok(out)
}

} // verus!
