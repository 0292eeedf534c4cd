//! The library's general laws, stated and proved over the same spec
//! functions the handlers' contracts use.
use vstd::prelude::*;

use crate::api::{created_row, forced_create};
use crate::model::{task_of_row, DraftV};
use crate::store::{assignee_idx, has_assignee_id, has_project_id, project_idx, StoreV};
use crate::validate::{first_violation, TITLE_MAX};

verus! {

/// A creation assigns an identity that is positive and strictly greater
/// than every identity already stored: identities are distinct and grow
/// monotonically across creations.
pub proof fn lemma_created_identity_fresh(s: StoreV, d: DraftV)
    requires
        s.wf(),
    ensures
        created_row(s, d).id >= 1,
        forall|i: int|
            0 <= i < s.tasks.len() ==> (#[trigger] s.tasks[i]).id < created_row(s, d).id,
{
}

/// A draft whose title exceeds the length limit always fails validation,
/// whatever its other fields hold; creation therefore refuses it, and by
/// creation's contract the store is left unchanged.
pub proof fn lemma_long_title_always_invalid(d: DraftV)
    requires
        d.title.len() > TITLE_MAX,
    ensures
        first_violation(forced_create(d)) is Some,
{
}

/// The reserved default project is never removed: deletion refuses
/// identity 1 outright, and a deletion of any other identity — the only
/// removal the handlers perform — leaves a row with identity 1 in place.
pub proof fn lemma_reserved_project_survives(s: StoreV, id: u64)
    requires
        s.wf(),
        has_project_id(s, 1),
        id != 1,
        has_project_id(s, id),
    ensures
        has_project_id(
            StoreV { projects: s.projects.remove(project_idx(s, id)), ..s },
            1,
        ),
{
    let di = project_idx(s, id);
    let oi = choose|i: int| 0 <= i < s.projects.len() && (#[trigger] s.projects[i]).id == 1u64;
    assert(0 <= di < s.projects.len() && s.projects[di].id == id);
    assert(s.projects[oi].id == 1);
    assert(oi != di);
    let after = s.projects.remove(di);
    let oi2: int = if oi < di {
        oi
    } else {
        oi - 1
    };
    assert(after[oi2].id == 1);
    let s2 = StoreV { projects: after, ..s };
    assert(s2.projects == after);
    assert(0 <= oi2 < s2.projects.len() && s2.projects[oi2].id == 1u64);
    assert(has_project_id(s2, 1));
}

/// The reserved default assignee is never removed, as the default
/// project is not.
pub proof fn lemma_reserved_assignee_survives(s: StoreV, id: u64)
    requires
        s.wf(),
        has_assignee_id(s, 1),
        id != 1,
        has_assignee_id(s, id),
    ensures
        has_assignee_id(
            StoreV { assignees: s.assignees.remove(assignee_idx(s, id)), ..s },
            1,
        ),
{
    let di = assignee_idx(s, id);
    let oi = choose|i: int| 0 <= i < s.assignees.len() && (#[trigger] s.assignees[i]).id == 1u64;
    assert(0 <= di < s.assignees.len() && s.assignees[di].id == id);
    assert(s.assignees[oi].id == 1);
    assert(oi != di);
    let after = s.assignees.remove(di);
    let oi2: int = if oi < di {
        oi
    } else {
        oi - 1
    };
    assert(after[oi2].id == 1);
    let s2 = StoreV { assignees: after, ..s };
    assert(s2.assignees == after);
    assert(0 <= oi2 < s2.assignees.len() && s2.assignees[oi2].id == 1u64);
    assert(has_assignee_id(s2, 1));
}

/// The task a creation stores reads back with exactly the tags the draft
/// carried, in the same order: the stored tags text round-trips through
/// the codec.
pub proof fn lemma_created_tags_round_trip(s: StoreV, d: DraftV)
    ensures
        task_of_row(created_row(s, d)).tags == d.tags,
{
    crate::json::lemma_tags_round_trip(d.tags);
}

} // verus!
