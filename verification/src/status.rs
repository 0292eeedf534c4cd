//! The closed set of task states and its wire form.
use vstd::prelude::*;

verus! {

/// A task's state, a closed enumeration.
#[derive(Clone, Copy, PartialEq, Eq, Structural, Debug)]
pub enum Status {
    Todo,
    InProgress,
    Done,
    Blocked,
}

impl Status {
    /// The wire word for this status.
    pub open spec fn wire_view(self) -> Seq<char> {
        match self {
            Status::Todo => "todo"@,
            Status::InProgress => "in_progress"@,
            Status::Done => "done"@,
            Status::Blocked => "blocked"@,
        }
    }

    /// Writes the status as its wire word.
    pub fn to_wire(self) -> (r: &'static str)
        ensures
            r@ == self.wire_view(),
    {
        match self {
            Status::Todo => "todo",
            Status::InProgress => "in_progress",
            Status::Done => "done",
            Status::Blocked => "blocked",
        }
    }
}

/// The four wire words that denote a status.
pub open spec fn is_wire_status(s: Seq<char>) -> bool {
    s == "todo"@ || s == "in_progress"@ || s == "done"@ || s == "blocked"@
}

/// The status a wire word denotes; `Todo` for any other word.
pub open spec fn status_of_wire(s: Seq<char>) -> Status {
    if s == "in_progress"@ {
        Status::InProgress
    } else if s == "done"@ {
        Status::Done
    } else if s == "blocked"@ {
        Status::Blocked
    } else {
        Status::Todo
    }
}

/// Reads a wire word: `Some` exactly for the four status words.
pub fn parse_status(s: &str) -> (r: Option<Status>)
    ensures
        match r {
            Some(st) => is_wire_status(s@) && st == status_of_wire(s@),
            None => !is_wire_status(s@),
        },
{
    proof {
        reveal_strlit("todo");
        reveal_strlit("in_progress");
        reveal_strlit("done");
        reveal_strlit("blocked");
        assert("todo"@.len() == 4);
        assert("in_progress"@.len() == 11);
        assert("done"@.len() == 4);
        assert("blocked"@.len() == 7);
        assert("todo"@[0] == 't' && "done"@[0] == 'd');
    }
    if crate::text::str_eq(s, "todo") {
        Some(Status::Todo)
    } else if crate::text::str_eq(s, "in_progress") {
        Some(Status::InProgress)
    } else if crate::text::str_eq(s, "done") {
        Some(Status::Done)
    } else if crate::text::str_eq(s, "blocked") {
        Some(Status::Blocked)
    } else {
        None
    }
}

/// Each status's wire word denotes that status and no other: writing a
/// status and reading the word back is the identity.
pub proof fn lemma_status_wire_round_trip(st: Status)
    ensures
        is_wire_status(st.wire_view()),
        status_of_wire(st.wire_view()) == st,
{
    reveal_strlit("todo");
    reveal_strlit("in_progress");
    reveal_strlit("done");
    reveal_strlit("blocked");
    assert("todo"@.len() == 4);
    assert("in_progress"@.len() == 11);
    assert("done"@.len() == 4);
    assert("blocked"@.len() == 7);
    assert("todo"@[1] == 'o' && "done"@[1] == 'o');
    assert("todo"@[0] == 't' && "done"@[0] == 'd');
}

} // verus!
