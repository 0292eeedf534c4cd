//! Field validation of a candidate task: the fixed constraints, checked
//! in a fixed precedence order, reporting only the first violation.
use vstd::prelude::*;

use crate::model::{Draft, DraftV};
use crate::status::is_wire_status;
use crate::text::is_blank;

verus! {

/// Longest accepted title, in characters.
pub const TITLE_MAX: usize = 500;

/// Longest accepted description, in characters.
pub const DESCRIPTION_MAX: usize = 10000;

/// Most tags accepted on one task.
pub const TAGS_MAX: usize = 50;

/// Longest accepted single tag, in characters.
pub const TAG_MAX: usize = 100;

/// Longest accepted notes field, in characters.
pub const NOTES_MAX: usize = 2000;

/// The constraint a candidate task violates first.
#[derive(Clone, Copy, PartialEq, Eq, Structural, Debug)]
pub enum ValidationError {
    EmptyTitle,
    TitleTooLong,
    DescriptionTooLong,
    TooManyTags,
    TagTooLong,
    UnknownStatus,
    EmptyProject,
    EmptyAssignee,
    NotesTooLong,
}

impl ValidationError {
    /// The message reported for this violation.
    pub open spec fn message_view(self) -> Seq<char> {
        match self {
            ValidationError::EmptyTitle => "title must not be empty"@,
            ValidationError::TitleTooLong => "title must be at most 500 characters"@,
            ValidationError::DescriptionTooLong => "description must be at most 10000 characters"@,
            ValidationError::TooManyTags => "at most 50 tags are allowed"@,
            ValidationError::TagTooLong => "each tag must be at most 100 characters"@,
            ValidationError::UnknownStatus => "status must be one of todo, in_progress, done, blocked"@,
            ValidationError::EmptyProject => "project must not be empty"@,
            ValidationError::EmptyAssignee => "assignee must not be empty"@,
            ValidationError::NotesTooLong => "notes must be at most 2000 characters"@,
        }
    }

    /// Writes the message for this violation.
    pub fn message(self) -> (r: String)
        ensures
            r@ == self.message_view(),
    {
        match self {
            ValidationError::EmptyTitle => String::from_str("title must not be empty"),
            ValidationError::TitleTooLong => String::from_str("title must be at most 500 characters"),
            ValidationError::DescriptionTooLong => String::from_str(
                "description must be at most 10000 characters",
            ),
            ValidationError::TooManyTags => String::from_str("at most 50 tags are allowed"),
            ValidationError::TagTooLong => String::from_str("each tag must be at most 100 characters"),
            ValidationError::UnknownStatus => String::from_str(
                "status must be one of todo, in_progress, done, blocked",
            ),
            ValidationError::EmptyProject => String::from_str("project must not be empty"),
            ValidationError::EmptyAssignee => String::from_str("assignee must not be empty"),
            ValidationError::NotesTooLong => String::from_str("notes must be at most 2000 characters"),
        }
    }
}

/// Some tag is over the length limit.
pub open spec fn has_long_tag(tags: Seq<Seq<char>>) -> bool {
    exists|k: int| 0 <= k < tags.len() && tags[k].len() > TAG_MAX
}

/// The first constraint the candidate violates, in the fixed precedence
/// order: empty title, title length, description length, tag count, tag
/// length, status word, empty project, empty assignee, notes length.
/// Emptiness ignores surrounding whitespace; lengths count the untrimmed
/// value's characters.
pub open spec fn first_violation(d: DraftV) -> Option<ValidationError> {
    if is_blank(d.title) {
        Some(ValidationError::EmptyTitle)
    } else if d.title.len() > TITLE_MAX {
        Some(ValidationError::TitleTooLong)
    } else if d.description.len() > DESCRIPTION_MAX {
        Some(ValidationError::DescriptionTooLong)
    } else if d.tags.len() > TAGS_MAX {
        Some(ValidationError::TooManyTags)
    } else if has_long_tag(d.tags) {
        Some(ValidationError::TagTooLong)
    } else if d.status matches Some(s) && !is_wire_status(s) {
        Some(ValidationError::UnknownStatus)
    } else if is_blank(d.project) {
        Some(ValidationError::EmptyProject)
    } else if is_blank(d.assignee) {
        Some(ValidationError::EmptyAssignee)
    } else if d.notes matches Some(n) && n.len() > NOTES_MAX {
        Some(ValidationError::NotesTooLong)
    } else {
        None
    }
}

/// Checks the candidate against every constraint, reporting the first
/// violation in the fixed order, or nothing when all hold.
pub fn validate(d: &Draft) -> (r: Option<ValidationError>)
    ensures
        r == first_violation(d@),
{
    if crate::text::blank(d.title.as_str()) {
        return Some(ValidationError::EmptyTitle);
    }
    if d.title.as_str().unicode_len() > TITLE_MAX {
        return Some(ValidationError::TitleTooLong);
    }
    if d.description.as_str().unicode_len() > DESCRIPTION_MAX {
        return Some(ValidationError::DescriptionTooLong);
    }
    if d.tags.len() > TAGS_MAX {
        return Some(ValidationError::TooManyTags);
    }
    let mut k: usize = 0;
    while k < d.tags.len()
        invariant
            !is_blank(d@.title),
            d@.title.len() <= TITLE_MAX,
            d@.description.len() <= DESCRIPTION_MAX,
            d@.tags.len() <= TAGS_MAX,
            0 <= k <= d.tags@.len(),
            forall|m: int| 0 <= m < k ==> d.tags.deep_view()[m].len() <= TAG_MAX,
        decreases d.tags@.len() - k,
    {
        if d.tags[k].as_str().unicode_len() > TAG_MAX {
            proof {
                assert(d.tags.deep_view()[k as int].len() > TAG_MAX);
            }
            return Some(ValidationError::TagTooLong);
        }
        k += 1;
    }
    proof {
        assert(!has_long_tag(d@.tags));
    }
    match &d.status {
        Some(s) => {
            if crate::status::parse_status(s.as_str()).is_none() {
                return Some(ValidationError::UnknownStatus);
            }
        },
        None => {},
    }
    if crate::text::blank(d.project.as_str()) {
        return Some(ValidationError::EmptyProject);
    }
    if crate::text::blank(d.assignee.as_str()) {
        return Some(ValidationError::EmptyAssignee);
    }
    match &d.notes {
        Some(n) => {
            if n.as_str().unicode_len() > NOTES_MAX {
                return Some(ValidationError::NotesTooLong);
            }
        },
        None => {},
    }
    None
}

} // verus!
