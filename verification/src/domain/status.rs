//! Issue status with its listing priority.

use crate::error::ItackError;
use crate::text::{lowercase, lowercase_text, same_text};
use vstd::prelude::*;

verus! {

/// The state of an issue.
#[derive(Debug, Clone, Copy, PartialEq, Eq, Structural)]
pub enum Status {
    Open,
    InProgress,
    Done,
    WontFix,
}

impl Default for Status {
    fn default() -> (s: Status)
        ensures
            s == Status::Open,
    {
        Status::Open
    }
}

impl Status {
    /// The place of a status in listings: lower comes first.
    pub open spec fn priority(self) -> int {
        match self {
            Status::InProgress => 0,
            Status::Open => 1,
            Status::Done => 2,
            Status::WontFix => 3,
        }
    }

    /// The canonical spelling of a status.
    pub open spec fn name(self) -> Seq<char> {
        match self {
            Status::Open => "open"@,
            Status::InProgress => "in-progress"@,
            Status::Done => "done"@,
            Status::WontFix => "wontfix"@,
        }
    }

    /// The status that a lower-case token spells, if any. Each status but `Open` and `Done`
    /// has three accepted spellings.
    pub open spec fn of_token(t: Seq<char>) -> Option<Status> {
        if t == "open"@ {
            Some(Status::Open)
        } else if t == "in-progress"@ || t == "inprogress"@ || t == "in_progress"@ {
            Some(Status::InProgress)
        } else if t == "done"@ {
            Some(Status::Done)
        } else if t == "wontfix"@ || t == "wont-fix"@ || t == "wont_fix"@ {
            Some(Status::WontFix)
        } else {
            None
        }
    }

    /// Get the sort priority (lower = higher priority).
    /// in-progress=0, open=1, done=2, wontfix=3
    pub fn sort_priority(&self) -> (p: u8)
        ensures
            p == self.priority(),
    {
        match self {
            Status::InProgress => 0,
            Status::Open => 1,
            Status::Done => 2,
            Status::WontFix => 3,
        }
    }

    /// The canonical spelling of the status.
    pub fn to_string(&self) -> (s: String)
        ensures
            s@ == self.name(),
    {
        match self {
            Status::Open => "open".to_owned(),
            Status::InProgress => "in-progress".to_owned(),
            Status::Done => "done".to_owned(),
            Status::WontFix => "wontfix".to_owned(),
        }
    }

    /// Reads a status from a token that is already in lower case.
    pub fn from_token(t: &str) -> (r: Option<Status>)
        ensures
            r == Status::of_token(t@),
    {
        if same_text(t, "open") {
            Some(Status::Open)
        } else if same_text(t, "in-progress") || same_text(t, "inprogress") || same_text(
            t,
            "in_progress",
        ) {
            Some(Status::InProgress)
        } else if same_text(t, "done") {
            Some(Status::Done)
        } else if same_text(t, "wontfix") || same_text(t, "wont-fix") || same_text(t, "wont_fix") {
            Some(Status::WontFix)
        } else {
            None
        }
    }

    /// Reads a status from user input, whatever its case. Input that spells no status is
    /// handed back in the error.
    pub fn from_str(s: &str) -> (r: Result<Status, ItackError>)
        ensures
            match Status::of_token(lowercase_text(s@)) {
                Some(status) => r == Ok::<Status, ItackError>(status),
                None => r matches Err(ItackError::InvalidStatus(given)) && given@ == s@,
            },
    {
        let lowered = lowercase(s);
        match Status::from_token(lowered.as_str()) {
            Some(status) => Ok(status),
            None => Err(ItackError::InvalidStatus(s.to_owned())),
        }
    }
}

/// The listing order is total: two statuses with the same priority are the same status.
pub proof fn lemma_priority_is_total(a: Status, b: Status)
    ensures
        a.priority() == b.priority() <==> a == b,
        0 <= a.priority() <= 3,
        Status::InProgress.priority() < Status::Open.priority() < Status::Done.priority()
            < Status::WontFix.priority(),
{
}

/// Reading the canonical spelling of a status gives the status back.
pub proof fn lemma_name_reads_back(s: Status)
    ensures
        Status::of_token(s.name()) == Some(s),
{
    reveal_strlit("open");
    reveal_strlit("in-progress");
    reveal_strlit("inprogress");
    reveal_strlit("in_progress");
    reveal_strlit("done");
    reveal_strlit("wontfix");
    reveal_strlit("wont-fix");
    reveal_strlit("wont_fix");
    match s {
        Status::Open => {},
        Status::InProgress => {
            assert("in-progress"@.len() != "open"@.len());
        },
        Status::Done => {
            assert("done"@[0] != "open"@[0]);
            assert("done"@.len() != "in-progress"@.len());
            assert("done"@.len() != "inprogress"@.len());
            assert("done"@.len() != "in_progress"@.len());
        },
        Status::WontFix => {
            assert("wontfix"@.len() != "open"@.len());
            assert("wontfix"@.len() != "in-progress"@.len());
            assert("wontfix"@.len() != "inprogress"@.len());
            assert("wontfix"@.len() != "in_progress"@.len());
            assert("wontfix"@.len() != "done"@.len());
        },
    }
}

} // verus!
