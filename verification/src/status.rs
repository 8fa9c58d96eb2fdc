//! The six states a task moves through, and their written forms.

use crate::text::{same_text, uppercase, uppercase_of};
use vstd::prelude::*;
use vstd::string::StringExecFns;

verus! {

/// Where a task stands on the board.
#[derive(Debug, Clone, Copy, PartialEq, Eq, Structural, Hash)]
pub enum TaskStatus {
    Backlog,
    Planned,
    Ready,
    InProgress,
    Testing,
    Done,
}

impl TaskStatus {
    /// The written form of a status: upper case, words joined by `_`.
    pub open spec fn name(self) -> Seq<char> {
        match self {
            TaskStatus::Backlog => "BACKLOG"@,
            TaskStatus::Planned => "PLANNED"@,
            TaskStatus::Ready => "READY"@,
            TaskStatus::InProgress => "IN_PROGRESS"@,
            TaskStatus::Testing => "TESTING"@,
            TaskStatus::Done => "DONE"@,
        }
    }

    /// The status whose written form is exactly `s`, if there is one.
    pub open spec fn named(s: Seq<char>) -> Option<TaskStatus> {
        if s == "BACKLOG"@ {
            Some(TaskStatus::Backlog)
        } else if s == "PLANNED"@ {
            Some(TaskStatus::Planned)
        } else if s == "READY"@ {
            Some(TaskStatus::Ready)
        } else if s == "IN_PROGRESS"@ {
            Some(TaskStatus::InProgress)
        } else if s == "TESTING"@ {
            Some(TaskStatus::Testing)
        } else if s == "DONE"@ {
            Some(TaskStatus::Done)
        } else {
            None
        }
    }

    /// What a text stands for once it has been put in upper case: the status of
    /// that name, or the backlog where there is none.
    pub open spec fn named_or_default(upper: Seq<char>) -> TaskStatus {
        match Self::named(upper) {
            Some(s) => s,
            None => TaskStatus::Backlog,
        }
    }

    /// Reads a status from its exact written form.
    pub fn from_canonical(s: &str) -> (r: Option<TaskStatus>)
        ensures
            r == Self::named(s@),
    {
        if same_text(s, "BACKLOG") {
            Some(TaskStatus::Backlog)
        } else if same_text(s, "PLANNED") {
            Some(TaskStatus::Planned)
        } else if same_text(s, "READY") {
            Some(TaskStatus::Ready)
        } else if same_text(s, "IN_PROGRESS") {
            Some(TaskStatus::InProgress)
        } else if same_text(s, "TESTING") {
            Some(TaskStatus::Testing)
        } else if same_text(s, "DONE") {
            Some(TaskStatus::Done)
        } else {
            None
        }
    }

    /// Reads a status whatever the case of its letters: the text is put in
    /// upper case and then read by its exact form.
    pub fn from_str(s: &str) -> (r: Option<TaskStatus>)
        ensures
            r == Self::named(uppercase_of(s@)),
    {
        let upper = uppercase(s);
        Self::from_canonical(upper.as_str())
    }

    /// Reads a status leniently: a text that names none gives the backlog.
    pub fn parse_or_default(s: &str) -> (r: TaskStatus)
        ensures
            r == Self::named_or_default(uppercase_of(s@)),
    {
        match Self::from_str(s) {
            Some(status) => status,
            None => TaskStatus::Backlog,
        }
    }

    /// The written form of this status.
    pub fn to_string(&self) -> (r: String)
        ensures
            r@ == self.name(),
    {
        match self {
            TaskStatus::Backlog => String::from_str("BACKLOG"),
            TaskStatus::Planned => String::from_str("PLANNED"),
            TaskStatus::Ready => String::from_str("READY"),
            TaskStatus::InProgress => String::from_str("IN_PROGRESS"),
            TaskStatus::Testing => String::from_str("TESTING"),
            TaskStatus::Done => String::from_str("DONE"),
        }
    }
}

/// Reading a status back from its own written form gives that status.
pub proof fn lemma_status_name_round_trip(s: TaskStatus)
    ensures
        TaskStatus::named(s.name()) == Some(s),
{
    reveal_strlit("BACKLOG");
    reveal_strlit("PLANNED");
    reveal_strlit("READY");
    reveal_strlit("IN_PROGRESS");
    reveal_strlit("TESTING");
    reveal_strlit("DONE");
    assert("BACKLOG"@.len() == 7);
    assert("PLANNED"@[0] == 'P');
    assert("BACKLOG"@[0] == 'B');
    assert("READY"@.len() == 5);
    assert("IN_PROGRESS"@.len() == 11);
    assert("TESTING"@[0] == 'T');
    assert("DONE"@.len() == 4);
}

} // verus!
