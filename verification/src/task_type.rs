//! The four kinds of task, and their written forms.

use crate::text::{lowercase, lowercase_of, same_text};
use vstd::prelude::*;
use vstd::string::StringExecFns;

verus! {

/// What kind of work a task is. The kind's written form opens the task's
/// readable identifier.
#[derive(Debug, Clone, Copy, PartialEq, Eq, Structural, Hash)]
pub enum TaskType {
    Feat,
    Bug,
    Research,
    Chore,
}

impl TaskType {
    /// The written form of a kind, in lower case.
    pub open spec fn name(self) -> Seq<char> {
        match self {
            TaskType::Feat => "feat"@,
            TaskType::Bug => "bug"@,
            TaskType::Research => "research"@,
            TaskType::Chore => "chore"@,
        }
    }

    /// The kind whose written form is exactly `s`, if there is one.
    pub open spec fn named(s: Seq<char>) -> Option<TaskType> {
        if s == "feat"@ {
            Some(TaskType::Feat)
        } else if s == "bug"@ {
            Some(TaskType::Bug)
        } else if s == "research"@ {
            Some(TaskType::Research)
        } else if s == "chore"@ {
            Some(TaskType::Chore)
        } else {
            None
        }
    }

    /// What a text stands for once it has been put in lower case: the kind of
    /// that name, or a feature where there is none.
    pub open spec fn named_or_default(lower: Seq<char>) -> TaskType {
        match Self::named(lower) {
            Some(t) => t,
            None => TaskType::Feat,
        }
    }

    /// Reads a kind from its exact written form.
    pub fn from_canonical(s: &str) -> (r: Option<TaskType>)
        ensures
            r == Self::named(s@),
    {
        if same_text(s, "feat") {
            Some(TaskType::Feat)
        } else if same_text(s, "bug") {
            Some(TaskType::Bug)
        } else if same_text(s, "research") {
            Some(TaskType::Research)
        } else if same_text(s, "chore") {
            Some(TaskType::Chore)
        } else {
            None
        }
    }

    /// Reads a kind whatever the case of its letters: the text is put in lower
    /// case and then read by its exact form.
    pub fn from_str(s: &str) -> (r: Option<TaskType>)
        ensures
            r == Self::named(lowercase_of(s@)),
    {
        let lower = lowercase(s);
        Self::from_canonical(lower.as_str())
    }

    /// Reads a kind leniently: a text that names none gives a feature.
    pub fn parse_or_default(s: &str) -> (r: TaskType)
        ensures
            r == Self::named_or_default(lowercase_of(s@)),
    {
        match Self::from_str(s) {
            Some(kind) => kind,
            None => TaskType::Feat,
        }
    }

    /// The written form of this kind.
    pub fn to_string(&self) -> (r: String)
        ensures
            r@ == self.name(),
    {
        String::from_str(self.prefix())
    }

    /// What opens the identifier of a task of this kind: its written form.
    pub fn prefix(&self) -> (r: &'static str)
        ensures
            r@ == self.name(),
    {
        match self {
            TaskType::Feat => "feat",
            TaskType::Bug => "bug",
            TaskType::Research => "research",
            TaskType::Chore => "chore",
        }
    }
}

/// Reading a kind back from its own written form gives that kind.
pub proof fn lemma_type_name_round_trip(t: TaskType)
    ensures
        TaskType::named(t.name()) == Some(t),
{
    reveal_strlit("feat");
    reveal_strlit("bug");
    reveal_strlit("research");
    reveal_strlit("chore");
    assert("feat"@.len() == 4);
    assert("bug"@.len() == 3);
    assert("research"@.len() == 8);
    assert("chore"@.len() == 5);
}

} // verus!
