//! The two places where commands are kept.

use crate::text::chars_of;
use crate::text::same_text;
use vstd::prelude::*;

verus! {

/// Where a command is kept: with the project, or with the user.
#[derive(Clone, Copy, Debug, PartialEq, Eq, Structural)]
pub enum Scope {
    /// Under the project's directory.
    Project,
    /// Under the user's home directory.
    User,
}

impl Scope {
    /// The word that names the scope, in a command line and in a listed command.
    pub open spec fn word(self) -> Seq<char> {
        match self {
            Scope::Project => "project"@,
            Scope::User => "user"@,
        }
    }

    /// The scope that `word` names, if it names one.
    pub open spec fn named(word: Seq<char>) -> Option<Scope> {
        if word == "project"@ {
            Some(Scope::Project)
        } else if word == "user"@ {
            Some(Scope::User)
        } else {
            None
        }
    }

    /// The word that names the scope.
    pub fn as_str(self) -> (word: &'static str)
        ensures
            word@ == self.word(),
    {
        match self {
            Scope::Project => "project",
            Scope::User => "user",
        }
    }

    /// The scope that `word` names. Any word but `project` and `user` names none.
    pub fn from_word(word: &str) -> (scope: Option<Scope>)
        ensures
            scope == Scope::named(word@),
    {
        Scope::from_chars(&chars_of(word))
    }

    /// The scope that the characters of `word` name.
    pub(crate) fn from_chars(word: &Vec<char>) -> (scope: Option<Scope>)
        ensures
            scope == Scope::named(word@),
    {
        if same_text(word, &chars_of("project")) {
            Some(Scope::Project)
        } else if same_text(word, &chars_of("user")) {
            Some(Scope::User)
        } else {
            None
        }
    }
}

/// Each scope is the one that its own word names.
pub proof fn lemma_word_names_scope(scope: Scope)
    ensures
        Scope::named(scope.word()) == Some(scope),
{
    reveal_strlit("project");
    reveal_strlit("user");
    assert("project"@.len() != "user"@.len());
}

} // verus!
