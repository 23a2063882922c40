//! A command line taken apart: `/`, an optional scope and `:`, the command's
//! name, and after the first space the arguments.

use crate::scope::lemma_word_names_scope;
use crate::scope::Scope;
use crate::text::after_first;
use crate::text::before_first;
use crate::text::chars_of;
use crate::text::find_char;
use crate::text::is_whitespace;
use crate::text::lemma_first_index;
use crate::text::slice;
use crate::text::string_of;
use crate::text::trim;
use crate::text::trim_end;
use crate::text::trimmed;
use crate::text_lemmas::lemma_first_index_contains;
use crate::text_lemmas::lemma_first_index_of_beginning;
use crate::text_lemmas::lemma_first_index_past;
use crate::text_lemmas::lemma_trim_end;
use crate::text_lemmas::lemma_trim_end_of_joined;
use crate::text_lemmas::lemma_trim_twice;
use vstd::prelude::*;

verus! {

/// The character that a command line begins with.
pub const TRIGGER: char = '/';

/// What a command line asks for.
#[derive(Debug, PartialEq, Eq)]
pub struct Invocation {
    /// Where the command is kept.
    pub scope: Scope,
    /// The command's name. No command line gives an empty one.
    pub name: String,
    /// What follows the first space of the line; nothing where it has none.
    pub arguments: String,
}

/// An invocation as a value of specifications.
pub struct InvocationView {
    /// Where the command is kept.
    pub scope: Scope,
    /// The command's name.
    pub name: Seq<char>,
    /// What follows the first space of the line.
    pub arguments: Seq<char>,
}

impl View for Invocation {
    type V = InvocationView;

    open spec fn view(&self) -> InvocationView {
        InvocationView { scope: self.scope, name: self.name@, arguments: self.arguments@ }
    }
}

impl DeepView for Invocation {
    type V = InvocationView;

    open spec fn deep_view(&self) -> InvocationView {
        self@
    }
}

/// The part of a command line's first word that names the scope: what stands
/// before its first `:`, or `project` where it holds no `:`.
pub open spec fn scope_word(word: Seq<char>) -> Seq<char> {
    if word.contains(':') {
        before_first(word, ':')
    } else {
        Scope::Project.word()
    }
}

/// The part of a command line's first word that names the command: what
/// follows its first `:`, or all of it where it holds no `:`.
pub open spec fn name_word(word: Seq<char>) -> Seq<char> {
    if word.contains(':') {
        after_first(word, ':')
    } else {
        word
    }
}

/// What the line `input` asks for, if it is a command line.
///
/// The line is read without the whitespace around it. It is a command line if
/// it begins with `/`, a first word follows at once, the scope that the word
/// gives is `project` or `user`, and the name that it gives is not empty.
pub open spec fn parse(input: Seq<char>) -> Option<InvocationView> {
    let line = trim(input);
    if line.len() == 0 || line.first() != TRIGGER {
        None
    } else {
        let rest = line.drop_first();
        let word = before_first(rest, ' ');
        match Scope::named(scope_word(word)) {
            Some(scope) if name_word(word).len() > 0 => Some(
                InvocationView { scope, name: name_word(word), arguments: after_first(rest, ' ') },
            ),
            _ => None,
        }
    }
}

/// Takes the command line `input` apart.
pub fn parse_invocation(input: &str) -> (invocation: Option<Invocation>)
    ensures
        invocation.deep_view() == parse(input@),
{
    let line = trimmed(&chars_of(input));
    if line.len() == 0 || line[0] != TRIGGER {
        return None;
    }
    let rest = slice(&line, 1, line.len());
    let space = find_char(&rest, ' ');
    proof {
        lemma_first_index(rest@, ' ');
    }
    let word = slice(&rest, 0, space);
    let arguments = if space < rest.len() {
        slice(&rest, space + 1, rest.len())
    } else {
        Vec::new()
    };
    let colon = find_char(&word, ':');
    proof {
        lemma_first_index(word@, ':');
    }
    let (scope, name) = if colon < word.len() {
        (Scope::from_chars(&slice(&word, 0, colon)), slice(&word, colon + 1, word.len()))
    } else {
        (Some(Scope::Project), word)
    };
    match scope {
        Some(scope) => {
            if name.len() > 0 {
                Some(
                    Invocation { scope, name: string_of(&name), arguments: string_of(&arguments) },
                )
            } else {
                None
            }
        },
        None => None,
    }
}

/// A line that, read without the whitespace around it, does not begin with
/// `/` is no command line.
pub proof fn lemma_no_trigger_no_command(input: Seq<char>)
    requires
        trim(input).len() == 0 || trim(input).first() != TRIGGER,
    ensures
        parse(input) is None,
{
}

/// A line that begins with a character other than `/` and whitespace is no
/// command line, and neither is the empty line.
pub proof fn lemma_other_first_character_no_command(input: Seq<char>)
    requires
        input.len() == 0 || (input.first() != TRIGGER && !is_whitespace(input.first())),
    ensures
        parse(input) is None,
{
    if input.len() > 0 {
        lemma_trim_end(input);
    }
}

/// The whitespace around a line does not matter.
pub proof fn lemma_surrounding_whitespace_ignored(input: Seq<char>)
    ensures
        parse(input) == parse(trim(input)),
{
    lemma_trim_twice(input);
}

/// The line made of `/`, a name, a space and arguments asks for the command
/// of that name in the project, with those arguments less their trailing
/// whitespace. This holds of every name that is not empty, holds neither a
/// space nor `:`, and does not end in whitespace.
pub proof fn lemma_plain_command_line(name: Seq<char>, arguments: Seq<char>)
    requires
        name.len() > 0,
        !name.contains(' '),
        !name.contains(':'),
        !is_whitespace(name.last()),
    ensures
        parse(seq![TRIGGER] + name + seq![' '] + arguments) == Some(
            InvocationView { scope: Scope::Project, name, arguments: trim_end(arguments) },
        ),
{
    let kept = trim_end(arguments);
    let head = seq![TRIGGER] + name;
    let input = head + seq![' '] + arguments;
    let tail = if kept.len() > 0 {
        seq![' '] + kept
    } else {
        Seq::empty()
    };
    assert(trim(input) == head + tail) by {
        assert(input == head + (seq![' '] + arguments));
        lemma_trim_end_of_joined(head, seq![' '] + arguments);
        lemma_trim_end_of_joined(seq![' '], arguments);
        assert(trim_end(seq![' ']) == Seq::<char>::empty()) by {
            assert(seq![' '].drop_last() == Seq::<char>::empty());
            assert(trim_end(Seq::<char>::empty()) == Seq::<char>::empty());
        }
    }
    let rest = (head + tail).drop_first();
    assert(rest == name + tail);
    lemma_first_index_past(name, tail, ' ');
    assert(before_first(rest, ' ') == name);
    assert(after_first(rest, ' ') == kept);
}

/// A line whose first word names no scope asks for what the same line asks
/// for with `project:` put before that word.
pub proof fn lemma_scope_defaults_to_project(rest: Seq<char>)
    requires
        !before_first(rest, ' ').contains(':'),
    ensures
        parse(seq![TRIGGER] + rest) == parse("/project:"@ + rest),
{
    reveal_strlit("/project:");
    reveal_strlit("project");
    let lead = "/project:"@;
    let prefix = lead.drop_first();
    let kept = trim_end(rest);
    assert(trim(seq![TRIGGER] + rest) == seq![TRIGGER] + kept) by {
        lemma_trim_end_of_joined(seq![TRIGGER], rest);
    }
    assert(trim(lead + rest) == lead + kept) by {
        lemma_trim_end_of_joined(lead, rest);
    }
    // Without the scope: the first word of what is kept is the name.
    assert((seq![TRIGGER] + kept).drop_first() == kept);
    let word = before_first(kept, ' ');
    lemma_trim_end(rest);
    lemma_first_index_of_beginning(rest, kept.len() as int, ' ');
    lemma_first_index(rest, ' ');
    // With the scope: the first word is `project:` and then that name.
    let full = (lead + kept).drop_first();
    assert(full == prefix + kept);
    lemma_first_index_past(prefix, kept, ' ');
    assert(before_first(full, ' ') == prefix + word);
    assert(after_first(full, ' ') == after_first(kept, ' '));
    assert(prefix + word == "project"@ + (seq![':'] + word));
    lemma_first_index_past("project"@, seq![':'] + word, ':');
    lemma_first_index_contains(prefix + word, ':');
    assert(before_first(prefix + word, ':') == "project"@);
    assert(after_first(prefix + word, ':') == word);
}

/// The line made of `/`, a scope's word, `:`, a name, a space and arguments
/// asks for the command of that name in that scope, with those arguments less
/// their trailing whitespace. This holds of every name that is not empty,
/// holds no space, and does not end in whitespace.
pub proof fn lemma_scoped_command_line(scope: Scope, name: Seq<char>, arguments: Seq<char>)
    requires
        name.len() > 0,
        !name.contains(' '),
        !is_whitespace(name.last()),
    ensures
        parse(seq![TRIGGER] + scope.word() + seq![':'] + name + seq![' '] + arguments) == Some(
            InvocationView { scope, name, arguments: trim_end(arguments) },
        ),
{
    reveal_strlit("project");
    reveal_strlit("user");
    let kept = trim_end(arguments);
    let word = scope.word() + seq![':'] + name;
    let head = seq![TRIGGER] + word;
    let input = seq![TRIGGER] + scope.word() + seq![':'] + name + seq![' '] + arguments;
    let tail = if kept.len() > 0 {
        seq![' '] + kept
    } else {
        Seq::empty()
    };
    assert(trim(input) == head + tail) by {
        assert(input == head + (seq![' '] + arguments));
        lemma_trim_end_of_joined(head, seq![' '] + arguments);
        lemma_trim_end_of_joined(seq![' '], arguments);
        assert(trim_end(seq![' ']) == Seq::<char>::empty()) by {
            assert(seq![' '].drop_last() == Seq::<char>::empty());
            assert(trim_end(Seq::<char>::empty()) == Seq::<char>::empty());
        }
    }
    let rest = (head + tail).drop_first();
    assert(rest == word + tail);
    lemma_first_index_past(word, tail, ' ');
    assert(before_first(rest, ' ') == word);
    assert(after_first(rest, ' ') == kept);
    assert(word == scope.word() + (seq![':'] + name));
    lemma_first_index_past(scope.word(), seq![':'] + name, ':');
    lemma_first_index_contains(word, ':');
    assert(before_first(word, ':') == scope.word());
    assert(after_first(word, ':') == name);
    lemma_word_names_scope(scope);
}

} // verus!
