//! From a command line to the prompt it stands for: which file to read, and
//! what the file's text becomes once the arguments are filled in.

use crate::invocation::lemma_plain_command_line;
use crate::invocation::lemma_scope_defaults_to_project;
use crate::invocation::lemma_scoped_command_line;
use crate::invocation::parse;
use crate::invocation::parse_invocation;
use crate::invocation::TRIGGER;
use crate::invocation::Invocation;
use crate::invocation::InvocationView;
use crate::path::commands_dir;
use crate::path::commands_root;
use crate::path::file_of;
use crate::path::components;
use crate::path::is_absolute;
use crate::path::join;
use crate::path::joined;
use crate::path::lemma_adjoined_lies_within;
use crate::path::lies_within;
use crate::path::relative_path;
use crate::path::stays_below;
use crate::path::stays_within;
use crate::path::Separator;
use crate::scope::Scope;
use crate::text::before_first;
use crate::text::chars_of;
use crate::text::is_whitespace;
use crate::text::replace;
use crate::text::replace_all;
use crate::text::string_of;
use crate::text::trim;
use crate::text::trim_end;
use vstd::prelude::*;

verus! {

/// What a command line resolves to: the file to read and the arguments to
/// fill in.
#[derive(Debug, PartialEq, Eq)]
pub struct Lookup {
    /// The file that holds the prompt.
    pub path: String,
    /// What takes the place of `$ARGUMENTS` in the prompt.
    pub arguments: String,
}

/// A lookup as a value of specifications.
pub struct LookupView {
    /// The file that holds the prompt.
    pub path: Seq<char>,
    /// What takes the place of `$ARGUMENTS` in the prompt.
    pub arguments: Seq<char>,
}

impl View for Lookup {
    type V = LookupView;

    open spec fn view(&self) -> LookupView {
        LookupView { path: self.path@, arguments: self.arguments@ }
    }
}

impl DeepView for Lookup {
    type V = LookupView;

    open spec fn deep_view(&self) -> LookupView {
        self@
    }
}

/// The directory that holds the commands of `scope`: below `cwd` for the
/// project, below `home` for the user. A scope has none where its directory
/// is not known.
pub open spec fn root_of(
    scope: Scope,
    cwd: Option<Seq<char>>,
    home: Option<Seq<char>>,
    separator: Separator,
) -> Option<Seq<char>> {
    let base = match scope {
        Scope::Project => cwd,
        Scope::User => home,
    };
    match base {
        Some(base) => Some(commands_root(base, separator)),
        None => None,
    }
}

/// Where the prompt of `invocation` is to be read. There is no such place
/// where the scope has no directory, or where the file that the name stands
/// for, adjoined to that directory, does not lie within it.
pub open spec fn locate(
    invocation: InvocationView,
    cwd: Option<Seq<char>>,
    home: Option<Seq<char>>,
    separator: Separator,
) -> Option<LookupView> {
    match root_of(invocation.scope, cwd, home, separator) {
        Some(root) => {
            let path = join(root, relative_path(invocation.name, separator), separator);
            if lies_within(root, path, separator) {
                Some(LookupView { path, arguments: invocation.arguments })
            } else {
                None
            }
        },
        None => None,
    }
}

/// What the line `input` resolves to, if it is a command line whose prompt
/// has a place.
pub open spec fn resolve(
    input: Seq<char>,
    cwd: Option<Seq<char>>,
    home: Option<Seq<char>>,
    separator: Separator,
) -> Option<LookupView> {
    match parse(input) {
        Some(invocation) => locate(invocation, cwd, home, separator),
        None => None,
    }
}

/// `template` with `arguments` in the place of every `$ARGUMENTS`.
pub open spec fn substitute(template: Seq<char>, arguments: Seq<char>) -> Seq<char> {
    replace_all(template, "$ARGUMENTS"@, arguments)
}

/// The prompt that a file gives: none where the file could not be read, else
/// its text with the arguments filled in.
pub open spec fn expansion(contents: Option<Seq<char>>, arguments: Seq<char>) -> Option<
    Seq<char>,
> {
    match contents {
        Some(template) => Some(substitute(template, arguments)),
        None => None,
    }
}

/// The directory that holds the commands of `scope`.
pub fn scope_root(
    scope: Scope,
    cwd: Option<&str>,
    home: Option<&str>,
    separator: Separator,
) -> (root: Option<String>)
    ensures
        root.deep_view() == root_of(scope, cwd.deep_view(), home.deep_view(), separator),
{
    let base = match scope {
        Scope::Project => cwd,
        Scope::User => home,
    };
    match base {
        Some(base) => Some(commands_dir(base, separator)),
        None => None,
    }
}

/// Finds where the prompt of `invocation` is to be read.
pub fn locate_command(
    invocation: &Invocation,
    cwd: Option<&str>,
    home: Option<&str>,
    separator: Separator,
) -> (lookup: Option<Lookup>)
    ensures
        lookup.deep_view() == locate(invocation@, cwd.deep_view(), home.deep_view(), separator),
{
    match scope_root(invocation.scope, cwd, home, separator) {
        Some(root) => {
            let root = chars_of(root.as_str());
            let file = file_of(&chars_of(invocation.name.as_str()), separator);
            let path = joined(&root, &file, separator);
            if stays_within(&root, &path, separator) {
                Some(Lookup { path: string_of(&path), arguments: invocation.arguments.clone() })
            } else {
                None
            }
        },
        None => None,
    }
}

/// Resolves the line `input`: takes it apart and finds where its prompt is to
/// be read. `cwd` is the project's directory and `home` the user's home
/// directory, each where it is known.
pub fn resolve_command(
    input: &str,
    cwd: Option<&str>,
    home: Option<&str>,
    separator: Separator,
) -> (lookup: Option<Lookup>)
    ensures
        lookup.deep_view() == resolve(input@, cwd.deep_view(), home.deep_view(), separator),
{
    match parse_invocation(input) {
        Some(invocation) => locate_command(&invocation, cwd, home, separator),
        None => None,
    }
}

/// Fills `arguments` into `template`, in the place of every `$ARGUMENTS`.
pub fn substitute_arguments(template: &str, arguments: &str) -> (prompt: String)
    ensures
        prompt@ == substitute(template@, arguments@),
{
    string_of(&replace(&chars_of(template), &chars_of("$ARGUMENTS"), &chars_of(arguments)))
}

/// Makes the prompt from what reading the file gave.
pub fn expand_contents(contents: Option<String>, arguments: &str) -> (prompt: Option<String>)
    ensures
        prompt.deep_view() == expansion(contents.deep_view(), arguments@),
{
    match contents {
        Some(template) => Some(substitute_arguments(template.as_str(), arguments)),
        None => None,
    }
}

/// Expands the line `input` into the prompt of the command it names.
///
/// `read` is asked for the text of one file, the one that `input` resolves
/// to, and is not called where `input` resolves to none. It answers `None`
/// where the file is missing or cannot be read as text.
pub fn expand_custom_command<F: FnOnce(&str) -> Option<String>>(
    input: &str,
    cwd: Option<&str>,
    home: Option<&str>,
    separator: Separator,
    read: F,
) -> (prompt: Option<String>)
    requires
        forall|path: &str| read.requires((path,)),
    ensures
        match resolve(input@, cwd.deep_view(), home.deep_view(), separator) {
            Some(lookup) => exists|path: &str, contents: Option<String>|
                path@ == lookup.path && read.ensures((path,), contents) && prompt.deep_view()
                    == expansion(contents.deep_view(), lookup.arguments),
            None => prompt is None,
        },
{
    match resolve_command(input, cwd, home, separator) {
        Some(lookup) => {
            let contents = read(lookup.path.as_str());
            expand_contents(contents, lookup.arguments.as_str())
        },
        None => None,
    }
}

/// A line that, read without the whitespace around it, does not begin with
/// `/` resolves to nothing.
pub proof fn lemma_no_trigger_no_match(
    input: Seq<char>,
    cwd: Option<Seq<char>>,
    home: Option<Seq<char>>,
    separator: Separator,
)
    requires
        trim(input).len() == 0 || trim(input).first() != TRIGGER,
    ensures
        resolve(input, cwd, home, separator) is None,
{
}

/// A line whose first word names no scope resolves to what the same line
/// resolves to with `project:` put before that word.
pub proof fn lemma_no_scope_means_project(
    rest: Seq<char>,
    cwd: Option<Seq<char>>,
    home: Option<Seq<char>>,
    separator: Separator,
)
    requires
        !before_first(rest, ' ').contains(':'),
    ensures
        resolve(seq![TRIGGER] + rest, cwd, home, separator) == resolve(
            "/project:"@ + rest,
            cwd,
            home,
            separator,
        ),
{
    lemma_scope_defaults_to_project(rest);
}

/// What a line resolves to lies within the commands directory of the scope
/// that the line names.
pub proof fn lemma_resolved_path_lies_within_root(
    input: Seq<char>,
    cwd: Option<Seq<char>>,
    home: Option<Seq<char>>,
    separator: Separator,
)
    ensures
        match resolve(input, cwd, home, separator) {
            Some(lookup) => match parse(input) {
                Some(invocation) => match root_of(invocation.scope, cwd, home, separator) {
                    Some(root) => lies_within(root, lookup.path, separator),
                    None => false,
                },
                None => false,
            },
            None => true,
        },
{
}

/// A name that stands for a relative path that never climbs above the
/// directory it begins in has its prompt in that file below the commands
/// directory of its scope, where the scope has one.
pub proof fn lemma_plain_name_resolves(
    invocation: InvocationView,
    cwd: Option<Seq<char>>,
    home: Option<Seq<char>>,
    separator: Separator,
)
    requires
        !is_absolute(relative_path(invocation.name, separator), separator),
        stays_below(components(relative_path(invocation.name, separator), separator)),
    ensures
        locate(invocation, cwd, home, separator) == match root_of(
            invocation.scope,
            cwd,
            home,
            separator,
        ) {
            Some(root) => Some(
                LookupView {
                    path: join(root, relative_path(invocation.name, separator), separator),
                    arguments: invocation.arguments,
                },
            ),
            None => None,
        },
{
    match root_of(invocation.scope, cwd, home, separator) {
        Some(root) => {
            lemma_adjoined_lies_within(root, relative_path(invocation.name, separator), separator);
        },
        None => {},
    }
}

/// The line made of `/`, a name, a space and arguments resolves to the file
/// of that name below the project's commands directory, and to those
/// arguments less their trailing whitespace. This holds of every name that is
/// not empty, holds neither a space nor `:`, does not end in whitespace, and
/// stands for a relative path that never climbs above the directory it
/// begins in; and where the project's directory is known.
pub proof fn lemma_project_command_resolves(
    name: Seq<char>,
    arguments: Seq<char>,
    cwd: Option<Seq<char>>,
    home: Option<Seq<char>>,
    separator: Separator,
)
    requires
        name.len() > 0,
        !name.contains(' '),
        !name.contains(':'),
        !is_whitespace(name.last()),
        !is_absolute(relative_path(name, separator), separator),
        stays_below(components(relative_path(name, separator), separator)),
        cwd is Some,
    ensures
        resolve(seq![TRIGGER] + name + seq![' '] + arguments, cwd, home, separator) == Some(
            LookupView {
                path: join(
                    commands_root(cwd->0, separator),
                    relative_path(name, separator),
                    separator,
                ),
                arguments: trim_end(arguments),
            },
        ),
{
    lemma_plain_command_line(name, arguments);
    lemma_plain_name_resolves(
        InvocationView { scope: Scope::Project, name, arguments: trim_end(arguments) },
        cwd,
        home,
        separator,
    );
}

/// The line made of `/`, a scope's word, `:`, a name, a space and arguments
/// resolves to the file of that name below the scope's commands directory,
/// and to those arguments less their trailing whitespace. This holds where
/// the scope has a commands directory, of every name that is not empty, holds
/// no space, does not end in whitespace, and stands for a relative path that
/// never climbs above the directory it begins in.
pub proof fn lemma_scoped_command_resolves(
    scope: Scope,
    name: Seq<char>,
    arguments: Seq<char>,
    cwd: Option<Seq<char>>,
    home: Option<Seq<char>>,
    separator: Separator,
)
    requires
        root_of(scope, cwd, home, separator) is Some,
        name.len() > 0,
        !name.contains(' '),
        !is_whitespace(name.last()),
        !is_absolute(relative_path(name, separator), separator),
        stays_below(components(relative_path(name, separator), separator)),
    ensures
        resolve(
            seq![TRIGGER] + scope.word() + seq![':'] + name + seq![' '] + arguments,
            cwd,
            home,
            separator,
        ) == Some(
            LookupView {
                path: join(
                    root_of(scope, cwd, home, separator)->0,
                    relative_path(name, separator),
                    separator,
                ),
                arguments: trim_end(arguments),
            },
        ),
{
    lemma_scoped_command_line(scope, name, arguments);
    lemma_plain_name_resolves(
        InvocationView { scope, name, arguments: trim_end(arguments) },
        cwd,
        home,
        separator,
    );
}

} // verus!
