//! Finding the commands that exist: how a file below a commands directory is
//! named as a command, and the walk that visits the directories.
//!
//! The walk decides and its caller reads. The walk hands out one directory at
//! a time; the caller lists that directory and reports each entry it could
//! read; the walk notes the prompt files and keeps the directories for later.

use crate::path::commands_dir;
use crate::path::commands_root;
use crate::path::join;
use crate::path::joined;
use crate::path::Separator;
use crate::scope::Scope;
use crate::text::append;
use crate::text::chars_of;
use crate::text::ends_with;
use crate::text::lowercased;
use crate::text::replace;
use crate::text::replace_all;
use crate::text::slice;
use crate::text::string_of;
use crate::text::strip_suffix;
use crate::text::to_ascii_lowercase;
use vstd::prelude::*;

verus! {

/// Whether a file called `name` holds a prompt: the name ends in `.md`, and
/// something stands before that ending.
pub open spec fn is_prompt_file(name: Seq<char>) -> bool {
    name.len() > 3 && ".md"@.is_suffix_of(name)
}

/// The name of the command kept in the file `relative`, a path below the
/// directory that holds the commands: every separator becomes `__`, the
/// ending `.md` is left out, and ASCII capitals become small letters.
pub open spec fn command_name(relative: Seq<char>, separator: Separator) -> Seq<char> {
    to_ascii_lowercase(
        strip_suffix(replace_all(relative, seq![separator.symbol()], "__"@), ".md"@),
    )
}

/// A command as it is listed: the scope's word, `:`, and the command's name.
pub open spec fn listed(scope: Scope, name: Seq<char>) -> Seq<char> {
    scope.word() + seq![':'] + name
}

/// A directory of a walk.
pub struct Place {
    /// The scope whose commands the directory holds.
    pub scope: Scope,
    /// The directory's path, at which it can be read.
    pub path: Seq<char>,
    /// The directory's path below the scope's commands directory, which is
    /// itself at the empty path.
    pub relative: Seq<char>,
}

impl Place {
    /// The directory called `name` that stands in this one.
    pub open spec fn child(self, name: Seq<char>, separator: Separator) -> Place {
        Place {
            scope: self.scope,
            path: join(self.path, name, separator),
            relative: join(self.relative, name, separator),
        }
    }

    /// The command kept in the file called `name` that stands in this
    /// directory, as it is listed.
    pub open spec fn command(self, name: Seq<char>, separator: Separator) -> Seq<char> {
        listed(self.scope, command_name(join(self.relative, name, separator), separator))
    }
}

/// The state of a walk.
pub struct WalkView {
    /// The separator that paths are made with.
    pub separator: Separator,
    /// The directories not yet handed out; the last is handed out next.
    pub pending: Seq<Place>,
    /// The directory that was handed out last, whose entries are awaited.
    pub listing: Option<Place>,
    /// The commands found so far, as they are listed.
    pub found: Seq<Seq<char>>,
}

/// What happens in a walk: the next directory is handed out, or an entry of
/// the directory handed out last is reported.
pub enum Step {
    /// The caller asks for the next directory.
    Next,
    /// The caller reports an entry: its name, and whether it is a directory.
    Entry { name: Seq<char>, is_dir: bool },
}

/// Whether `entry` is listed as a command of `scope`.
pub open spec fn is_listed_under(scope: Scope, entry: Seq<char>) -> bool {
    (scope.word() + seq![':']).is_prefix_of(entry)
}

/// The directories that a walk begins with: the project's commands directory
/// where the project's directory is known, and before it the user's where the
/// home directory is known, so that the project's is handed out first.
pub open spec fn roots(
    cwd: Option<Seq<char>>,
    home: Option<Seq<char>>,
    separator: Separator,
) -> Seq<Place> {
    let user = match home {
        Some(home) => seq![
            Place {
                scope: Scope::User,
                path: commands_root(home, separator),
                relative: Seq::empty(),
            },
        ],
        None => Seq::empty(),
    };
    let project = match cwd {
        Some(cwd) => seq![
            Place {
                scope: Scope::Project,
                path: commands_root(cwd, separator),
                relative: Seq::empty(),
            },
        ],
        None => Seq::empty(),
    };
    user + project
}

/// The state in which a walk begins.
pub open spec fn start(
    cwd: Option<Seq<char>>,
    home: Option<Seq<char>>,
    separator: Separator,
) -> WalkView {
    WalkView {
        separator,
        pending: roots(cwd, home, separator),
        listing: None,
        found: Seq::empty(),
    }
}

impl WalkView {
    /// The directory that is handed out next, if any is left.
    pub open spec fn next(self) -> Option<Place> {
        if self.pending.len() > 0 {
            Some(self.pending.last())
        } else {
            None
        }
    }

    /// The state after the next directory was handed out. What was not
    /// reported of the directory handed out before is given up.
    pub open spec fn advance(self) -> WalkView {
        if self.pending.len() > 0 {
            WalkView { pending: self.pending.drop_last(), listing: self.next(), ..self }
        } else {
            WalkView { listing: None, ..self }
        }
    }

    /// The state after an entry called `name` was reported of the directory
    /// that was handed out last. A directory is kept for later, under the
    /// scope of the one it stands in. A file that holds a prompt is noted as
    /// a command of that scope. Any other entry, and any entry reported
    /// while no directory is handed out, leaves the state as it is.
    pub open spec fn record(self, name: Seq<char>, is_dir: bool) -> WalkView {
        match self.listing {
            Some(place) => {
                if is_dir {
                    WalkView {
                        pending: self.pending.push(place.child(name, self.separator)),
                        ..self
                    }
                } else if is_prompt_file(name) {
                    WalkView {
                        found: self.found.push(place.command(name, self.separator)),
                        ..self
                    }
                } else {
                    self
                }
            },
            None => self,
        }
    }

    /// The state after `step`.
    pub open spec fn step(self, step: Step) -> WalkView {
        match step {
            Step::Next => self.advance(),
            Step::Entry { name, is_dir } => self.record(name, is_dir),
        }
    }

    /// The state after `steps`, one after the other.
    pub open spec fn run(self, steps: Seq<Step>) -> WalkView
        decreases steps.len(),
    {
        if steps.len() == 0 {
            self
        } else {
            self.step(steps.first()).run(steps.drop_first())
        }
    }

    /// Whether a directory of `scope` waits to be handed out.
    pub open spec fn awaits(self, scope: Scope) -> bool {
        exists|i: int| 0 <= i < self.pending.len() && self.pending[i].scope == scope
    }

    /// Whether a directory of `scope` is being listed.
    pub open spec fn lists(self, scope: Scope) -> bool {
        match self.listing {
            Some(place) => place.scope == scope,
            None => false,
        }
    }
}

/// Whether a file called `name` holds a prompt.
pub(crate) fn holds_prompt(name: &Vec<char>) -> (b: bool)
    ensures
        b == is_prompt_file(name@),
{
    name.len() > 3 && ends_with(name, &chars_of(".md"))
}

/// The name of the command kept in the file `relative`.
pub(crate) fn name_of(relative: &Vec<char>, separator: Separator) -> (name: Vec<char>)
    ensures
        name@ == command_name(relative@, separator),
{
    let mut pattern: Vec<char> = Vec::new();
    pattern.push(separator.as_char());
    let flat = replace(relative, &pattern, &chars_of("__"));
    let ending = chars_of(".md");
    let stem = if ends_with(&flat, &ending) {
        slice(&flat, 0, flat.len() - ending.len())
    } else {
        flat
    };
    lowercased(&stem)
}

/// Whether a file called `name` holds a prompt.
pub fn is_prompt_file_name(name: &str) -> (b: bool)
    ensures
        b == is_prompt_file(name@),
{
    holds_prompt(&chars_of(name))
}

/// The name of the command kept in the file `relative`, a path below the
/// directory that holds the commands.
pub fn command_name_of(relative: &str, separator: Separator) -> (name: String)
    ensures
        name@ == command_name(relative@, separator),
{
    string_of(&name_of(&chars_of(relative), separator))
}

/// The command `name` of `scope` as it is listed.
pub(crate) fn listed_command(scope: Scope, name: &Vec<char>) -> (entry: String)
    ensures
        entry@ == listed(scope, name@),
{
    let mut entry = chars_of(scope.as_str());
    entry.push(':');
    append(&mut entry, name);
    string_of(&entry)
}

/// A directory of a walk, as the walk keeps it.
struct Directory {
    scope: Scope,
    path: Vec<char>,
    relative: Vec<char>,
}

impl View for Directory {
    type V = Place;

    closed spec fn view(&self) -> Place {
        Place { scope: self.scope, path: self.path@, relative: self.relative@ }
    }
}

/// A walk through the commands directories of the project and of the user.
pub struct Walk {
    separator: Separator,
    pending: Vec<Directory>,
    listing: Option<Directory>,
    found: Vec<String>,
}

impl View for Walk {
    type V = WalkView;

    closed spec fn view(&self) -> WalkView {
        WalkView {
            separator: self.separator,
            pending: self.pending@.map_values(|d: Directory| d@),
            listing: match self.listing {
                Some(d) => Some(d@),
                None => None,
            },
            found: self.found.deep_view(),
        }
    }
}

impl Walk {
    /// Begins a walk. `cwd` is the project's directory and `home` the user's
    /// home directory, each where it is known.
    pub fn start(cwd: Option<&str>, home: Option<&str>, separator: Separator) -> (walk: Walk)
        ensures
            walk@ == start(cwd.deep_view(), home.deep_view(), separator),
    {
        let mut pending: Vec<Directory> = Vec::new();
        if let Some(home) = home {
            pending.push(
                Directory {
                    scope: Scope::User,
                    path: chars_of(commands_dir(home, separator).as_str()),
                    relative: Vec::new(),
                },
            );
        }
        if let Some(cwd) = cwd {
            pending.push(
                Directory {
                    scope: Scope::Project,
                    path: chars_of(commands_dir(cwd, separator).as_str()),
                    relative: Vec::new(),
                },
            );
        }
        let walk = Walk { separator, pending, listing: None, found: Vec::new() };
        assert(walk@.pending == roots(cwd.deep_view(), home.deep_view(), separator));
        assert(walk@.found == Seq::<Seq<char>>::empty());
        walk
    }

    /// Hands out the next directory to list, by its path; `None` when the
    /// walk is over.
    pub fn next_directory(&mut self) -> (path: Option<String>)
        ensures
            final(self)@ == old(self)@.advance(),
            path.deep_view() == match old(self)@.next() {
                Some(place) => Some(place.path),
                None => None,
            },
    {
        match self.pending.pop() {
            Some(directory) => {
                let path = string_of(&directory.path);
                self.listing = Some(directory);
                assert(self@.pending == old(self)@.pending.drop_last());
                Some(path)
            },
            None => {
                self.listing = None;
                None
            },
        }
    }

    /// Takes note of one entry of the directory that was handed out last:
    /// its name, and whether it is a directory.
    pub fn record_entry(&mut self, name: &str, is_dir: bool)
        ensures
            final(self)@ == old(self)@.record(name@, is_dir),
    {
        let name = chars_of(name);
        match &self.listing {
            Some(place) => {
                if is_dir {
                    let child = Directory {
                        scope: place.scope,
                        path: joined(&place.path, &name, self.separator),
                        relative: joined(&place.relative, &name, self.separator),
                    };
                    self.pending.push(child);
                    assert(self@.pending == old(self)@.pending.push(child@));
                } else if holds_prompt(&name) {
                    let relative = joined(&place.relative, &name, self.separator);
                    let entry = listed_command(place.scope, &name_of(&relative, self.separator));
                    self.found.push(entry);
                    assert(self@.found == old(self)@.found.push(entry@));
                }
            },
            None => {},
        }
    }

    /// Ends the walk and gives the commands it found, in the order in which
    /// they were found.
    pub fn finish(self) -> (commands: Vec<String>)
        ensures
            commands.deep_view() == self@.found,
    {
        self.found
    }
}

/// A command is listed under its own scope and under no other.
pub proof fn lemma_listed_under_own_scope(scope: Scope, name: Seq<char>, other: Scope)
    ensures
        is_listed_under(other, listed(scope, name)) == (other == scope),
{
    reveal_strlit("project");
    reveal_strlit("user");
    let entry = listed(scope, name);
    let lead = other.word() + seq![':'];
    if other != scope && lead.is_prefix_of(entry) {
        assert(entry.subrange(0, lead.len() as int)[0] == lead[0]);
    }
}

/// What a walk has found stays found, in its place.
pub proof fn lemma_found_stays(walk: WalkView, steps: Seq<Step>)
    ensures
        walk.found.is_prefix_of(walk.run(steps).found),
    decreases steps.len(),
{
    if steps.len() > 0 {
        let next = walk.step(steps.first());
        lemma_found_stays(next, steps.drop_first());
    }
}

/// A scope none of whose directories waits or is being listed gains no
/// command, whatever happens in the walk.
pub proof fn lemma_scope_without_directory_gains_nothing(
    walk: WalkView,
    steps: Seq<Step>,
    scope: Scope,
)
    requires
        !walk.awaits(scope),
        !walk.lists(scope),
    ensures
        !walk.run(steps).awaits(scope),
        !walk.run(steps).lists(scope),
        forall|i: int|
            walk.found.len() <= i < walk.run(steps).found.len() ==> !is_listed_under(
                scope,
                #[trigger] walk.run(steps).found[i],
            ),
    decreases steps.len(),
{
    if steps.len() > 0 {
        let next = walk.step(steps.first());
        let last = next.run(steps.drop_first());
        lemma_scope_without_directory_gains_nothing(next, steps.drop_first(), scope);
        lemma_found_stays(next, steps.drop_first());
        assert forall|i: int| walk.found.len() <= i < last.found.len() implies !is_listed_under(
            scope,
            #[trigger] last.found[i],
        ) by {
            if i < next.found.len() {
                assert(last.found[i] == last.found.subrange(0, next.found.len() as int)[i]);
                match walk.listing {
                    Some(place) => {
                        match steps.first() {
                            Step::Entry { name, is_dir } => {
                                lemma_listed_under_own_scope(
                                    place.scope,
                                    command_name(
                                        join(place.relative, name, walk.separator),
                                        walk.separator,
                                    ),
                                    scope,
                                );
                            },
                            Step::Next => {},
                        }
                    },
                    None => {},
                }
            }
        }
    }
}

/// A scope whose commands directory is not known gains no command.
pub proof fn lemma_unknown_directory_gains_nothing(
    cwd: Option<Seq<char>>,
    home: Option<Seq<char>>,
    separator: Separator,
    steps: Seq<Step>,
)
    ensures
        cwd is None ==> forall|i: int|
            0 <= i < start(cwd, home, separator).run(steps).found.len() ==> !is_listed_under(
                Scope::Project,
                #[trigger] start(cwd, home, separator).run(steps).found[i],
            ),
        home is None ==> forall|i: int|
            0 <= i < start(cwd, home, separator).run(steps).found.len() ==> !is_listed_under(
                Scope::User,
                #[trigger] start(cwd, home, separator).run(steps).found[i],
            ),
{
    let walk = start(cwd, home, separator);
    if cwd is None {
        lemma_scope_without_directory_gains_nothing(walk, steps, Scope::Project);
    }
    if home is None {
        lemma_scope_without_directory_gains_nothing(walk, steps, Scope::User);
    }
}

/// A directory of which no entry is reported gives its scope no command; and
/// where no other directory of the scope waits, the scope gains none from
/// then on. So it is with a commands directory that is empty, is missing or
/// cannot be read.
pub proof fn lemma_unlisted_directory_gains_nothing(
    walk: WalkView,
    steps: Seq<Step>,
    scope: Scope,
)
    requires
        !walk.awaits(scope),
        steps.len() == 0 || steps.first() is Next,
    ensures
        forall|i: int|
            walk.found.len() <= i < walk.run(steps).found.len() ==> !is_listed_under(
                scope,
                #[trigger] walk.run(steps).found[i],
            ),
{
    if steps.len() > 0 {
        let next = walk.advance();
        lemma_scope_without_directory_gains_nothing(next, steps.drop_first(), scope);
    }
}

} // verus!
