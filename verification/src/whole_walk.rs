//! A walk carried through. Told of every directory what it holds, the walk
//! hands out every directory of the tree once and finds the command of every
//! prompt file in it.

use crate::discover::is_prompt_file;
use crate::discover::start;
use crate::discover::Place;
use crate::discover::Step;
use crate::discover::WalkView;
use crate::path::commands_root;
use crate::path::Separator;
use crate::scope::Scope;
use vstd::prelude::*;

verus! {

/// What stands behind a name in a directory.
pub enum Node {
    /// A file, or anything else that is no directory.
    File,
    /// A directory and its entries, each a name and what stands behind it, in
    /// the order in which they are reported. A directory that is missing or
    /// cannot be read is one without entries.
    Directory(Seq<(Seq<char>, Node)>),
}

/// What a caller reports of one entry.
pub open spec fn report(entry: (Seq<char>, Node)) -> Step {
    Step::Entry { name: entry.0, is_dir: entry.1 is Directory }
}

/// What a caller reports of a directory that holds `entries`.
pub open spec fn reports(entries: Seq<(Seq<char>, Node)>) -> Seq<Step> {
    entries.map_values(|entry: (Seq<char>, Node)| report(entry))
}

/// The steps of a caller from the moment it asks for a directory that holds
/// `entries` until that directory and all below it have been listed.
pub open spec fn steps_through(entries: Seq<(Seq<char>, Node)>) -> Seq<Step>
    decreases entries, entries.len() + 1,
{
    seq![Step::Next] + reports(entries) + steps_through_first(entries, entries.len())
}

/// The steps of a caller through the directories among the first `n` of
/// `entries`, the last of them first.
pub open spec fn steps_through_first(entries: Seq<(Seq<char>, Node)>, n: nat) -> Seq<Step>
    decreases entries, n,
{
    if n == 0 || n > entries.len() {
        Seq::empty()
    } else {
        let inner = match entries[n - 1].1 {
            Node::Directory(inner) => steps_through(inner),
            Node::File => Seq::empty(),
        };
        inner + steps_through_first(entries, (n - 1) as nat)
    }
}

/// The directories among `entries`, which stand in the directory `place`, in
/// order.
pub open spec fn directories_in(
    entries: Seq<(Seq<char>, Node)>,
    place: Place,
    separator: Separator,
) -> Seq<Place>
    decreases entries.len(),
{
    if entries.len() == 0 {
        Seq::empty()
    } else {
        let before = directories_in(entries.drop_last(), place, separator);
        if entries.last().1 is Directory {
            before.push(place.child(entries.last().0, separator))
        } else {
            before
        }
    }
}

/// The commands of the prompt files among `entries`, which stand in the
/// directory `place`, in order.
pub open spec fn commands_in(
    entries: Seq<(Seq<char>, Node)>,
    place: Place,
    separator: Separator,
) -> Seq<Seq<char>>
    decreases entries.len(),
{
    if entries.len() == 0 {
        Seq::empty()
    } else {
        let before = commands_in(entries.drop_last(), place, separator);
        if entries.last().1 is File && is_prompt_file(entries.last().0) {
            before.push(place.command(entries.last().0, separator))
        } else {
            before
        }
    }
}

/// The commands of the prompt files in the directory `place`, which holds
/// `entries`, and in all directories below it: first those of the directory
/// itself, then those of the directories in it, the last of them first.
pub open spec fn commands_through(
    entries: Seq<(Seq<char>, Node)>,
    place: Place,
    separator: Separator,
) -> Seq<Seq<char>>
    decreases entries, entries.len() + 1,
{
    commands_in(entries, place, separator) + commands_through_first(
        entries,
        entries.len(),
        place,
        separator,
    )
}

/// The commands of the prompt files in and below the directories among the
/// first `n` of `entries`, the last of them first.
pub open spec fn commands_through_first(
    entries: Seq<(Seq<char>, Node)>,
    n: nat,
    place: Place,
    separator: Separator,
) -> Seq<Seq<char>>
    decreases entries, n,
{
    if n == 0 || n > entries.len() {
        Seq::empty()
    } else {
        let inner = match entries[n - 1].1 {
            Node::Directory(inner) => commands_through(
                inner,
                place.child(entries[n - 1].0, separator),
                separator,
            ),
            Node::File => Seq::empty(),
        };
        inner + commands_through_first(entries, (n - 1) as nat, place, separator)
    }
}

/// Nothing is found in or below a directory without entries: one that is
/// empty, is missing or cannot be read.
pub proof fn lemma_nothing_below_empty_directory(place: Place, separator: Separator)
    ensures
        commands_through(Seq::empty(), place, separator) == Seq::<Seq<char>>::empty(),
{
}

/// Steps taken one after the other are taken as one run.
pub proof fn lemma_run_of_joined(walk: WalkView, first: Seq<Step>, then: Seq<Step>)
    ensures
        walk.run(first + then) == walk.run(first).run(then),
    decreases first.len(),
{
    if first.len() > 0 {
        assert((first + then).drop_first() == first.drop_first() + then);
        lemma_run_of_joined(walk.step(first.first()), first.drop_first(), then);
    }
}

/// A run of one step is that step.
pub proof fn lemma_run_of_one(walk: WalkView, step: Step)
    ensures
        walk.run(seq![step]) == walk.step(step),
{
    let steps = seq![step];
    assert(steps.drop_first() == Seq::<Step>::empty());
    assert(walk.step(step).run(Seq::<Step>::empty()) == walk.step(step));
}

/// Once a directory has been reported entry by entry, its directories wait
/// to be handed out and the commands of its prompt files are found.
pub proof fn lemma_reported(walk: WalkView, entries: Seq<(Seq<char>, Node)>, place: Place)
    requires
        walk.listing == Some(place),
    ensures
        walk.run(reports(entries)).separator == walk.separator,
        walk.run(reports(entries)).listing == walk.listing,
        walk.run(reports(entries)).pending == walk.pending + directories_in(
            entries,
            place,
            walk.separator,
        ),
        walk.run(reports(entries)).found == walk.found + commands_in(
            entries,
            place,
            walk.separator,
        ),
    decreases entries.len(),
{
    if entries.len() > 0 {
        let front = entries.drop_last();
        let last = report(entries.last());
        lemma_reported(walk, front, place);
        assert(reports(entries) == reports(front) + seq![last]);
        lemma_run_of_joined(walk, reports(front), seq![last]);
        let before = walk.run(reports(front));
        lemma_run_of_one(before, last);
    }
}

/// A caller that asks for the directory `place`, which holds `entries`, and
/// goes through it and all below it leaves waiting what waited before that
/// directory, and has found the commands of the prompt files in and below it.
pub proof fn lemma_gone_through(walk: WalkView, entries: Seq<(Seq<char>, Node)>, place: Place)
    requires
        walk.pending.len() > 0,
        walk.pending.last() == place,
    ensures
        walk.run(steps_through(entries)).separator == walk.separator,
        walk.run(steps_through(entries)).pending == walk.pending.drop_last(),
        walk.run(steps_through(entries)).found == walk.found + commands_through(
            entries,
            place,
            walk.separator,
        ),
    decreases entries, entries.len() + 1,
{
    let below = walk.pending.drop_last();
    let rest = steps_through_first(entries, entries.len());
    let asked = walk.advance();
    let told = asked.run(reports(entries));
    lemma_run_of_one(walk, Step::Next);
    lemma_run_of_joined(walk, seq![Step::Next], reports(entries));
    lemma_run_of_joined(walk, seq![Step::Next] + reports(entries), rest);
    lemma_reported(asked, entries, place);
    assert(entries.take(entries.len() as int) == entries);
    lemma_gone_through_first(told, entries, entries.len(), place, below);
}

/// A caller that goes through the directories among the first `n` of
/// `entries`, which wait on top of `below`, leaves `below` waiting and has
/// found the commands of the prompt files in and below those directories.
pub proof fn lemma_gone_through_first(
    walk: WalkView,
    entries: Seq<(Seq<char>, Node)>,
    n: nat,
    place: Place,
    below: Seq<Place>,
)
    requires
        n <= entries.len(),
        walk.pending == below + directories_in(entries.take(n as int), place, walk.separator),
    ensures
        walk.run(steps_through_first(entries, n)).separator == walk.separator,
        walk.run(steps_through_first(entries, n)).pending == below,
        walk.run(steps_through_first(entries, n)).found == walk.found + commands_through_first(
            entries,
            n,
            place,
            walk.separator,
        ),
    decreases entries, n,
{
    if n > 0 {
        let first = entries.take(n as int);
        let fewer = (n - 1) as nat;
        assert(first.drop_last() == entries.take(fewer as int));
        let waiting = directories_in(entries.take(fewer as int), place, walk.separator);
        let later = steps_through_first(entries, fewer);
        match entries[n - 1].1 {
            Node::Directory(inner) => {
                let child = place.child(entries[n - 1].0, walk.separator);
                assert(walk.pending.drop_last() == below + waiting);
                lemma_gone_through(walk, inner, child);
                let through = walk.run(steps_through(inner));
                lemma_gone_through_first(through, entries, fewer, place, below);
                lemma_run_of_joined(walk, steps_through(inner), later);
            },
            Node::File => {
                lemma_gone_through_first(walk, entries, fewer, place, below);
            },
        }
    }
}

/// The steps of a caller that carries a walk through: it goes through the
/// project's commands directory, which holds `project`, where the project's
/// directory is known, then through the user's, which holds `user`, where the
/// home directory is known, and asks once more.
pub open spec fn whole_walk(
    cwd: Option<Seq<char>>,
    home: Option<Seq<char>>,
    project: Seq<(Seq<char>, Node)>,
    user: Seq<(Seq<char>, Node)>,
) -> Seq<Step> {
    let first = if cwd is Some {
        steps_through(project)
    } else {
        Seq::empty()
    };
    let second = if home is Some {
        steps_through(user)
    } else {
        Seq::empty()
    };
    first + second + seq![Step::Next]
}

/// A scope's commands directory as a place.
pub open spec fn root_place(scope: Scope, base: Seq<char>, separator: Separator) -> Place {
    Place { scope, path: commands_root(base, separator), relative: Seq::empty() }
}

/// What a walk carried through finds: the commands of the prompt files in and
/// below the project's commands directory, then those of the user's.
pub open spec fn all_commands(
    cwd: Option<Seq<char>>,
    home: Option<Seq<char>>,
    separator: Separator,
    project: Seq<(Seq<char>, Node)>,
    user: Seq<(Seq<char>, Node)>,
) -> Seq<Seq<char>> {
    let first = match cwd {
        Some(cwd) => commands_through(
            project,
            root_place(Scope::Project, cwd, separator),
            separator,
        ),
        None => Seq::empty(),
    };
    let second = match home {
        Some(home) => commands_through(user, root_place(Scope::User, home, separator), separator),
        None => Seq::empty(),
    };
    first + second
}

/// A walk carried through ends with no directory waiting and none handed
/// out, and has found the commands of the prompt files in and below the
/// commands directories, the project's before the user's.
pub proof fn lemma_whole_walk(
    cwd: Option<Seq<char>>,
    home: Option<Seq<char>>,
    separator: Separator,
    project: Seq<(Seq<char>, Node)>,
    user: Seq<(Seq<char>, Node)>,
)
    ensures
        start(cwd, home, separator).run(whole_walk(cwd, home, project, user)).pending.len() == 0,
        start(cwd, home, separator).run(whole_walk(cwd, home, project, user)).listing is None,
        start(cwd, home, separator).run(whole_walk(cwd, home, project, user)).found
            == all_commands(cwd, home, separator, project, user),
{
    let begin = start(cwd, home, separator);
    let first = if cwd is Some {
        steps_through(project)
    } else {
        Seq::empty()
    };
    let second = if home is Some {
        steps_through(user)
    } else {
        Seq::empty()
    };
    lemma_run_of_joined(begin, first + second, seq![Step::Next]);
    lemma_run_of_joined(begin, first, second);
    let middle = begin.run(first);
    match cwd {
        Some(base) => {
            lemma_gone_through(begin, project, root_place(Scope::Project, base, separator));
        },
        None => {},
    }
    let end = middle.run(second);
    match home {
        Some(base) => {
            lemma_gone_through(middle, user, root_place(Scope::User, base, separator));
        },
        None => {},
    }
    lemma_run_of_one(end, Step::Next);
}

/// Whether `route` leads to a file from a directory that holds `entries`:
/// the names of directories, each standing in the one before, and at last
/// the name of a file in the last of them.
pub open spec fn leads_to_file(entries: Seq<(Seq<char>, Node)>, route: Seq<Seq<char>>) -> bool
    decreases route.len(),
{
    route.len() > 0 && exists|i: int|
        0 <= i < entries.len() && (#[trigger] entries[i]).0 == route.first() && match entries[i].1 {
            Node::File => route.len() == 1,
            Node::Directory(inner) => route.len() > 1 && leads_to_file(inner, route.drop_first()),
        }
}

/// The directory reached from `place` through the directories `names`, each
/// standing in the one before.
pub open spec fn descend(place: Place, names: Seq<Seq<char>>, separator: Separator) -> Place
    decreases names.len(),
{
    if names.len() == 0 {
        place
    } else {
        descend(place.child(names.first(), separator), names.drop_first(), separator)
    }
}

/// A directory below a directory holds commands of the same scope.
pub proof fn lemma_descend_keeps_scope(place: Place, names: Seq<Seq<char>>, separator: Separator)
    ensures
        descend(place, names, separator).scope == place.scope,
    decreases names.len(),
{
    if names.len() > 0 {
        lemma_descend_keeps_scope(
            place.child(names.first(), separator),
            names.drop_first(),
            separator,
        );
    }
}

/// The command kept in the file that `route` leads to from `place`.
pub open spec fn command_at(place: Place, route: Seq<Seq<char>>, separator: Separator) -> Seq<
    char,
> {
    descend(place, route.drop_last(), separator).command(route.last(), separator)
}

/// The command of a prompt file in a directory is among the commands of the
/// directory.
proof fn lemma_command_in(
    entries: Seq<(Seq<char>, Node)>,
    i: int,
    place: Place,
    separator: Separator,
)
    requires
        0 <= i < entries.len(),
        entries[i].1 is File,
        is_prompt_file(entries[i].0),
    ensures
        commands_in(entries, place, separator).contains(place.command(entries[i].0, separator)),
    decreases entries.len(),
{
    let before = commands_in(entries.drop_last(), place, separator);
    let all = commands_in(entries, place, separator);
    if i == entries.len() - 1 {
        assert(all[all.len() - 1] == place.command(entries[i].0, separator));
    } else {
        lemma_command_in(entries.drop_last(), i, place, separator);
        let at = choose|at: int|
            0 <= at < before.len() && before[at] == place.command(entries[i].0, separator);
        assert(all[at] == before[at]);
    }
}

/// What is found below a directory among the first `n` of a directory's
/// entries is found below those entries.
proof fn lemma_command_through_first(
    entries: Seq<(Seq<char>, Node)>,
    n: nat,
    i: int,
    place: Place,
    separator: Separator,
    command: Seq<char>,
)
    requires
        0 <= i < n <= entries.len(),
        entries[i].1 is Directory,
        commands_through(
            entries[i].1->Directory_0,
            place.child(entries[i].0, separator),
            separator,
        ).contains(command),
    ensures
        commands_through_first(entries, n, place, separator).contains(command),
    decreases n,
{
    let all = commands_through_first(entries, n, place, separator);
    let later = commands_through_first(entries, (n - 1) as nat, place, separator);
    if i == n - 1 {
        let inner = commands_through(
            entries[i].1->Directory_0,
            place.child(entries[i].0, separator),
            separator,
        );
        let at = choose|at: int| 0 <= at < inner.len() && inner[at] == command;
        assert(all[at] == command);
    } else {
        lemma_command_through_first(entries, (n - 1) as nat, i, place, separator, command);
        let at = choose|at: int| 0 <= at < later.len() && later[at] == command;
        assert(all[all.len() - later.len() + at] == command);
    }
}

/// Every prompt file in and below a directory has its command among those
/// that going through the directory finds.
pub proof fn lemma_every_prompt_file_is_found(
    entries: Seq<(Seq<char>, Node)>,
    route: Seq<Seq<char>>,
    place: Place,
    separator: Separator,
)
    requires
        leads_to_file(entries, route),
        is_prompt_file(route.last()),
    ensures
        commands_through(entries, place, separator).contains(command_at(place, route, separator)),
    decreases route.len(),
{
    let command = command_at(place, route, separator);
    let here = commands_in(entries, place, separator);
    let below = commands_through_first(entries, entries.len(), place, separator);
    let i = choose|i: int|
        0 <= i < entries.len() && (#[trigger] entries[i]).0 == route.first() && match entries[i].1 {
            Node::File => route.len() == 1,
            Node::Directory(inner) => route.len() > 1 && leads_to_file(inner, route.drop_first()),
        };
    match entries[i].1 {
        Node::File => {
            lemma_command_in(entries, i, place, separator);
            let at = choose|at: int| 0 <= at < here.len() && here[at] == command;
            assert((here + below)[at] == command);
        },
        Node::Directory(inner) => {
            let child = place.child(entries[i].0, separator);
            let shorter = route.drop_first();
            assert(route.drop_last().drop_first() == shorter.drop_last());
            lemma_every_prompt_file_is_found(inner, shorter, child, separator);
            lemma_command_through_first(entries, entries.len(), i, place, separator, command);
            let at = choose|at: int| 0 <= at < below.len() && below[at] == command;
            assert((here + below)[here.len() + at] == command);
        },
    }
}

/// A command among those of a directory is that of a prompt file in it.
proof fn lemma_file_of_command_in(
    entries: Seq<(Seq<char>, Node)>,
    place: Place,
    separator: Separator,
    command: Seq<char>,
) -> (i: int)
    requires
        commands_in(entries, place, separator).contains(command),
    ensures
        0 <= i < entries.len(),
        entries[i].1 is File,
        is_prompt_file(entries[i].0),
        command == place.command(entries[i].0, separator),
    decreases entries.len(),
{
    let all = commands_in(entries, place, separator);
    let before = commands_in(entries.drop_last(), place, separator);
    let at = choose|at: int| 0 <= at < all.len() && all[at] == command;
    if at < before.len() {
        let i = lemma_file_of_command_in(entries.drop_last(), place, separator, command);
        i
    } else {
        entries.len() - 1
    }
}

/// A command found below the directories among the first `n` of a
/// directory's entries is found below one of them.
proof fn lemma_file_through_first(
    entries: Seq<(Seq<char>, Node)>,
    n: nat,
    place: Place,
    separator: Separator,
    command: Seq<char>,
) -> (found: (int, Seq<Seq<char>>))
    requires
        n <= entries.len(),
        commands_through_first(entries, n, place, separator).contains(command),
    ensures
        0 <= found.0 < n,
        entries[found.0].1 is Directory,
        leads_to_file(entries[found.0].1->Directory_0, found.1),
        is_prompt_file(found.1.last()),
        command == command_at(place.child(entries[found.0].0, separator), found.1, separator),
    decreases entries, n,
{
    let all = commands_through_first(entries, n, place, separator);
    let later = commands_through_first(entries, (n - 1) as nat, place, separator);
    let at = choose|at: int| 0 <= at < all.len() && all[at] == command;
    let first = all.len() - later.len();
    if at < first {
        let inner = entries[n - 1].1->Directory_0;
        let child = place.child(entries[n - 1].0, separator);
        let route = lemma_every_command_has_its_file(inner, child, separator, command);
        (n - 1, route)
    } else {
        lemma_file_through_first(entries, (n - 1) as nat, place, separator, command)
    }
}

/// Every command that going through a directory finds is that of a prompt
/// file in or below the directory: the lemma gives a route to the file.
pub proof fn lemma_every_command_has_its_file(
    entries: Seq<(Seq<char>, Node)>,
    place: Place,
    separator: Separator,
    command: Seq<char>,
) -> (route: Seq<Seq<char>>)
    requires
        commands_through(entries, place, separator).contains(command),
    ensures
        leads_to_file(entries, route),
        is_prompt_file(route.last()),
        command == command_at(place, route, separator),
    decreases entries, entries.len() + 1,
{
    let here = commands_in(entries, place, separator);
    let below = commands_through_first(entries, entries.len(), place, separator);
    let at = choose|at: int| 0 <= at < (here + below).len() && (here + below)[at] == command;
    if at < here.len() {
        let i = lemma_file_of_command_in(entries, place, separator, command);
        let route = seq![entries[i].0];
        route
    } else {
        let (i, inner) = lemma_file_through_first(
            entries,
            entries.len(),
            place,
            separator,
            command,
        );
        let route = seq![entries[i].0] + inner;
        assert(route.drop_first() == inner);
        assert(route.drop_last().drop_first() == inner.drop_last());
        route
    }
}

} // verus!
