//! Listing and resolving agree: the command that a prompt file is listed as
//! resolves to that file.

use crate::discover::command_name;
use crate::discover::is_prompt_file;
use crate::discover::listed;
use crate::discover::Place;
use crate::invocation::TRIGGER;
use crate::path::components;
use crate::path::join;
use crate::path::relative_path;
use crate::path::stays_below;
use crate::path::Separator;
use crate::resolve::lemma_scoped_command_resolves;
use crate::resolve::resolve;
use crate::resolve::root_of;
use crate::resolve::LookupView;
use crate::scope::Scope;
use crate::text::ascii_lower;
use crate::text::is_whitespace;
use crate::text::lemma_replace_all_without_occurrence;
use crate::text::occurs_at;
use crate::text::replace_all;
use crate::text::trim_end;
use crate::text_lemmas::lemma_lowercase_of_small;
use crate::text_lemmas::lemma_replace_char_keeps;
use crate::text_lemmas::lemma_replace_char_of_joined;
use crate::text_lemmas::lemma_replace_char_of_one;
use crate::text_lemmas::lemma_strip_suffix_of_joined;
use crate::whole_walk::command_at;
use crate::whole_walk::descend;
use crate::whole_walk::lemma_descend_keeps_scope;
use vstd::prelude::*;

verus! {

/// Whether every `_` of `path` precedes a plain character, one that is
/// neither `_` nor a separator, or ends the path.
pub open spec fn underscores_precede_plain(path: Seq<char>, separator: Separator) -> bool {
    forall|i: int|
        0 <= i < path.len() - 1 && #[trigger] path[i] == '_' ==> path[i + 1] != '_' && path[i + 1]
            != separator.symbol()
}

/// A path whose underscores precede plain characters comes back when its
/// separators are written as `__` and every `__` is then read as a separator.
pub proof fn lemma_separators_come_back(path: Seq<char>, separator: Separator)
    requires
        underscores_precede_plain(path, separator),
    ensures
        replace_all(
            replace_all(path, seq![separator.symbol()], "__"@),
            "__"@,
            seq![separator.symbol()],
        ) == path,
    decreases path.len(),
{
    reveal_strlit("__");
    let mark = seq![separator.symbol()];
    let under = "__"@;
    let flat = replace_all(path, mark, under);
    if path.len() == 0 {
        assert(replace_all(flat, under, mark) == flat);
    } else {
        let rest = path.drop_first();
        assert(underscores_precede_plain(rest, separator));
        lemma_separators_come_back(rest, separator);
        let flat_rest = replace_all(rest, mark, under);
        if mark.is_prefix_of(path) {
            assert(path.subrange(0, 1)[0] == mark[0]);
        }
        if path[0] == separator.symbol() {
            assert(flat == under + flat_rest);
            assert(flat.skip(2) == flat_rest);
        } else {
            assert(flat == seq![path[0]] + flat_rest);
            assert(flat.drop_first() == flat_rest);
            assert(!under.is_prefix_of(flat)) by {
                if under.is_prefix_of(flat) {
                    assert(flat.subrange(0, 2)[0] == under[0]);
                    assert(flat.subrange(0, 2)[1] == under[1]);
                    assert(rest.len() > 0);
                    assert(rest[0] != '_' && rest[0] != separator.symbol());
                    assert(flat[1] == flat_rest[0]);
                }
            }
        }
    }
}

/// The command that the prompt file `stem` with `.md` after it is listed as,
/// written after `/` and followed by arguments, resolves to that file below
/// the scope's commands directory.
///
/// This holds where the scope has a commands directory, of every path that is
/// relative and not empty, holds neither an ASCII capital nor a space, does
/// not end in whitespace, never climbs above the directory it begins in, and
/// whose underscores precede plain characters.
pub proof fn lemma_listed_command_resolves_to_its_file(
    scope: Scope,
    stem: Seq<char>,
    arguments: Seq<char>,
    cwd: Option<Seq<char>>,
    home: Option<Seq<char>>,
    separator: Separator,
)
    requires
        root_of(scope, cwd, home, separator) is Some,
        stem.len() > 0,
        !separator.separates(stem.first()),
        forall|i: int| 0 <= i < stem.len() ==> ascii_lower(#[trigger] stem[i]) == stem[i],
        !stem.contains(' '),
        !is_whitespace(stem.last()),
        underscores_precede_plain(stem, separator),
        stays_below(components(stem + ".md"@, separator)),
    ensures
        command_name(stem + ".md"@, separator) == replace_all(
            stem,
            seq![separator.symbol()],
            "__"@,
        ),
        relative_path(command_name(stem + ".md"@, separator), separator) == stem + ".md"@,
        resolve(
            seq![TRIGGER] + listed(scope, command_name(stem + ".md"@, separator)) + seq![' ']
                + arguments,
            cwd,
            home,
            separator,
        ) == Some(
            LookupView {
                path: join(root_of(scope, cwd, home, separator)->0, stem + ".md"@, separator),
                arguments: trim_end(arguments),
            },
        ),
{
    reveal_strlit("__");
    reveal_strlit(".md");
    let mark = seq![separator.symbol()];
    let under = "__"@;
    let ending = ".md"@;
    let file = stem + ending;
    let flat = replace_all(stem, mark, under);
    // The name is the path with `__` for each separator.
    assert(replace_all(ending, mark, under) == ending) by {
        assert forall|i: int| !occurs_at(ending, mark, i) by {
            if occurs_at(ending, mark, i) {
                assert(ending.subrange(i, i + 1)[0] == mark[0]);
            }
        }
        lemma_replace_all_without_occurrence(ending, mark, under);
    }
    lemma_replace_char_of_joined(stem, ending, separator.symbol(), under);
    lemma_strip_suffix_of_joined(flat, ending);
    lemma_replace_char_keeps(stem, separator.symbol(), under, |c: char| ascii_lower(c) == c);
    lemma_lowercase_of_small(flat);
    let name = command_name(file, separator);
    // The name stands for the path.
    lemma_separators_come_back(stem, separator);
    // The name can be written in a command line.
    assert(!name.contains(' ')) by {
        lemma_replace_char_keeps(stem, separator.symbol(), under, |c: char| c != ' ');
    }
    assert(!is_whitespace(name.last())) by {
        let last = seq![stem.last()];
        assert(stem == stem.drop_last() + last);
        lemma_replace_char_of_joined(stem.drop_last(), last, separator.symbol(), under);
        lemma_replace_char_of_one(stem.last(), separator.symbol(), under);
    }
    lemma_scoped_command_resolves(scope, name, arguments, cwd, home, separator);
    assert(seq![TRIGGER] + listed(scope, name) + seq![' '] + arguments == seq![TRIGGER]
        + scope.word() + seq![':'] + name + seq![' '] + arguments);
}

/// Whether `name` can be the name of an entry of a directory: it is not
/// empty and holds nothing that separates components.
pub open spec fn is_entry_name(name: Seq<char>, separator: Separator) -> bool {
    &&& name.len() > 0
    &&& forall|i: int| 0 <= i < name.len() ==> !separator.separates(#[trigger] name[i])
}

/// The path below the commands directory of the file that `route` leads to.
pub open spec fn relative_at(place: Place, route: Seq<Seq<char>>, separator: Separator) -> Seq<
    char,
> {
    join(descend(place, route.drop_last(), separator).relative, route.last(), separator)
}

/// The path at which the file that `route` leads to is read: its name,
/// adjoined to the path at which its directory was handed out.
pub open spec fn path_at(place: Place, route: Seq<Seq<char>>, separator: Separator) -> Seq<char> {
    join(descend(place, route.drop_last(), separator).path, route.last(), separator)
}

/// Whether the directory `place` is read where its path below `root` says:
/// at `root` itself, or at that path adjoined to `root`; and that path, where
/// it is not empty, neither begins nor ends with a separator.
pub open spec fn is_below(place: Place, root: Seq<char>, separator: Separator) -> bool {
    if place.relative.len() == 0 {
        place.path == root
    } else {
        &&& place.path == join(root, place.relative, separator)
        &&& !separator.separates(place.relative.first())
        &&& !separator.separates(place.relative.last())
    }
}

/// An entry's name adjoined where its directory is read is the entry's path
/// below the root adjoined to the root.
proof fn lemma_entry_below(place: Place, root: Seq<char>, name: Seq<char>, separator: Separator)
    requires
        root.len() > 0,
        !separator.separates(root.last()),
        is_below(place, root, separator),
        is_entry_name(name, separator),
    ensures
        join(place.path, name, separator) == join(
            root,
            join(place.relative, name, separator),
            separator,
        ),
        is_below(place.child(name, separator), root, separator),
        join(place.relative, name, separator).len() > 0,
        !separator.separates(join(place.relative, name, separator).first()),
{
    assert(!separator.separates(name.first()) && !separator.separates(name.last()));
    if place.relative.len() > 0 {
        let longer = place.relative + seq![separator.symbol()] + name;
        assert(join(place.relative, name, separator) == longer);
        assert(longer.first() == place.relative.first());
        assert(longer.last() == name.last());
    } else {
        assert(join(place.relative, name, separator) == name);
    }
}

/// The file that a route of entry names leads to is read at its path below
/// the root, adjoined to the root.
proof fn lemma_route_below(
    place: Place,
    root: Seq<char>,
    route: Seq<Seq<char>>,
    separator: Separator,
)
    requires
        root.len() > 0,
        !separator.separates(root.last()),
        is_below(place, root, separator),
        route.len() > 0,
        forall|i: int| 0 <= i < route.len() ==> is_entry_name(#[trigger] route[i], separator),
    ensures
        path_at(place, route, separator) == join(
            root,
            relative_at(place, route, separator),
            separator,
        ),
        relative_at(place, route, separator).len() > 0,
        !separator.separates(relative_at(place, route, separator).first()),
    decreases route.len(),
{
    if route.len() > 1 {
        let child = place.child(route.first(), separator);
        let shorter = route.drop_first();
        lemma_entry_below(place, root, route.first(), separator);
        assert(route.drop_last().drop_first() == shorter.drop_last());
        lemma_route_below(child, root, shorter, separator);
    }
}

/// The command that a walk finds for a prompt file, written after `/` and
/// followed by arguments, resolves to the path at which the file is read.
///
/// `route` leads from the commands directory of `scope` to the file: the
/// names of the directories on the way and the name of the file; `stem` is
/// the path that the route makes below the commands directory, less its
/// ending `.md`. This holds where the scope has a commands directory and
/// every name of the route can be the name of an entry, of every stem that
/// holds neither an ASCII capital nor a space, does not end in whitespace,
/// never climbs above the directory it begins in, and has its underscores
/// preceding plain characters.
pub proof fn lemma_found_command_resolves_to_its_file(
    scope: Scope,
    route: Seq<Seq<char>>,
    stem: Seq<char>,
    arguments: Seq<char>,
    cwd: Option<Seq<char>>,
    home: Option<Seq<char>>,
    separator: Separator,
)
    requires
        root_of(scope, cwd, home, separator) is Some,
        route.len() > 0,
        forall|i: int| 0 <= i < route.len() ==> is_entry_name(#[trigger] route[i], separator),
        is_prompt_file(route.last()),
        relative_at(
            Place {
                scope,
                path: root_of(scope, cwd, home, separator)->0,
                relative: Seq::empty(),
            },
            route,
            separator,
        ) == stem + ".md"@,
        stem.len() > 0,
        forall|i: int| 0 <= i < stem.len() ==> ascii_lower(#[trigger] stem[i]) == stem[i],
        !stem.contains(' '),
        !is_whitespace(stem.last()),
        underscores_precede_plain(stem, separator),
        stays_below(components(stem + ".md"@, separator)),
    ensures
        ({
            let root = Place {
                scope,
                path: root_of(scope, cwd, home, separator)->0,
                relative: Seq::empty(),
            };
            resolve(
                seq![TRIGGER] + command_at(root, route, separator) + seq![' '] + arguments,
                cwd,
                home,
                separator,
            ) == Some(
                LookupView {
                    path: path_at(root, route, separator),
                    arguments: trim_end(arguments),
                },
            )
        }),
{
    reveal_strlit(".codex/commands");
    let directory = root_of(scope, cwd, home, separator)->0;
    let root = Place { scope, path: directory, relative: Seq::empty() };
    lemma_route_below(root, directory, route, separator);
    lemma_descend_keeps_scope(root, route.drop_last(), separator);
    lemma_listed_command_resolves_to_its_file(scope, stem, arguments, cwd, home, separator);
}

} // verus!
