//! Paths as text: how a directory and a path are joined, where the commands of
//! a scope are kept, which file a command's name stands for, and when a path
//! lies within a directory.
//!
//! A path is read as its components: what stands between its separators.
//! The separator is the caller's, as its platform has it. Where that is `\`,
//! `/` separates as well, as it does on such a platform.

use crate::text::append;
use crate::text::chars_of;
use crate::text::replace;
use crate::text::replace_all;
use crate::text::same_text;
use crate::text::slice;
use crate::text::string_of;
use vstd::prelude::*;

verus! {

/// The character that stands between the components of a path. A platform has
/// one or the other.
#[derive(Clone, Copy, Debug, PartialEq, Eq, Structural)]
pub enum Separator {
    /// `/`
    Slash,
    /// `\`
    Backslash,
}

impl Separator {
    /// The separator as a character, as it is written into a path.
    pub open spec fn symbol(self) -> char {
        match self {
            Separator::Slash => '/',
            Separator::Backslash => '\\',
        }
    }

    /// Whether `c` ends a component of a path: `/` does on every platform,
    /// and `\` where it is the separator.
    pub open spec fn separates(self, c: char) -> bool {
        c == '/' || c == self.symbol()
    }

    /// The separator as a character.
    pub fn as_char(self) -> (c: char)
        ensures
            c == self.symbol(),
    {
        match self {
            Separator::Slash => '/',
            Separator::Backslash => '\\',
        }
    }

    /// Whether `c` ends a component of a path.
    pub fn is_separator(self, c: char) -> (b: bool)
        ensures
            b == self.separates(c),
    {
        c == '/' || c == self.as_char()
    }

    /// The separator that `c` is, if it is one.
    pub fn from_char(c: char) -> (separator: Option<Separator>)
        ensures
            match separator {
                Some(separator) => separator.symbol() == c,
                None => c != '/' && c != '\\',
            },
    {
        if c == '/' {
            Some(Separator::Slash)
        } else if c == '\\' {
            Some(Separator::Backslash)
        } else {
            None
        }
    }
}

/// Whether `path` begins at the root of the file system: with a separator.
pub open spec fn is_absolute(path: Seq<char>, separator: Separator) -> bool {
    path.len() > 0 && separator.separates(path.first())
}

/// `path` adjoined to `base`. An absolute path takes the place of `base`; any
/// other follows `base`, with a separator between the two unless `base` is
/// empty or ends in one.
pub open spec fn join(base: Seq<char>, path: Seq<char>, separator: Separator) -> Seq<char> {
    if is_absolute(path, separator) {
        path
    } else if base.len() == 0 || separator.separates(base.last()) {
        base + path
    } else {
        base + seq![separator.symbol()] + path
    }
}

/// The directory that holds the commands of a scope whose directory is `base`.
pub open spec fn commands_root(base: Seq<char>, separator: Separator) -> Seq<char> {
    join(base, ".codex/commands"@, separator)
}

/// The file that the command `name` stands for, relative to the directory that
/// holds the commands: every `__` of the name is a separator, and `.md` ends it.
pub open spec fn relative_path(name: Seq<char>, separator: Separator) -> Seq<char> {
    replace_all(name, "__"@, seq![separator.symbol()]) + ".md"@
}

/// The component `.`, which stands for the directory it is written in.
pub open spec fn this_directory() -> Seq<char> {
    seq!['.']
}

/// The component `..`, which stands for the directory above.
pub open spec fn parent_directory() -> Seq<char> {
    seq!['.', '.']
}

/// What a stretch of a path between two separators counts for: nothing where
/// it is empty or `.`, else one component.
pub open spec fn counted(stretch: Seq<char>) -> Seq<Seq<char>> {
    if stretch.len() == 0 || stretch == this_directory() {
        Seq::empty()
    } else {
        seq![stretch]
    }
}

/// The components of `begun` followed by `path`, where `begun` is the
/// beginning of a component and holds no separator.
pub open spec fn components_after(
    begun: Seq<char>,
    path: Seq<char>,
    separator: Separator,
) -> Seq<Seq<char>>
    decreases path.len(),
{
    if path.len() == 0 {
        counted(begun)
    } else if separator.separates(path.first()) {
        counted(begun) + components_after(Seq::empty(), path.drop_first(), separator)
    } else {
        components_after(begun.push(path.first()), path.drop_first(), separator)
    }
}

/// The components of `path`: what stands between its separators, with empty
/// stretches and `.` left out.
pub open spec fn components(path: Seq<char>, separator: Separator) -> Seq<Seq<char>> {
    components_after(Seq::empty(), path, separator)
}

/// Where a walk along `list` leads: the components that are left once every
/// `..` has taken back the component before it. A `..` with nothing to take
/// back stays at the root of the file system where the walk is `absolute`,
/// and else is kept, for it leads above where the walk began.
pub open spec fn walked(list: Seq<Seq<char>>, absolute: bool) -> Seq<Seq<char>>
    decreases list.len(),
{
    if list.len() == 0 {
        Seq::empty()
    } else {
        let before = walked(list.drop_last(), absolute);
        if list.last() != parent_directory() {
            before.push(list.last())
        } else if before.len() > 0 && before.last() != parent_directory() {
            before.drop_last()
        } else if absolute {
            before
        } else {
            before.push(parent_directory())
        }
    }
}

/// `path` as the components that it leads to.
pub open spec fn normalized(path: Seq<char>, separator: Separator) -> Seq<Seq<char>> {
    walked(components(path, separator), is_absolute(path, separator))
}

/// Whether a walk along `list` never climbs above where it begins.
pub open spec fn stays_below(list: Seq<Seq<char>>) -> bool {
    !walked(list, false).contains(parent_directory())
}

/// Whether `path` lies within the directory `root`, or is `root` itself: both
/// are absolute or neither is, and where `path` leads begins with where
/// `root` leads.
pub open spec fn lies_within(root: Seq<char>, path: Seq<char>, separator: Separator) -> bool {
    &&& is_absolute(path, separator) == is_absolute(root, separator)
    &&& normalized(root, separator).is_prefix_of(normalized(path, separator))
}

/// `path` adjoined to `base`.
pub(crate) fn joined(base: &Vec<char>, path: &Vec<char>, separator: Separator) -> (out: Vec<char>)
    ensures
        out@ == join(base@, path@, separator),
{
    let mut out: Vec<char> = Vec::new();
    if path.len() > 0 && separator.is_separator(path[0]) {
        append(&mut out, path);
        assert(out@ == path@);
        return out;
    }
    append(&mut out, base);
    assert(out@ == base@);
    if base.len() > 0 && !separator.is_separator(base[base.len() - 1]) {
        out.push(separator.as_char());
    }
    append(&mut out, path);
    out
}

/// The views of the components that `list` holds.
pub open spec fn views(list: Seq<Vec<char>>) -> Seq<Seq<char>> {
    list.map_values(|component: Vec<char>| component@)
}

/// Puts `stretch` at the end of `list` where it counts for a component.
fn count(list: &mut Vec<Vec<char>>, stretch: Vec<char>)
    ensures
        views(final(list)@) == views(old(list)@) + counted(stretch@),
{
    if stretch.len() == 0 || (stretch.len() == 1 && stretch[0] == '.') {
        assert(stretch@.len() == 0 || stretch@ == this_directory());
        assert(views(list@) + Seq::<Seq<char>>::empty() == views(list@));
    } else {
        assert(stretch@ != this_directory()) by {
            if stretch@ == this_directory() {
                assert(stretch@[0] == this_directory()[0]);
            }
        }
        let ghost before = views(list@);
        let ghost added = stretch@;
        list.push(stretch);
        assert(views(list@) == before + seq![added]);
    }
}

/// The components of `path`.
pub(crate) fn components_of(path: &Vec<char>, separator: Separator) -> (list: Vec<Vec<char>>)
    ensures
        views(list@) == components(path@, separator),
{
    let mut list: Vec<Vec<char>> = Vec::new();
    let mut begun: Vec<char> = Vec::new();
    let mut i: usize = 0;
    assert(path@.skip(0) == path@);
    assert(views(list@) + components(path@, separator) == components(path@, separator));
    while i < path.len()
        invariant
            i <= path.len(),
            views(list@) + components_after(begun@, path@.skip(i as int), separator) == components(
                path@,
                separator,
            ),
        decreases path.len() - i,
    {
        let ghost rest = path@.skip(i as int);
        let ghost before = views(list@);
        assert(rest.drop_first() == path@.skip(i + 1));
        if separator.is_separator(path[i]) {
            let ghost after = components_after(Seq::empty(), rest.drop_first(), separator);
            let ghost stretch = counted(begun@);
            count(&mut list, begun);
            begun = Vec::new();
            assert((before + stretch) + after == before + (stretch + after));
        } else {
            begun.push(path[i]);
        }
        i += 1;
    }
    count(&mut list, begun);
    list
}

/// Where a walk along `list` leads.
fn walk_along(list: &Vec<Vec<char>>, absolute: bool) -> (led: Vec<Vec<char>>)
    ensures
        views(led@) == walked(views(list@), absolute),
{
    let mut parent: Vec<char> = Vec::new();
    parent.push('.');
    parent.push('.');
    assert(parent@ == parent_directory());
    let mut led: Vec<Vec<char>> = Vec::new();
    let mut i: usize = 0;
    assert(views(list@).take(0) == Seq::<Seq<char>>::empty());
    assert(views(led@) == Seq::<Seq<char>>::empty());
    while i < list.len()
        invariant
            i <= list.len(),
            parent@ == parent_directory(),
            views(led@) == walked(views(list@).take(i as int), absolute),
        decreases list.len() - i,
    {
        let ghost next = views(list@).take(i + 1);
        let ghost before = views(led@);
        assert(next.drop_last() == views(list@).take(i as int));
        assert(next.last() == list@[i as int]@);
        if !same_text(&list[i], &parent) {
            let component = slice(&list[i], 0, list[i].len());
            assert(component@ == list@[i as int]@);
            led.push(component);
            assert(views(led@) == before.push(list@[i as int]@));
        } else if led.len() > 0 && !same_text(&led[led.len() - 1], &parent) {
            assert(before.last() == led@[led.len() - 1]@);
            led.pop();
            assert(views(led@) == before.drop_last());
        } else if !absolute {
            if led.len() > 0 {
                assert(before.last() == led@[led.len() - 1]@);
            }
            let component = slice(&parent, 0, parent.len());
            assert(component@ == parent_directory());
            led.push(component);
            assert(views(led@) == before.push(parent_directory()));
        } else {
            if led.len() > 0 {
                assert(before.last() == led@[led.len() - 1]@);
            }
        }
        i += 1;
    }
    assert(views(list@).take(list.len() as int) == views(list@));
    led
}

/// Whether `whole` begins with `beginning`, component by component.
fn begins_with(whole: &Vec<Vec<char>>, beginning: &Vec<Vec<char>>) -> (begins: bool)
    ensures
        begins == views(beginning@).is_prefix_of(views(whole@)),
{
    if beginning.len() > whole.len() {
        return false;
    }
    let mut i: usize = 0;
    while i < beginning.len()
        invariant
            i <= beginning.len() <= whole.len(),
            views(beginning@).take(i as int) == views(whole@).take(i as int),
        decreases beginning.len() - i,
    {
        if !same_text(&beginning[i], &whole[i]) {
            proof {
                let first = views(beginning@);
                let all = views(whole@);
                assert(first[i as int] == beginning@[i as int]@);
                assert(all[i as int] == whole@[i as int]@);
                assert(!first.is_prefix_of(all)) by {
                    if first.is_prefix_of(all) {
                        let begin = all.subrange(0, first.len() as int);
                        assert(begin[i as int] == all[i as int]);
                        assert(begin[i as int] == first[i as int]);
                    }
                }
            }
            return false;
        }
        assert(views(beginning@).take(i + 1) == views(beginning@).take(i as int).push(
            beginning@[i as int]@,
        ));
        assert(views(whole@).take(i + 1) == views(whole@).take(i as int).push(whole@[i as int]@));
        i += 1;
    }
    assert(views(beginning@).take(beginning.len() as int) == views(beginning@));
    true
}

/// Whether `path` lies within the directory `root`.
pub(crate) fn stays_within(root: &Vec<char>, path: &Vec<char>, separator: Separator) -> (within:
    bool)
    ensures
        within == lies_within(root@, path@, separator),
{
    let root_absolute = root.len() > 0 && separator.is_separator(root[0]);
    let path_absolute = path.len() > 0 && separator.is_separator(path[0]);
    if root_absolute != path_absolute {
        return false;
    }
    let above = walk_along(&components_of(root, separator), root_absolute);
    let all = walk_along(&components_of(path, separator), path_absolute);
    begins_with(&all, &above)
}

/// `path` adjoined to `base`.
pub fn join_paths(base: &str, path: &str, separator: Separator) -> (whole: String)
    ensures
        whole@ == join(base@, path@, separator),
{
    string_of(&joined(&chars_of(base), &chars_of(path), separator))
}

/// The components of `path`: what stands between its separators, with empty
/// stretches and `.` left out.
pub fn path_components(path: &str, separator: Separator) -> (list: Vec<String>)
    ensures
        list.deep_view() == components(path@, separator),
{
    let found = components_of(&chars_of(path), separator);
    let mut list: Vec<String> = Vec::new();
    let mut i: usize = 0;
    while i < found.len()
        invariant
            i <= found.len(),
            list.len() == i,
            forall|j: int| 0 <= j < i ==> (#[trigger] list@[j])@ == found@[j]@,
        decreases found.len() - i,
    {
        let component = string_of(&found[i]);
        list.push(component);
        i += 1;
    }
    assert(list.deep_view() =~= views(found@));
    list
}

/// Whether `path` lies within the directory `root`.
pub fn path_lies_within(root: &str, path: &str, separator: Separator) -> (within: bool)
    ensures
        within == lies_within(root@, path@, separator),
{
    stays_within(&chars_of(root), &chars_of(path), separator)
}

/// The directory that holds the commands of a scope whose directory is `base`:
/// `.codex/commands` adjoined to `base`.
pub fn commands_dir(base: &str, separator: Separator) -> (root: String)
    ensures
        root@ == commands_root(base@, separator),
{
    string_of(&joined(&chars_of(base), &chars_of(".codex/commands"), separator))
}

/// The file that the command `name` stands for, relative to the directory that
/// holds the commands.
pub fn command_file(name: &str, separator: Separator) -> (file: String)
    ensures
        file@ == relative_path(name@, separator),
{
    string_of(&file_of(&chars_of(name), separator))
}

/// The file that the command whose name is made of `name` stands for.
pub(crate) fn file_of(name: &Vec<char>, separator: Separator) -> (file: Vec<char>)
    ensures
        file@ == relative_path(name@, separator),
{
    let mut with: Vec<char> = Vec::new();
    with.push(separator.as_char());
    assert(with@ == seq![separator.symbol()]);
    let mut file = replace(name, &chars_of("__"), &with);
    append(&mut file, &chars_of(".md"));
    file
}

/// A separator at the end of a path adds no component.
pub proof fn lemma_components_before_separator(
    begun: Seq<char>,
    path: Seq<char>,
    mark: char,
    separator: Separator,
)
    requires
        separator.separates(mark),
    ensures
        components_after(begun, path.push(mark), separator) == components_after(
            begun,
            path,
            separator,
        ),
    decreases path.len(),
{
    let longer = path.push(mark);
    if path.len() == 0 {
        assert(longer.drop_first() == Seq::<char>::empty());
        assert(components_after(Seq::empty(), Seq::empty(), separator) == Seq::<
            Seq<char>,
        >::empty());
        assert(counted(begun) + Seq::<Seq<char>>::empty() == counted(begun));
    } else {
        assert(longer.first() == path.first());
        assert(longer.drop_first() == path.drop_first().push(mark));
        if separator.separates(path.first()) {
            lemma_components_before_separator(Seq::empty(), path.drop_first(), mark, separator);
        } else {
            lemma_components_before_separator(
                begun.push(path.first()),
                path.drop_first(),
                mark,
                separator,
            );
        }
    }
}

/// The components of a path that follows a separator are those of what
/// stands before it and then those of the path.
pub proof fn lemma_components_of_joined(
    begun: Seq<char>,
    head: Seq<char>,
    path: Seq<char>,
    separator: Separator,
)
    requires
        head.len() > 0,
        separator.separates(head.last()),
    ensures
        components_after(begun, head + path, separator) == components_after(
            begun,
            head,
            separator,
        ) + components(path, separator),
    decreases head.len(),
{
    let whole = head + path;
    let rest = head.drop_first();
    assert(whole.first() == head.first());
    assert(whole.drop_first() == rest + path);
    if rest.len() == 0 {
        assert(rest + path == path);
        assert(components_after(Seq::empty(), rest, separator) == Seq::<Seq<char>>::empty());
        assert(counted(begun) + Seq::<Seq<char>>::empty() == counted(begun));
    } else {
        assert(rest.last() == head.last());
        if separator.separates(head.first()) {
            lemma_components_of_joined(Seq::empty(), rest, path, separator);
            let inner = components_after(Seq::empty(), rest, separator);
            assert(counted(begun) + (inner + components(path, separator)) == (counted(begun)
                + inner) + components(path, separator));
        } else {
            lemma_components_of_joined(begun.push(head.first()), rest, path, separator);
        }
    }
}

/// The components of a relative path adjoined to a directory are those of the
/// directory and then those of the path.
pub proof fn lemma_components_of_adjoined(root: Seq<char>, path: Seq<char>, separator: Separator)
    requires
        !is_absolute(path, separator),
    ensures
        components(join(root, path, separator), separator) == components(root, separator)
            + components(path, separator),
        is_absolute(join(root, path, separator), separator) == is_absolute(root, separator),
{
    let none = Seq::<char>::empty();
    if root.len() == 0 {
        assert(root + path == path);
        assert(components(root, separator) + components(path, separator) == components(
            path,
            separator,
        ));
    } else if separator.separates(root.last()) {
        lemma_components_of_joined(none, root, path, separator);
        assert((root + path).first() == root.first());
    } else {
        let head = root.push(separator.symbol());
        assert(root + seq![separator.symbol()] + path == head + path);
        lemma_components_of_joined(none, head, path, separator);
        lemma_components_before_separator(none, root, separator.symbol(), separator);
        assert((head + path).first() == root.first());
    }
}

/// What a walk has climbed above its beginning, it stays above.
pub proof fn lemma_climbed_stays_climbed(list: Seq<Seq<char>>)
    requires
        list.len() > 0,
        !stays_below(list.drop_last()),
    ensures
        !stays_below(list),
{
    let before = walked(list.drop_last(), false);
    let after = walked(list, false);
    let at = choose|at: int| 0 <= at < before.len() && before[at] == parent_directory();
    if list.last() == parent_directory() && before.last() != parent_directory() {
        assert(after[at] == parent_directory());
    } else {
        assert(after[at] == parent_directory());
    }
}

/// A walk that never climbs above its beginning leads the same way wherever
/// it begins: after another walk it leads to where that walk led and then to
/// where it leads by itself.
pub proof fn lemma_walked_on(first: Seq<Seq<char>>, then: Seq<Seq<char>>, absolute: bool)
    requires
        stays_below(then),
    ensures
        walked(first + then, absolute) == walked(first, absolute) + walked(then, false),
    decreases then.len(),
{
    if then.len() == 0 {
        assert(first + then == first);
        assert(walked(first, absolute) + Seq::<Seq<char>>::empty() == walked(first, absolute));
    } else {
        let fewer = then.drop_last();
        if !stays_below(fewer) {
            lemma_climbed_stays_climbed(then);
        }
        lemma_walked_on(first, fewer, absolute);
        assert((first + then).drop_last() == first + fewer);
        assert((first + then).last() == then.last());
        let led = walked(first, absolute);
        let before = walked(fewer, false);
        if then.last() != parent_directory() {
            assert((led + before).push(then.last()) == led + before.push(then.last()));
        } else if before.len() > 0 {
            assert(before.contains(before.last()));
            assert((led + before).last() == before.last());
            assert((led + before).drop_last() == led + before.drop_last());
        } else {
            assert(walked(then, false).contains(walked(then, false).last()));
        }
    }
}

/// A relative path that never climbs above its beginning, adjoined to a
/// directory, lies within that directory.
pub proof fn lemma_adjoined_lies_within(root: Seq<char>, path: Seq<char>, separator: Separator)
    requires
        !is_absolute(path, separator),
        stays_below(components(path, separator)),
    ensures
        lies_within(root, join(root, path, separator), separator),
{
    lemma_components_of_adjoined(root, path, separator);
    lemma_walked_on(
        components(root, separator),
        components(path, separator),
        is_absolute(root, separator),
    );
    let led = normalized(root, separator);
    let all = led + walked(components(path, separator), false);
    assert(all.subrange(0, led.len() as int) == led);
}

} // verus!
