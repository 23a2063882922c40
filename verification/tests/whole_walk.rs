use slash_commands::discover::command_name_of;
use slash_commands::discover::is_prompt_file_name;
use slash_commands::discover::Walk;
use slash_commands::path::join_paths;
use slash_commands::path::Separator;
use slash_commands::resolve::resolve_command;
use std::collections::HashMap;

/// What stands behind a name in a directory.
enum Node {
    File,
    Directory(Vec<(String, Node)>),
}

/// Numbers that look random and are the same in every run.
struct Numbers(u64);

impl Numbers {
    fn next(&mut self, below: u64) -> u64 {
        self.0 = self.0.wrapping_mul(6364136223846793005).wrapping_add(1442695040888963407);
        (self.0 >> 33) % below
    }
}

const NAMES: [&str; 14] = [
    "a", "b.md", "Fix.md", "notes.txt", "x_y.md", "nested", "deep.md", "README", ".md", "c.MD",
    "two words.md", "z", "ü.md", "docs.md",
];

fn tree(numbers: &mut Numbers, depth: u32) -> Vec<(String, Node)> {
    let mut entries = Vec::new();
    for _ in 0..numbers.next(5) {
        let name = NAMES[numbers.next(NAMES.len() as u64) as usize].to_string();
        if depth > 0 && numbers.next(3) == 0 {
            entries.push((name, Node::Directory(tree(numbers, depth - 1))));
        } else {
            entries.push((name, Node::File));
        }
    }
    entries
}

/// Notes under each directory's path what the directory holds.
fn lay_out(
    entries: &[(String, Node)],
    path: &str,
    disk: &mut HashMap<String, Vec<(String, bool)>>,
) {
    let mut listing = Vec::new();
    for (name, node) in entries {
        listing.push((name.clone(), matches!(node, Node::Directory(_))));
        if let Node::Directory(inner) = node {
            lay_out(inner, &join_paths(path, name, Separator::Slash), disk);
        }
    }
    // A name that occurs twice in a directory gives one directory on disk.
    disk.entry(path.to_string()).or_insert(listing);
}

/// The commands of the prompt files in and below a directory: first those of
/// the directory itself, then those of the directories in it, the last first.
fn commands(entries: &[(String, Node)], scope: &str, relative: &str, out: &mut Vec<String>) {
    for (name, node) in entries {
        if matches!(node, Node::File) && is_prompt_file_name(name) {
            let file = join_paths(relative, name, Separator::Slash);
            out.push(format!("{scope}:{}", command_name_of(&file, Separator::Slash)));
        }
    }
    for (name, node) in entries.iter().rev() {
        if let Node::Directory(inner) = node {
            commands(inner, scope, &join_paths(relative, name, Separator::Slash), out);
        }
    }
}

fn has_twin(entries: &[(String, Node)]) -> bool {
    for (i, (name, node)) in entries.iter().enumerate() {
        if entries[..i].iter().any(|(other, _)| other == name) {
            return true;
        }
        if let Node::Directory(inner) = node {
            if has_twin(inner) {
                return true;
            }
        }
    }
    false
}

#[test]
fn a_walk_carried_through_finds_every_command() {
    let mut numbers = Numbers(7);
    let mut walked = 0;
    for _ in 0..400 {
        let project = tree(&mut numbers, 3);
        let user = tree(&mut numbers, 2);
        if has_twin(&project) || has_twin(&user) {
            continue;
        }
        let mut disk = HashMap::new();
        lay_out(&project, "/p/.codex/commands", &mut disk);
        lay_out(&user, "/h/.codex/commands", &mut disk);

        let mut walk = Walk::start(Some("/p"), Some("/h"), Separator::Slash);
        let mut asked = Vec::new();
        while let Some(directory) = walk.next_directory() {
            for (name, is_dir) in &disk[&directory] {
                walk.record_entry(name, *is_dir);
            }
            asked.push(directory);
        }

        let mut expected = Vec::new();
        commands(&project, "project", "", &mut expected);
        commands(&user, "user", "", &mut expected);
        assert_eq!(walk.finish(), expected);

        // Every directory was handed out, and each once.
        let mut directories: Vec<String> = disk.keys().cloned().collect();
        directories.sort();
        asked.sort();
        assert_eq!(asked, directories);
        walked += 1;
    }
    assert!(walked > 100);
}

#[test]
fn found_commands_of_plain_files_resolve_to_their_files() {
    let parts = ["a", "b", "fix-issue", "x_y", "review", "security", "v1.2", "_", "q_", ".hidden"];
    let mut numbers = Numbers(11);
    for _ in 0..300 {
        let depth = 1 + numbers.next(4);
        let mut names = Vec::new();
        for _ in 0..depth {
            names.push(parts[numbers.next(parts.len() as u64) as usize]);
        }
        let relative = names.join("/") + ".md";
        // An underscore before a separator or before another underscore makes
        // a name that stands for another file.
        let stem = &relative[..relative.len() - 3];
        let alone = !stem.contains("__") && !stem.contains("_/");
        let command = command_name_of(&relative, Separator::Slash);
        for (scope, root) in [("project", "/p/.codex/commands"), ("user", "/h/.codex/commands")] {
            let lookup = resolve_command(
                &format!("/{scope}:{command} some arguments "),
                Some("/p"),
                Some("/h"),
                Separator::Slash,
            );
            let file = format!("{root}/{relative}");
            if alone {
                let lookup = lookup.unwrap();
                assert_eq!(lookup.path, file, "for {relative:?}");
                assert_eq!(lookup.arguments, "some arguments");
            } else {
                assert_ne!(lookup.map(|lookup| lookup.path), Some(file), "for {relative:?}");
            }
        }
    }
}
