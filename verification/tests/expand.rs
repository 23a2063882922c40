use slash_commands::path::Separator;
use slash_commands::resolve::expand_contents;
use slash_commands::resolve::expand_custom_command;
use slash_commands::resolve::resolve_command;
use slash_commands::resolve::substitute_arguments;
use std::collections::HashMap;
use std::path::Path;
use std::path::PathBuf;

/// Files held in memory, by path.
struct Disk {
    files: HashMap<String, String>,
}

impl Disk {
    fn new() -> Disk {
        Disk { files: HashMap::new() }
    }

    /// Writes a markdown file with the given relative path inside `root`.
    fn write_md(&mut self, root: &Path, rel: &str, content: &str) -> PathBuf {
        let path = root.join(rel);
        self.files.insert(path.to_str().unwrap().to_string(), content.to_string());
        path
    }

    fn expand(&self, input: &str, cwd: &Path, home: Option<&Path>) -> Option<String> {
        expand_custom_command(
            input,
            cwd.to_str(),
            home.map(|home| home.to_str().unwrap()),
            Separator::from_char(std::path::MAIN_SEPARATOR).unwrap(),
            |path: &str| self.files.get(path).cloned(),
        )
    }
}

#[test]
fn test_expand_project_command() {
    let mut disk = Disk::new();
    let project_dir = PathBuf::from("/tmp/project");
    let commands_dir = project_dir.join(".codex/commands");
    disk.write_md(&commands_dir, "fix.md", "Fixing $ARGUMENTS now!");

    // Without a scope the line asks for a command of the project.
    let input = "/fix missing tests";
    let expanded = disk.expand(input, &project_dir, None).unwrap();
    assert_eq!(expanded, "Fixing missing tests now!");
}

#[test]
fn test_expand_user_command() {
    let mut disk = Disk::new();
    let home_dir = PathBuf::from("/tmp/home");
    let user_commands_dir = home_dir.join(".codex/commands");
    disk.write_md(&user_commands_dir, "review/security.md", "Security review: $ARGUMENTS");

    // The project's directory plays no part in a command of the user.
    let cwd = Path::new("/");
    let input = "/user:review__security critical module";
    let expanded = disk.expand(input, cwd, Some(&home_dir)).unwrap();
    assert_eq!(expanded, "Security review: critical module");
}

#[test]
fn explicit_project_scope_equals_default() {
    let mut disk = Disk::new();
    let project_dir = PathBuf::from("/tmp/project");
    disk.write_md(&project_dir.join(".codex/commands"), "fix.md", "Fixing $ARGUMENTS now!");
    for rest in ["fix missing tests", "fix", "fix  two  spaces ", "nothing here", "", " x"] {
        let short = disk.expand(&format!("/{rest}"), &project_dir, None);
        let long = disk.expand(&format!("/project:{rest}"), &project_dir, None);
        assert_eq!(short, long, "for {rest:?}");
    }
    assert_eq!(
        disk.expand("/project:fix missing tests", &project_dir, None),
        Some("Fixing missing tests now!".to_string())
    );
}

#[test]
fn input_without_trigger_is_no_command() {
    let mut disk = Disk::new();
    let project_dir = PathBuf::from("/tmp/project");
    disk.write_md(&project_dir.join(".codex/commands"), "fix.md", "Fixing $ARGUMENTS now!");
    for input in ["", "fix", "fix missing tests", "project:fix", "\\fix", "x/fix", "   ", ":fix"] {
        assert_eq!(disk.expand(input, &project_dir, None), None, "for {input:?}");
    }
}

#[test]
fn whitespace_around_the_line_is_ignored() {
    let mut disk = Disk::new();
    let project_dir = PathBuf::from("/tmp/project");
    disk.write_md(&project_dir.join(".codex/commands"), "fix.md", "[$ARGUMENTS]");
    assert_eq!(disk.expand("  /fix a b \n", &project_dir, None), Some("[a b]".to_string()));
    assert_eq!(disk.expand("\u{3000}/fix\t", &project_dir, None), Some("[]".to_string()));
    assert_eq!(disk.expand("/fix  a", &project_dir, None), Some("[ a]".to_string()));
}

#[test]
fn missing_file_is_no_command() {
    let mut disk = Disk::new();
    let project_dir = PathBuf::from("/tmp/project");
    disk.write_md(&project_dir.join(".codex/commands"), "fix.md", "text");
    assert_eq!(disk.expand("/other", &project_dir, None), None);
    assert_eq!(disk.expand("/user:fix", &project_dir, Some(Path::new("/tmp/home"))), None);
    assert_eq!(disk.expand("/fix", Path::new("/tmp/elsewhere"), None), None);
}

#[test]
fn unknown_scope_is_no_command() {
    let mut disk = Disk::new();
    let project_dir = PathBuf::from("/tmp/project");
    disk.write_md(&project_dir.join(".codex/commands"), "fix.md", "text");
    for input in ["/team:fix", "/Project:fix", "/USER:fix", "/:fix", "/projects:fix", "/use:fix"] {
        assert_eq!(disk.expand(input, &project_dir, Some(&project_dir)), None, "for {input:?}");
    }
}

#[test]
fn user_scope_without_home_is_no_command() {
    let mut disk = Disk::new();
    let home_dir = PathBuf::from("/tmp/home");
    disk.write_md(&home_dir.join(".codex/commands"), "c.md", "C");
    assert_eq!(disk.expand("/user:c", Path::new("/"), Some(&home_dir)), Some("C".to_string()));
    assert_eq!(disk.expand("/user:c", Path::new("/"), None), None);
    assert_eq!(disk.expand("/user:c", &home_dir, None), None);
}

#[test]
fn empty_name_is_no_command() {
    let mut disk = Disk::new();
    let project_dir = PathBuf::from("/tmp/project");
    disk.write_md(&project_dir.join(".codex/commands"), ".md", "hidden");
    for input in ["/", "/ ", "/ args", "/project:", "/project: args", "/user:"] {
        assert_eq!(disk.expand(input, &project_dir, Some(&project_dir)), None, "for {input:?}");
    }
}

#[test]
fn parent_components_never_leave_the_root() {
    let mut disk = Disk::new();
    let project_dir = PathBuf::from("/tmp/project");
    let commands_dir = project_dir.join(".codex/commands");
    disk.write_md(&commands_dir, "fix.md", "inside");
    disk.write_md(&commands_dir, "../secret.md", "outside");
    disk.write_md(&commands_dir, "../../../secret.md", "far outside");
    disk.write_md(&commands_dir, "nested/../fix.md", "around");
    disk.write_md(&commands_dir, "nested/../../secret.md", "down and out");
    disk.write_md(&commands_dir, "../commands/fix.md", "out and back");
    disk.write_md(&commands_dir, "a/b/../../fix.md", "down twice and back");
    disk.write_md(&commands_dir, "a..b.md", "dots in a name");
    disk.write_md(&commands_dir, "...md", "three dots");
    disk.write_md(&commands_dir, "../other/fix.md", "beside the root");
    disk.write_md(&commands_dir, "../../.codex/commands/../secret.md", "out, back and out");
    // A path that leads out of the root is not read.
    for input in [
        "/..__secret",
        "/project:..__secret",
        "/..__..__..__secret",
        "/../secret",
        "/nested__..__..__secret",
        "/.__..__secret",
        "/..__other__fix",
        "/..__..__.codex__commands__..__secret",
    ] {
        assert_eq!(disk.expand(input, &project_dir, None), None, "for {input:?}");
    }
    // A path that leads into the root is read as it is written, also where
    // it climbs on its way.
    assert_eq!(disk.expand("/nested__..__fix", &project_dir, None), Some("around".to_string()));
    assert_eq!(
        disk.expand("/..__commands__fix", &project_dir, None),
        Some("out and back".to_string())
    );
    assert_eq!(disk.expand("/nested/../fix", &project_dir, None), Some("around".to_string()));
    assert_eq!(
        disk.expand("/a__b__..__..__fix", &project_dir, None),
        Some("down twice and back".to_string())
    );
    assert_eq!(disk.expand("/a..b", &project_dir, None), Some("dots in a name".to_string()));
    assert_eq!(disk.expand("/..", &project_dir, None), Some("three dots".to_string()));
}

#[test]
fn unknown_project_directory_leaves_the_user_its_commands() {
    let mut files = HashMap::new();
    files.insert("/h/.codex/commands/c.md".to_string(), "C $ARGUMENTS".to_string());
    files.insert(".codex/commands/c.md".to_string(), "relative".to_string());
    let expand = |input: &str, cwd: Option<&str>, home: Option<&str>| {
        expand_custom_command(input, cwd, home, Separator::Slash, |path: &str| {
            files.get(path).cloned()
        })
    };
    assert_eq!(expand("/user:c x", None, Some("/h")), Some("C x".to_string()));
    assert_eq!(expand("/c x", None, Some("/h")), None);
    assert_eq!(expand("/project:c x", None, Some("/h")), None);
    assert_eq!(expand("/user:c x", None, None), None);
    // The empty path is a directory that is known: the one we are in.
    assert_eq!(expand("/c", Some(""), None), Some("relative".to_string()));
}

#[test]
fn on_a_backslash_platform_the_slash_separates_too() {
    let resolve = |input: &str| {
        resolve_command(input, Some("C:\\work"), None, Separator::Backslash)
            .map(|lookup| lookup.path)
    };
    let root = "C:\\work\\.codex/commands";
    assert_eq!(resolve("/a__b"), Some(format!("{root}\\a\\b.md")));
    assert_eq!(resolve("/a/b"), Some(format!("{root}\\a/b.md")));
    assert_eq!(resolve("/a/../b"), Some(format!("{root}\\a/../b.md")));
    assert_eq!(resolve("/a__..__b"), Some(format!("{root}\\a\\..\\b.md")));
    for input in ["/../a x", "/..__a", "/a/../../b", "/a__../..__b", "/..\\a", "/.\\../a"] {
        assert_eq!(resolve(input), None, "for {input:?}");
    }
    // A name that begins with either separator is absolute.
    assert_eq!(resolve("//etc/passwd"), None);
    assert_eq!(resolve("/__etc__passwd"), None);
    assert_eq!(
        resolve("//C:/work\\.codex\\commands/x"),
        None
    );
}

#[test]
fn absolute_name_takes_the_place_of_the_root() {
    let mut disk = Disk::new();
    let project_dir = PathBuf::from("/tmp/project");
    let commands_dir = project_dir.join(".codex/commands");
    disk.write_md(&commands_dir, "fix.md", "inside");
    disk.write_md(Path::new("/etc"), "passwd.md", "outside");
    disk.write_md(&commands_dir, "etc/passwd.md", "below the root");
    assert_eq!(disk.expand("/__etc__passwd", &project_dir, None), None);
    assert_eq!(disk.expand("/project:__etc__passwd", &project_dir, None), None);
    assert_eq!(disk.expand("/etc__passwd", &project_dir, None), Some("below the root".to_string()));
    // An absolute path that lies within the root is read, however the root
    // is spelled in it.
    assert_eq!(
        disk.expand("/__tmp__project__.codex__commands__fix", &project_dir, None),
        Some("inside".to_string())
    );
    disk.write_md(Path::new("/"), "tmp/./project//.codex/commands/./fix.md", "spelled otherwise");
    assert_eq!(
        disk.expand("/__tmp__.__project____.codex__commands__.__fix", &project_dir, None),
        Some("spelled otherwise".to_string())
    );
    assert_eq!(disk.expand("/__tmp__project__.codex__commands__..__fix", &project_dir, None), None);
    assert_eq!(disk.expand("/__tmp__project__.codex__commandsfix", &project_dir, None), None);
    assert_eq!(disk.expand("/tmp__project__.codex__commands__fix", &project_dir, None), None);
}

#[test]
fn resolve_gives_path_and_arguments() {
    let lookup =
        resolve_command("/fix missing tests", Some("/tmp/project"), None, Separator::Slash)
            .unwrap();
    assert_eq!(lookup.path, "/tmp/project/.codex/commands/fix.md");
    assert_eq!(lookup.arguments, "missing tests");

    let lookup = resolve_command(
        "/user:review__security critical module",
        Some("/"),
        Some("/home/me"),
        Separator::Slash,
    )
    .unwrap();
    assert_eq!(lookup.path, "/home/me/.codex/commands/review/security.md");
    assert_eq!(lookup.arguments, "critical module");

    let lookup =
        resolve_command("/a__b__c", Some("C:\\work"), None, Separator::Backslash).unwrap();
    assert_eq!(lookup.path, "C:\\work\\.codex/commands\\a\\b\\c.md");
    assert_eq!(lookup.arguments, "");

    assert!(resolve_command("/..__a", Some("C:\\work"), None, Separator::Backslash).is_none());
    assert!(resolve_command("fix", Some("/tmp/project"), None, Separator::Slash).is_none());
}

#[test]
fn placeholder_is_replaced_everywhere() {
    assert_eq!(
        substitute_arguments("Fixing $ARGUMENTS now!", "missing tests"),
        "Fixing missing tests now!"
    );
    assert_eq!(substitute_arguments("$ARGUMENTS", "x"), "x");
    assert_eq!(substitute_arguments("$ARGUMENTS$ARGUMENTS", "ab"), "abab");
    assert_eq!(substitute_arguments("a $ARGUMENTS b $ARGUMENTS c", "-"), "a - b - c");
    assert_eq!(substitute_arguments("no placeholder", "x"), "no placeholder");
    assert_eq!(substitute_arguments("", "x"), "");
    assert_eq!(substitute_arguments("$ARGUMENTS", ""), "");
    assert_eq!(
        substitute_arguments("$ARGUMENT $arguments $ ARGUMENTS", "x"),
        "$ARGUMENT $arguments $ ARGUMENTS"
    );
    assert_eq!(substitute_arguments("$$ARGUMENTS$", "x"), "$x$");
    assert_eq!(substitute_arguments("$ARGUMENTSS", "x"), "xS");
    assert_eq!(substitute_arguments("$ARGUMENT$ARGUMENTS", "x"), "$ARGUMENTx");
}

#[test]
fn what_is_put_in_is_not_searched_again() {
    assert_eq!(substitute_arguments("<$ARGUMENTS>", "$ARGUMENTS"), "<$ARGUMENTS>");
    assert_eq!(substitute_arguments("$ARGU$ARGUMENTSMENTS", ""), "$ARGUMENTS");
    assert_eq!(
        substitute_arguments("a$ARGUMENTSb", "$ARGUMENTS$ARGUMENTS"),
        "a$ARGUMENTS$ARGUMENTSb"
    );
}

#[test]
fn placeholder_replacement_agrees_with_str_replace() {
    let templates = [
        "",
        "$",
        "$ARGUMENTS",
        "x$ARGUMENTSy$ARGUMENTS",
        "$ARG$ARGUMENTS$ARGUMENTS$",
        "ünïcödé $ARGUMENTS ✓",
        "$ARGUMENTS\n$ARGUMENTS\n",
        "$$$$ARGUMENTS",
        "ARGUMENTS$ARGUMENTS",
    ];
    let arguments = ["", "a", "two words", "$", "$ARGUMENTS", "ÅÄÖ", "\n"];
    for template in templates {
        for argument in arguments {
            assert_eq!(
                substitute_arguments(template, argument),
                template.replace("$ARGUMENTS", argument),
                "for {template:?} and {argument:?}"
            );
        }
    }
}

#[test]
fn unreadable_file_gives_no_prompt() {
    assert_eq!(expand_contents(None, "x"), None);
    assert_eq!(expand_contents(Some("a $ARGUMENTS".to_string()), "x"), Some("a x".to_string()));
}

#[test]
fn the_file_is_asked_for_once_and_only_when_resolved() {
    let asked = std::cell::RefCell::new(Vec::new());
    let read = |path: &str| {
        asked.borrow_mut().push(path.to_string());
        Some("text".to_string())
    };
    let prompt = expand_custom_command("/fix a", Some("/p"), None, Separator::Slash, read);
    assert_eq!(prompt, Some("text".to_string()));
    assert_eq!(*asked.borrow(), vec!["/p/.codex/commands/fix.md".to_string()]);

    let asked = std::cell::RefCell::new(Vec::new());
    let read = |path: &str| {
        asked.borrow_mut().push(path.to_string());
        Some("text".to_string())
    };
    assert_eq!(expand_custom_command("fix a", Some("/p"), None, Separator::Slash, read), None);
    assert!(asked.borrow().is_empty());
}

/// Numbers that look random and are the same in every run.
struct Numbers(u64);

impl Numbers {
    fn next(&mut self, below: u64) -> u64 {
        self.0 = self.0.wrapping_mul(6364136223846793005).wrapping_add(1442695040888963407);
        (self.0 >> 33) % below
    }
}

/// What std makes of a line.
struct ByStd {
    root: PathBuf,
    name: String,
    file: PathBuf,
    arguments: String,
}

/// The file and the arguments of a line, computed with the string and path
/// functions of std: the line is trimmed and split, the name's `__` become
/// separators, and the file must begin with the root, component by component.
fn by_std(input: &str, cwd: &Path, home: Option<&Path>) -> Option<ByStd> {
    let input = input.trim();
    if !input.starts_with('/') {
        return None;
    }
    let mut parts = input[1..].splitn(2, ' ');
    let first = parts.next()?;
    let arguments = parts.next().unwrap_or("").to_string();
    let (scope, name) = match first.find(':') {
        Some(at) => (&first[..at], &first[at + 1..]),
        None => ("project", first),
    };
    let root = match scope {
        "project" => cwd.join(".codex/commands"),
        "user" => home?.join(".codex/commands"),
        _ => return None,
    };
    let file = root.join(name.replace("__", "/") + ".md");
    if !file.starts_with(&root) {
        return None;
    }
    Some(ByStd { root, name: name.to_string(), file, arguments })
}

/// Where `path` leads: its components, each `..` taking back the one before.
fn leads_to(path: &Path) -> Vec<String> {
    let mut led: Vec<String> = Vec::new();
    for part in path.components() {
        let part = part.as_os_str().to_str().unwrap();
        if part == ".." {
            led.pop();
        } else if part != "/" && part != "." {
            led.push(part.to_string());
        }
    }
    led
}

#[test]
fn resolution_agrees_with_the_path_functions_of_std() {
    if std::path::MAIN_SEPARATOR != '/' {
        return;
    }
    let pieces = [
        "/", "/", "project", "user", ":", ":", " ", " ", "__", "__", "_", "..", "..", ".", "a",
        "b", "\t", "fix", "x/y", "\n", "é", "tmp", "p", ".codex", "commands",
    ];
    let mut numbers = Numbers(3);
    let (mut resolved, mut outside, mut around) = (0, 0, 0);
    for _ in 0..40000 {
        let mut input = String::new();
        if numbers.next(4) != 0 {
            input.push('/');
        }
        for _ in 0..numbers.next(9) {
            input.push_str(pieces[numbers.next(pieces.len() as u64) as usize]);
        }
        let home = if numbers.next(3) == 0 { None } else { Some("/h") };
        let lookup = resolve_command(&input, Some("/tmp/p"), home, Separator::Slash);
        // Two things are asked beyond what std's functions do: the name is
        // not empty, and the file does not lead out of the root.
        let expected = by_std(&input, Path::new("/tmp/p"), home.map(Path::new)).filter(|found| {
            let inside = leads_to(&found.file).starts_with(&leads_to(&found.root));
            if !inside {
                outside += 1;
            }
            !found.name.is_empty() && inside
        });
        match (&lookup, &expected) {
            (Some(lookup), Some(found)) => {
                assert_eq!(lookup.path, found.file.to_str().unwrap(), "for {input:?}");
                assert_eq!(lookup.arguments, found.arguments, "for {input:?}");
                if lookup.path.contains("/../") {
                    around += 1;
                }
                resolved += 1;
            },
            (None, None) => {},
            _ => panic!("for {input:?}: {lookup:?}"),
        }
    }
    assert!(resolved > 1000);
    assert!(outside > 100);
    assert!(around > 10);
}
