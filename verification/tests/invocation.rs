use slash_commands::invocation::parse_invocation;
use slash_commands::invocation::Invocation;
use slash_commands::invocation::TRIGGER;
use slash_commands::scope::Scope;
use slash_commands::text::char_is_whitespace;

fn parts(invocation: Option<Invocation>) -> Option<(Scope, String, String)> {
    invocation.map(|invocation| (invocation.scope, invocation.name, invocation.arguments))
}

fn some(scope: Scope, name: &str, arguments: &str) -> Option<(Scope, String, String)> {
    Some((scope, name.to_string(), arguments.to_string()))
}

#[test]
fn trigger_is_a_slash() {
    assert_eq!(TRIGGER, '/');
}

#[test]
fn name_and_arguments() {
    assert_eq!(
        parts(parse_invocation("/fix missing tests")),
        some(Scope::Project, "fix", "missing tests")
    );
    assert_eq!(parts(parse_invocation("/fix")), some(Scope::Project, "fix", ""));
    assert_eq!(parts(parse_invocation("/fix ")), some(Scope::Project, "fix", ""));
    assert_eq!(parts(parse_invocation("/fix  two")), some(Scope::Project, "fix", " two"));
    assert_eq!(parts(parse_invocation("/fix a  b   c")), some(Scope::Project, "fix", "a  b   c"));
    assert_eq!(parts(parse_invocation("/fix-issue 42")), some(Scope::Project, "fix-issue", "42"));
    assert_eq!(parts(parse_invocation("/a /b")), some(Scope::Project, "a", "/b"));
    assert_eq!(parts(parse_invocation("//")), some(Scope::Project, "/", ""));
    assert_eq!(parts(parse_invocation("/project :fix")), some(Scope::Project, "project", ":fix"));
}

#[test]
fn scope_and_name() {
    assert_eq!(
        parts(parse_invocation("/user:review__security critical module")),
        some(Scope::User, "review__security", "critical module")
    );
    assert_eq!(parts(parse_invocation("/project:fix x")), some(Scope::Project, "fix", "x"));
    assert_eq!(parts(parse_invocation("/user:a")), some(Scope::User, "a", ""));
    assert_eq!(parts(parse_invocation("/project:a:b c")), some(Scope::Project, "a:b", "c"));
    assert_eq!(parts(parse_invocation("/user::")), some(Scope::User, ":", ""));
    assert_eq!(parts(parse_invocation("/fix user:x")), some(Scope::Project, "fix", "user:x"));
}

#[test]
fn only_the_first_space_divides() {
    assert_eq!(parts(parse_invocation("/fix\targ")), some(Scope::Project, "fix\targ", ""));
    assert_eq!(
        parts(parse_invocation("/fix\u{a0}arg x")),
        some(Scope::Project, "fix\u{a0}arg", "x")
    );
    assert_eq!(parts(parse_invocation("/fix a\tb")), some(Scope::Project, "fix", "a\tb"));
}

#[test]
fn surrounding_whitespace_is_left_out() {
    assert_eq!(parts(parse_invocation("  /fix a  ")), some(Scope::Project, "fix", "a"));
    assert_eq!(parts(parse_invocation("\n\t/fix a\r\n")), some(Scope::Project, "fix", "a"));
    assert_eq!(parts(parse_invocation("\u{2003}/user:x\u{3000}")), some(Scope::User, "x", ""));
    assert_eq!(parts(parse_invocation("/fix \u{85}")), some(Scope::Project, "fix", ""));
    // U+200B is no whitespace.
    assert_eq!(parts(parse_invocation("\u{200b}/fix")), None);
    assert_eq!(parts(parse_invocation("/fix a\u{200b}")), some(Scope::Project, "fix", "a\u{200b}"));
}

#[test]
fn lines_that_are_no_command_lines() {
    for input in [
        "",
        " ",
        "fix",
        "fix /now",
        "\\fix",
        "/",
        " / ",
        "/ fix",
        "/:",
        "/:fix",
        "/project:",
        "/user:",
        "/user: x",
        "/team:fix",
        "/PROJECT:fix",
        "/a:b:c",
    ] {
        assert_eq!(parts(parse_invocation(input)), None, "for {input:?}");
    }
}

#[test]
fn lines_agree_with_the_parts_they_are_made_of() {
    let names = ["fix", "a__b", "x.y-z", "ü", "/", "\ta"];
    let arguments = ["", "a", "a b", " a", "a ", "  ", "a\n", ":", "$ARGUMENTS"];
    for name in names {
        for argument in arguments {
            let expected = some(Scope::Project, name, argument.trim_end());
            assert_eq!(parts(parse_invocation(&format!("/{name} {argument}"))), expected);
            let expected = some(Scope::User, name, argument.trim_end());
            assert_eq!(parts(parse_invocation(&format!("/user:{name} {argument}"))), expected);
        }
    }
}

#[test]
fn scope_words() {
    assert_eq!(Scope::from_word("project"), Some(Scope::Project));
    assert_eq!(Scope::from_word("user"), Some(Scope::User));
    for word in ["", "Project", "USER", "users", "use", "projec", "project ", " user", "team"] {
        assert_eq!(Scope::from_word(word), None, "for {word:?}");
    }
    assert_eq!(Scope::Project.as_str(), "project");
    assert_eq!(Scope::User.as_str(), "user");
    for scope in [Scope::Project, Scope::User] {
        assert_eq!(Scope::from_word(scope.as_str()), Some(scope));
    }
}

#[test]
fn whitespace_is_what_char_says() {
    let mut count = 0;
    for code in 0..=0x10ffff_u32 {
        if let Some(c) = char::from_u32(code) {
            assert_eq!(char_is_whitespace(c), c.is_whitespace(), "for U+{code:04X}");
            if char_is_whitespace(c) {
                count += 1;
            }
        }
    }
    assert_eq!(count, 25);
}

#[test]
fn trimming_agrees_with_str_trim() {
    let samples = [
        "",
        " ",
        "/a",
        " /a",
        "/a ",
        "\t/a b\n",
        "\u{1680}/a\u{2028}\u{2029}",
        "\u{2000}\u{2001}\u{2002}/a b \u{2009}\u{200a}",
        "\u{202f}/x\u{205f}",
        "\u{feff}/x",
        "/x\u{180e}",
        "\u{b}\u{c}/x y\u{d}",
    ];
    for sample in samples {
        let trimmed = sample.trim();
        let expected = parts(parse_invocation(trimmed));
        assert_eq!(parts(parse_invocation(sample)), expected, "for {sample:?}");
        if let Some(rest) = trimmed.strip_prefix('/') {
            if !rest.is_empty() && !rest.contains(' ') && !rest.contains(':') {
                assert_eq!(expected, some(Scope::Project, rest, ""), "for {sample:?}");
            }
        }
    }
}

#[test]
fn invocations_compare_by_their_parts() {
    let expected = Invocation {
        scope: Scope::User,
        name: "review__security".to_string(),
        arguments: "critical module".to_string(),
    };
    let invocation = parse_invocation("/user:review__security critical module");
    assert_eq!(invocation.as_ref(), Some(&expected));
    assert_ne!(parse_invocation("/project:review__security critical module"), Some(expected));
}
