use glide::commands::Command;

#[test]
fn command_text_forms() {
    assert_eq!(Command::List.to_string(), "list");
    assert_eq!(Command::Requests.to_string(), "reqs");
    let g = Command::Glide { path: "docs/report.pdf".to_string(), to: "bob".to_string() };
    assert_eq!(g.to_string(), "glide docs/report.pdf @bob");
    assert_eq!(Command::Accept("alice".to_string()).to_string(), "ok @alice");
    assert_eq!(Command::No("alice".to_string()).to_string(), "no @alice");
}

#[test]
fn parse_simple_commands() {
    assert!(matches!(Command::parse("list"), Command::List));
    assert!(matches!(Command::parse("reqs"), Command::Requests));
}

#[test]
fn parse_glide() {
    match Command::parse("glide docs/report.pdf @bob") {
        Command::Glide { path, to } => {
            assert_eq!(path, "docs/report.pdf");
            assert_eq!(to, "bob");
        }
        other => panic!("{:?}", other),
    }
}

#[test]
fn parse_glide_with_spaces_in_path() {
    match Command::parse("glide my file.txt @carol") {
        Command::Glide { path, to } => {
            assert_eq!(path, "my file.txt");
            assert_eq!(to, "carol");
        }
        other => panic!("{:?}", other),
    }
}

#[test]
fn parse_ok_and_no() {
    match Command::parse("ok @alice") {
        Command::Accept(u) => assert_eq!(u, "alice"),
        other => panic!("{:?}", other),
    }
    match Command::parse("no   @alice") {
        Command::No(u) => assert_eq!(u, "alice"),
        other => panic!("{:?}", other),
    }
}

#[test]
fn parse_round_trips_text_form() {
    let cmds = vec![
        Command::List,
        Command::Requests,
        Command::Glide { path: "a/b.txt".to_string(), to: "bob".to_string() },
        Command::Accept("carol".to_string()),
        Command::No("dave".to_string()),
    ];
    for c in cmds {
        let back = Command::parse(&c.to_string());
        assert_eq!(format!("{:?}", back), format!("{:?}", c));
    }
}

#[test]
fn try_parse_rejects_unknown_text() {
    assert!(Command::try_parse("hello").is_none());
    assert!(Command::try_parse("glide file").is_none());
    assert!(Command::try_parse("ok alice").is_none());
    assert!(Command::try_parse("").is_none());
    assert!(Command::try_parse("list ").is_none());
}

#[test]
fn try_parse_accepts_known_text() {
    assert!(matches!(Command::try_parse("list"), Some(Command::List)));
    assert!(matches!(Command::try_parse("no @x"), Some(Command::No(_))));
}

fn caps(v: &[&str]) -> Option<Vec<String>> {
    Some(v.iter().map(|s| s.to_string()).collect())
}

#[test]
fn from_captures_prefers_exact_words() {
    let c = Command::from_captures("list", caps(&["x", "y", "z"]), None, None);
    assert!(matches!(c, Some(Command::List)));
    let c = Command::from_captures("reqs", None, None, None);
    assert!(matches!(c, Some(Command::Requests)));
}

#[test]
fn from_captures_builds_each_command() {
    match Command::from_captures("g", caps(&["all", "p/q", "bob"]), None, None) {
        Some(Command::Glide { path, to }) => {
            assert_eq!(path, "p/q");
            assert_eq!(to, "bob");
        }
        other => panic!("{:?}", other),
    }
    match Command::from_captures("o", None, caps(&["all", "alice"]), caps(&["all", "zed"])) {
        Some(Command::Accept(u)) => assert_eq!(u, "alice"),
        other => panic!("{:?}", other),
    }
    match Command::from_captures("n", None, None, caps(&["all", "zed"])) {
        Some(Command::No(u)) => assert_eq!(u, "zed"),
        other => panic!("{:?}", other),
    }
}

#[test]
fn from_captures_without_groups_is_none() {
    assert!(Command::from_captures("g", caps(&["all"]), None, None).is_none());
    assert!(Command::from_captures("o", None, caps(&["all"]), None).is_none());
    assert!(Command::from_captures("x", None, None, None).is_none());
}
