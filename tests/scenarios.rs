use glide::commands::{Command, FollowUp};
use glide::protocol::Transmission;
use glide::registry::Registry;
use glide::session::{is_valid_handle, login, next_action, Action};

fn online(names: &[&str]) -> Registry {
    let mut reg = Registry::new();
    for n in names {
        assert!(matches!(login(&mut reg, n, "127.0.0.1:1"), Transmission::UsernameOk));
    }
    reg
}

fn glide(path: &str, to: &str) -> Command {
    Command::Glide { path: path.to_string(), to: to.to_string() }
}

fn requests_of(reg: &mut Registry, me: &str) -> Vec<(String, String)> {
    match Command::Requests.execute(reg, me) {
        Transmission::IncomingRequests(v) => v.into_iter().map(|r| (r.sender, r.filename)).collect(),
        other => panic!("{:?}", other),
    }
}

#[test]
fn login_collision() {
    let mut reg = Registry::new();
    assert!(matches!(login(&mut reg, "alice", "a:1"), Transmission::UsernameOk));
    assert!(matches!(login(&mut reg, "alice", "b:2"), Transmission::UsernameTaken));
    assert!(matches!(login(&mut reg, "bob", "b:3"), Transmission::UsernameOk));
    assert!(reg.contains("alice"));
    assert!(reg.contains("bob"));
}

#[test]
fn login_rejects_invalid_handles() {
    let mut reg = Registry::new();
    assert!(matches!(login(&mut reg, "", "a:1"), Transmission::UsernameInvalid));
    assert!(matches!(login(&mut reg, "al ice", "a:1"), Transmission::UsernameInvalid));
    assert!(matches!(login(&mut reg, "al\tice", "a:1"), Transmission::UsernameInvalid));
    assert!(matches!(login(&mut reg, "al\0ice", "a:1"), Transmission::UsernameInvalid));
    assert!(matches!(login(&mut reg, "a\u{3000}b", "a:1"), Transmission::UsernameInvalid));
    assert!(!reg.contains(""));
    assert!(!reg.contains("al ice"));
}

#[test]
fn handle_validity() {
    assert!(is_valid_handle("alice"));
    assert!(is_valid_handle("zoë"));
    assert!(!is_valid_handle(""));
    assert!(!is_valid_handle("a b"));
    assert!(!is_valid_handle("a\u{85}b"));
    assert!(!is_valid_handle("a\u{2009}b"));
}

#[test]
fn offer_and_accept() {
    let mut reg = online(&["alice", "bob"]);
    let (resp, follow) = Command::handle(glide("docs/report.pdf", "bob"), "alice", &mut reg, "clients");
    assert!(matches!(resp, Transmission::GlideRequestSent));
    match follow {
        FollowUp::Receive { dir } => assert_eq!(dir, "clients/alice/bob"),
        _ => panic!("expected a receive step"),
    }
    assert_eq!(requests_of(&mut reg, "bob"), vec![("alice".to_string(), "report.pdf".to_string())]);
    let (resp, follow) = Command::handle(Command::Accept("alice".to_string()), "bob", &mut reg, "clients");
    assert!(matches!(resp, Transmission::OkSuccess));
    match follow {
        FollowUp::Send { path, name, from } => {
            assert_eq!(path, "clients/alice/bob/report.pdf");
            assert_eq!(name, "report.pdf");
            assert_eq!(from, "alice");
        }
        _ => panic!("expected a send step"),
    }
    // the offer stays until the file has been delivered
    assert_eq!(requests_of(&mut reg, "bob").len(), 1);
    let taken = reg.take_offer_from("bob", "alice").unwrap();
    assert_eq!(taken.filename, "report.pdf");
    assert!(requests_of(&mut reg, "bob").is_empty());
}

#[test]
fn offer_and_reject() {
    let mut reg = online(&["alice", "bob"]);
    let (resp, _) = Command::handle(glide("docs/report.pdf", "bob"), "alice", &mut reg, "clients");
    assert!(matches!(resp, Transmission::GlideRequestSent));
    let (resp, follow) = Command::handle(Command::No("alice".to_string()), "bob", &mut reg, "clients");
    assert!(matches!(resp, Transmission::NoSuccess));
    match follow {
        FollowUp::Delete { path } => assert_eq!(path, "clients/alice/bob/report.pdf"),
        _ => panic!("expected a delete step"),
    }
    assert!(requests_of(&mut reg, "bob").is_empty());
}

#[test]
fn reject_without_offer_still_succeeds() {
    let mut reg = online(&["alice", "bob"]);
    let (resp, follow) = Command::handle(Command::No("alice".to_string()), "bob", &mut reg, "clients");
    assert!(matches!(resp, Transmission::NoSuccess));
    assert!(matches!(follow, FollowUp::Nothing));
}

#[test]
fn reject_takes_only_the_first_offer() {
    let mut reg = online(&["alice", "bob"]);
    Command::handle(glide("one.txt", "bob"), "alice", &mut reg, "s");
    Command::handle(glide("two.txt", "bob"), "alice", &mut reg, "s");
    let (_, follow) = Command::handle(Command::No("alice".to_string()), "bob", &mut reg, "s");
    match follow {
        FollowUp::Delete { path } => assert_eq!(path, "s/alice/bob/one.txt"),
        _ => panic!("expected a delete step"),
    }
    assert_eq!(requests_of(&mut reg, "bob"), vec![("alice".to_string(), "two.txt".to_string())]);
}

#[test]
fn self_targeting_rejected() {
    let mut reg = online(&["alice", "bob"]);
    let (resp, follow) = Command::handle(glide("a", "alice"), "alice", &mut reg, "clients");
    assert!(matches!(resp, Transmission::UsernameInvalid));
    assert!(matches!(follow, FollowUp::Nothing));
    assert!(requests_of(&mut reg, "alice").is_empty());
    assert!(requests_of(&mut reg, "bob").is_empty());
}

#[test]
fn glide_to_unknown_user_rejected() {
    let mut reg = online(&["alice"]);
    let resp = glide("a.txt", "zed").execute(&mut reg, "alice");
    assert!(matches!(resp, Transmission::UsernameInvalid));
    assert!(!reg.contains("zed"));
}

#[test]
fn glide_without_file_name_rejected() {
    let mut reg = online(&["alice", "bob"]);
    let resp = glide("docs/..", "bob").execute(&mut reg, "alice");
    assert!(matches!(resp, Transmission::UsernameInvalid));
    assert!(requests_of(&mut reg, "bob").is_empty());
}

#[test]
fn list_excludes_self() {
    let mut reg = online(&["alice", "bob", "carol"]);
    match Command::List.execute(&mut reg, "alice") {
        Transmission::ConnectedUsers(mut v) => {
            v.sort();
            assert_eq!(v, vec!["bob".to_string(), "carol".to_string()]);
        }
        other => panic!("{:?}", other),
    }
}

#[test]
fn list_alone_is_empty() {
    let mut reg = online(&["alice"]);
    match Command::List.execute(&mut reg, "alice") {
        Transmission::ConnectedUsers(v) => assert!(v.is_empty()),
        other => panic!("{:?}", other),
    }
}

#[test]
fn disconnect_during_transfer_keeps_offer() {
    let mut reg = online(&["alice", "bob"]);
    let (resp, _) = Command::handle(glide("big.bin", "bob"), "alice", &mut reg, "clients");
    assert!(matches!(resp, Transmission::GlideRequestSent));
    reg.remove("alice");
    assert!(!reg.contains("alice"));
    assert_eq!(requests_of(&mut reg, "bob"), vec![("alice".to_string(), "big.bin".to_string())]);
    let (resp, follow) = Command::handle(Command::Accept("alice".to_string()), "bob", &mut reg, "clients");
    assert!(matches!(resp, Transmission::OkSuccess));
    assert!(matches!(follow, FollowUp::Send { .. }));
}

#[test]
fn accept_without_offer_fails() {
    let mut reg = online(&["alice", "bob"]);
    let (resp, follow) = Command::handle(Command::Accept("alice".to_string()), "bob", &mut reg, "clients");
    assert!(matches!(resp, Transmission::OkFailed));
    assert!(matches!(follow, FollowUp::Nothing));
}

#[test]
fn concurrent_glides_both_queued() {
    let mut reg = online(&["alice", "bob", "carol"]);
    assert!(matches!(glide("x/a.txt", "carol").execute(&mut reg, "alice"), Transmission::GlideRequestSent));
    assert!(matches!(glide("y/b.txt", "carol").execute(&mut reg, "bob"), Transmission::GlideRequestSent));
    assert_eq!(
        requests_of(&mut reg, "carol"),
        vec![("alice".to_string(), "a.txt".to_string()), ("bob".to_string(), "b.txt".to_string())]
    );
}

#[test]
fn same_offer_twice_accumulates() {
    let mut reg = online(&["alice", "bob"]);
    glide("r.pdf", "bob").execute(&mut reg, "alice");
    glide("r.pdf", "bob").execute(&mut reg, "alice");
    assert_eq!(requests_of(&mut reg, "bob").len(), 2);
}

#[test]
fn logout_then_login_again() {
    let mut reg = online(&["alice"]);
    reg.remove("alice");
    reg.remove("alice");
    assert!(!reg.contains("alice"));
    assert!(matches!(login(&mut reg, "alice", "a:2"), Transmission::UsernameOk));
}

#[test]
fn offers_copy_and_absent_user() {
    let mut reg = online(&["alice", "bob"]);
    glide("f.txt", "bob").execute(&mut reg, "alice");
    assert_eq!(reg.offers("bob").unwrap().len(), 1);
    assert!(reg.offers("zed").is_none());
    assert!(reg.has_offer_from("bob", "alice"));
    assert!(!reg.has_offer_from("bob", "carol"));
    assert_eq!(reg.first_offer_from("bob", "alice").unwrap().filename, "f.txt");
}

#[test]
fn session_dispatch() {
    assert!(matches!(next_action(false, Transmission::Username("a".to_string())), Action::Login(u) if u == "a"));
    assert!(matches!(next_action(false, Transmission::Command(Command::List)), Action::Close));
    assert!(matches!(next_action(true, Transmission::Command(Command::List)), Action::Run(Command::List)));
    assert!(matches!(next_action(true, Transmission::ClientDisconnected), Action::Close));
    assert!(matches!(next_action(true, Transmission::Username("a".to_string())), Action::Close));
}
