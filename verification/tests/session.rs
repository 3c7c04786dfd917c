use chat_app::session::{login_step, session_step, LoginOutcome};
use chat_app::store::ServerState;

fn seeded() -> ServerState {
    let mut s = ServerState::new();
    s.seed_test_channels();
    s
}

fn login(s: &mut ServerState, line: &str) -> u64 {
    match login_step(s, line) {
        (LoginOutcome::LoggedIn(uid), _) => uid,
        (LoginOutcome::Rejected, _) => panic!("login rejected"),
    }
}

#[test]
fn login_success_replies() {
    let mut s = seeded();
    let (outcome, replies) = login_step(&mut s, "LOGIN alice\n");
    assert_eq!(outcome, LoginOutcome::LoggedIn(1));
    assert_eq!(replies.len(), 2);
    assert_eq!(replies[0], "Welcome, alice, you successfully logged in!\n");
    assert!(replies[0].contains("alice"));
    assert_eq!(replies[1], "Available channels: \nFirst\n\nSecond_Channel!\n");
    assert_eq!(s.users.len(), 1);
    assert_eq!(s.users[0].username, "alice");
    assert!(s.is_registered(1));
}

#[test]
fn login_rejection_registers_nothing() {
    let mut s = seeded();
    let (outcome, replies) = login_step(&mut s, "HELLO\n");
    assert_eq!(outcome, LoginOutcome::Rejected);
    assert_eq!(replies.len(), 1);
    assert_eq!(replies[0], "expected: LOGIN - dropping connection. Please try again!");
    assert!(s.users.is_empty());
    assert!(s.connections.is_empty());
}

#[test]
fn login_trims_the_line_end() {
    let mut s = seeded();
    let uid = login(&mut s, "LOGIN alice\r\n");
    assert_eq!(uid, 1);
    assert_eq!(s.users[0].username, "alice");
}

#[test]
fn full_round_trip() {
    let mut s = seeded();
    // a second client already listening on "First"
    let bob = login(&mut s, "LOGIN bob\n");
    session_step(&mut s, bob, "JOIN First\n", 0);
    session_step(&mut s, bob, "ACTIVE First\n", 0);

    let (outcome, replies) = login_step(&mut s, "LOGIN alice\n");
    assert_eq!(outcome, LoginOutcome::LoggedIn(2));
    assert!(replies[0].contains("alice"));
    let alice = 2;

    let eff = session_step(&mut s, alice, "JOIN First\n", 1);
    assert_eq!(eff.replies, vec![String::from("you have successfully joined First!")]);
    assert!(!eff.quit);

    let eff = session_step(&mut s, alice, "ACTIVE First\n", 2);
    assert!(eff.replies.is_empty());

    let eff = session_step(&mut s, alice, "MESSAGE hi\n", 3);
    assert!(eff.replies.is_empty());
    let to_bob: Vec<&str> = eff
        .deliveries
        .iter()
        .filter(|d| d.recipient == bob)
        .map(|d| d.line.as_str())
        .collect();
    assert_eq!(to_bob, vec!["alice: hi"]);
    for d in &eff.deliveries {
        assert!(d.line.contains("hi"));
        assert!(d.line.starts_with("alice"));
    }

    let eff = session_step(&mut s, alice, "QUIT\n", 4);
    assert!(eff.quit);
    assert!(eff.replies.is_empty());
    assert!(!s.is_registered(alice));
    assert_eq!(s.users.len(), 1);
    assert_eq!(s.channels[0].members, vec![bob]);
}

#[test]
fn unknown_command_changes_no_state() {
    let mut s = seeded();
    let alice = login(&mut s, "LOGIN alice\n");
    session_step(&mut s, alice, "JOIN First\n", 0);
    let users_before = s.users.len();
    let members_before = s.channels[0].members.clone();
    let eff = session_step(&mut s, alice, "FOO\n", 1);
    assert_eq!(eff.replies, vec![String::from("unknown command")]);
    assert!(eff.deliveries.is_empty());
    assert!(!eff.quit);
    assert_eq!(s.users.len(), users_before);
    assert_eq!(s.channels[0].members, members_before);
    assert!(s.channels[0].active_users.is_empty());
}

#[test]
fn join_of_missing_channel_replies_not_found() {
    let mut s = seeded();
    let alice = login(&mut s, "LOGIN alice\n");
    let eff = session_step(&mut s, alice, "JOIN Nowhere\n", 0);
    assert_eq!(eff.replies, vec![String::from("Requested server not found.")]);
    assert!(s.channels[0].members.is_empty());
    assert!(s.channels[1].members.is_empty());
}

#[test]
fn active_before_join_is_an_error() {
    let mut s = seeded();
    let alice = login(&mut s, "LOGIN alice\n");
    let eff = session_step(&mut s, alice, "ACTIVE First\n", 0);
    assert_eq!(eff.replies, vec![String::from("you are not a member of First.")]);
    let eff = session_step(&mut s, alice, "ACTIVE Nowhere\n", 0);
    assert_eq!(eff.replies, vec![String::from("Requested server not found.")]);
}

#[test]
fn message_without_active_channel_is_noticed() {
    let mut s = seeded();
    let alice = login(&mut s, "LOGIN alice\n");
    let eff = session_step(&mut s, alice, "MESSAGE hi\n", 0);
    assert!(eff.deliveries.is_empty());
    assert_eq!(
        eff.replies,
        vec![String::from("you are not active in any channel - message not delivered.")]
    );
}

#[test]
fn inactive_stops_deliveries() {
    let mut s = seeded();
    let alice = login(&mut s, "LOGIN alice\n");
    session_step(&mut s, alice, "JOIN First\n", 0);
    session_step(&mut s, alice, "ACTIVE First\n", 0);
    let eff = session_step(&mut s, alice, "MESSAGE one\n", 1);
    assert_eq!(eff.deliveries.len(), 1);
    let eff = session_step(&mut s, alice, "INACTIVE\n", 2);
    assert!(eff.replies.is_empty());
    let eff = session_step(&mut s, alice, "MESSAGE two\n", 3);
    assert!(eff.deliveries.is_empty());
}

#[test]
fn echo_back_to_the_sender() {
    let mut s = seeded();
    let alice = login(&mut s, "LOGIN alice\n");
    session_step(&mut s, alice, "JOIN First\n", 0);
    session_step(&mut s, alice, "ACTIVE First\n", 0);
    let eff = session_step(&mut s, alice, "MESSAGE hello\n", 1);
    assert_eq!(eff.deliveries.len(), 1);
    assert_eq!(eff.deliveries[0].recipient, alice);
    assert_eq!(eff.deliveries[0].line, "alice: hello");
}
