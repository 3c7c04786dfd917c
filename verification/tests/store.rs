use chat_app::store::{ActiveOutcome, ChannelKind, ServerState};

fn seeded() -> ServerState {
    let mut s = ServerState::new();
    s.seed_test_channels();
    s
}

#[test]
fn new_store_is_empty() {
    let s = ServerState::new();
    assert_eq!(s.next_user_id, 1);
    assert!(s.users.is_empty());
    assert!(s.connections.is_empty());
    assert!(s.channels.is_empty());
    assert!(s.messages.is_empty());
}

#[test]
fn seeding_creates_the_two_channels() {
    let s = seeded();
    assert_eq!(s.channels.len(), 2);
    assert_eq!(s.channels[0].name, "First");
    assert_eq!(s.channels[0].id, 1);
    assert_eq!(s.channels[0].kind, ChannelKind::Broadcast);
    assert_eq!(s.channels[1].name, "Second_Channel!");
    assert_eq!(s.channels[1].id, 2);
    assert!(s.channels[0].members.is_empty());
}

#[test]
fn add_channel_refuses_taken_id_or_name() {
    let mut s = seeded();
    assert!(!s.add_channel(1, String::from("Third"), ChannelKind::Public));
    assert!(!s.add_channel(9, String::from("First"), ChannelKind::Public));
    assert!(s.add_channel(9, String::from("Third"), ChannelKind::Public));
    assert_eq!(s.channels.len(), 3);
}

#[test]
fn login_assigns_distinct_increasing_ids() {
    let mut s = seeded();
    let a = s.login(String::from("alice"));
    let b = s.login(String::from("bob"));
    let c = s.login(String::from("alice"));
    assert_eq!(a, 1);
    assert_eq!(b, 2);
    assert_eq!(c, 3);
    assert_eq!(s.next_user_id, 4);
    assert_eq!(s.users.len(), 3);
    assert_eq!(s.connections.len(), 3);
    assert_eq!(s.users[0].username, "alice");
    assert_eq!(s.users[2].username, "alice");
}

#[test]
fn join_is_idempotent() {
    let mut s = seeded();
    let a = s.login(String::from("alice"));
    assert_eq!(s.join_channel("First", a), Some(1));
    assert_eq!(s.join_channel("First", a), Some(1));
    assert_eq!(s.join_channel("First", a), Some(1));
    assert_eq!(s.channels[0].members, vec![a]);
    assert!(s.channels[0].active_users.is_empty());
}

#[test]
fn join_unknown_channel_changes_nothing() {
    let mut s = seeded();
    let a = s.login(String::from("alice"));
    assert_eq!(s.join_channel("Nowhere", a), None);
    assert!(s.channels[0].members.is_empty());
    assert!(s.channels[1].members.is_empty());
    assert_eq!(s.users.len(), 1);
}

#[test]
fn channel_lookup_by_name() {
    let s = seeded();
    assert_eq!(s.channel_id_by_name("First"), Some(1));
    assert_eq!(s.channel_id_by_name("Second_Channel!"), Some(2));
    assert_eq!(s.channel_id_by_name("first"), None);
    assert_eq!(s.channel_id_by_name(""), None);
}

#[test]
fn activation_requires_membership() {
    let mut s = seeded();
    let a = s.login(String::from("alice"));
    assert_eq!(s.set_active("First", a), ActiveOutcome::NotMember);
    assert!(s.channels[0].active_users.is_empty());
    assert_eq!(s.set_active("Nowhere", a), ActiveOutcome::NotFound);
    s.join_channel("First", a);
    assert_eq!(s.set_active("First", a), ActiveOutcome::Activated);
    assert_eq!(s.set_active("First", a), ActiveOutcome::Activated);
    assert_eq!(s.channels[0].active_users, vec![a]);
}

#[test]
fn inactive_clears_every_active_set() {
    let mut s = seeded();
    let a = s.login(String::from("alice"));
    s.join_channel("First", a);
    s.join_channel("Second_Channel!", a);
    s.set_active("First", a);
    s.set_active("Second_Channel!", a);
    s.set_inactive_all(a);
    assert!(s.channels[0].active_users.is_empty());
    assert!(s.channels[1].active_users.is_empty());
    assert_eq!(s.channels[0].members, vec![a]);
    assert_eq!(s.channels[1].members, vec![a]);
}

#[test]
fn routing_reaches_active_members_of_authors_channels() {
    let mut s = seeded();
    s.add_channel(3, String::from("Third"), ChannelKind::Public);
    let a = s.login(String::from("alice"));
    let b = s.login(String::from("bob"));
    let c = s.login(String::from("carol"));
    // alice active in First and Second_Channel!; bob active in First;
    // carol member of Second_Channel! but inactive, active in Third.
    for name in ["First", "Second_Channel!"] {
        s.join_channel(name, a);
        s.set_active(name, a);
    }
    s.join_channel("First", b);
    s.set_active("First", b);
    s.join_channel("Second_Channel!", c);
    s.join_channel("Third", c);
    s.set_active("Third", c);

    let deliveries = s.route_message(a, String::from("hi"), 7);
    let recipients: Vec<u64> = deliveries.iter().map(|d| d.recipient).collect();
    // First's active set in order, then Second_Channel!'s: echo included,
    // carol never reached.
    assert_eq!(recipients, vec![a, b, a]);
    for d in &deliveries {
        assert_eq!(d.line, "alice: hi");
    }
    // the message was logged once per channel alice is active in
    assert_eq!(s.messages.len(), 2);
    for log in &s.messages {
        assert!(log.channel_id == 1 || log.channel_id == 2);
        assert_eq!(log.entries.len(), 1);
        assert_eq!(log.entries[0].author_id, a);
        assert_eq!(log.entries[0].content, "hi");
        assert_eq!(log.entries[0].timestamp, 7);
    }
}

#[test]
fn routing_with_no_active_channel_reaches_nobody() {
    let mut s = seeded();
    let a = s.login(String::from("alice"));
    s.join_channel("First", a);
    let deliveries = s.route_message(a, String::from("hi"), 0);
    assert!(deliveries.is_empty());
    assert!(s.messages.is_empty());
}

#[test]
fn disconnect_purges_user_everywhere() {
    let mut s = seeded();
    let a = s.login(String::from("alice"));
    let b = s.login(String::from("bob"));
    for name in ["First", "Second_Channel!"] {
        s.join_channel(name, a);
        s.set_active(name, a);
        s.join_channel(name, b);
        s.set_active(name, b);
    }
    s.disconnect(b);
    assert_eq!(s.users.len(), 1);
    assert_eq!(s.users[0].id, a);
    assert_eq!(s.connections, vec![a]);
    assert_eq!(s.channels[0].members, vec![a]);
    assert_eq!(s.channels[0].active_users, vec![a]);
    assert!(!s.is_registered(b));
    // ids are never reused: the counter is untouched by the disconnect
    assert_eq!(s.next_user_id, 3);
}

#[test]
fn routing_skips_a_disconnected_user() {
    let mut s = seeded();
    let a = s.login(String::from("alice"));
    let b = s.login(String::from("bob"));
    for u in [a, b] {
        s.join_channel("First", u);
        s.set_active("First", u);
    }
    let before = s.route_message(a, String::from("one"), 1);
    assert_eq!(before.iter().map(|d| d.recipient).collect::<Vec<_>>(), vec![a, b]);
    s.disconnect(b);
    let after = s.route_message(a, String::from("two"), 2);
    assert_eq!(after.iter().map(|d| d.recipient).collect::<Vec<_>>(), vec![a]);
}

#[test]
fn usernames_need_not_be_unique() {
    let mut s = seeded();
    let a = s.login(String::from("sam"));
    let b = s.login(String::from("sam"));
    assert_ne!(a, b);
    assert_eq!(s.users.len(), 2);
}
