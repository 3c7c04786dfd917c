use chat_app::protocol::{
    channel_list_block, channel_not_found_line, chat_line, join_success_line,
    login_rejection_line, no_recipients_line, not_a_member_line, parse_command, parse_login,
    unknown_command_line, welcome_line, Command,
};

#[test]
fn parse_join() {
    assert_eq!(parse_command("JOIN First"), Command::Join(String::from("First")));
}

#[test]
fn parse_message() {
    assert_eq!(parse_command("MESSAGE hi there"), Command::Message(String::from("hi there")));
}

#[test]
fn parse_active() {
    assert_eq!(parse_command("ACTIVE First"), Command::Active(String::from("First")));
}

#[test]
fn parse_quit() {
    assert_eq!(parse_command("QUIT"), Command::Quit);
}

#[test]
fn parse_inactive() {
    assert_eq!(parse_command("INACTIVE"), Command::Inactive);
}

#[test]
fn parse_unknown() {
    assert_eq!(parse_command("FOO"), Command::Unknown);
    assert_eq!(parse_command(""), Command::Unknown);
    assert_eq!(parse_command("JOINFirst"), Command::Unknown);
    assert_eq!(parse_command("join First"), Command::Unknown);
    assert_eq!(parse_command("QUIT now"), Command::Unknown);
}

#[test]
fn parse_verbs_need_their_argument_space() {
    assert_eq!(parse_command("JOIN"), Command::Unknown);
    assert_eq!(parse_command("MESSAGE"), Command::Unknown);
    assert_eq!(parse_command("ACTIVE"), Command::Unknown);
}

#[test]
fn parse_login_line() {
    assert_eq!(parse_login("LOGIN alice"), Some(String::from("alice")));
    assert_eq!(parse_login("LOGIN "), Some(String::from("")));
    assert_eq!(parse_login("HELLO"), None);
    assert_eq!(parse_login("login alice"), None);
}

#[test]
fn welcome_text_exact() {
    assert_eq!(welcome_line("alice"), "Welcome, alice, you successfully logged in!\n");
}

#[test]
fn channel_list_text_exact() {
    let names = vec![String::from("First"), String::from("Second_Channel!")];
    assert_eq!(channel_list_block(&names), "Available channels: \nFirst\n\nSecond_Channel!\n");
    let none: Vec<String> = Vec::new();
    assert_eq!(channel_list_block(&none), "Available channels: ");
}

#[test]
fn reply_lines_exact() {
    assert_eq!(login_rejection_line(), "expected: LOGIN - dropping connection. Please try again!");
    assert_eq!(join_success_line("First"), "you have successfully joined First!");
    assert_eq!(channel_not_found_line(), "Requested server not found.");
    assert_eq!(unknown_command_line(), "unknown command");
    assert_eq!(not_a_member_line("First"), "you are not a member of First.");
    assert_eq!(
        no_recipients_line(),
        "you are not active in any channel - message not delivered."
    );
    assert_eq!(chat_line("alice", "hi"), "alice: hi");
}
