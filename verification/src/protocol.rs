//! The line protocol: the command a client line parses into, and the exact
//! text of every line the server sends back.

use vstd::prelude::*;
use vstd::string::StringExecFns;
use crate::text::{spec_starts_with, strip_prefix_of, str_eq};

verus! {

/// One client line after login, parsed.
#[derive(Debug, PartialEq, Eq)]
pub enum Command {
    Join(String),
    Active(String),
    Inactive,
    Message(String),
    Quit,
    Unknown,
}

/// Mathematical image of `Command`.
pub ghost enum CommandV {
    Join(Seq<char>),
    Active(Seq<char>),
    Inactive,
    Message(Seq<char>),
    Quit,
    Unknown,
}

impl View for Command {
    type V = CommandV;

    open spec fn view(&self) -> CommandV {
        match self {
            Command::Join(s) => CommandV::Join(s@),
            Command::Active(s) => CommandV::Active(s@),
            Command::Inactive => CommandV::Inactive,
            Command::Message(s) => CommandV::Message(s@),
            Command::Quit => CommandV::Quit,
            Command::Unknown => CommandV::Unknown,
        }
    }
}

/// What a (already trimmed) line parses into: a leading verb with its
/// argument, or the bare verbs `QUIT` and `INACTIVE`; anything else is
/// `Unknown`.
pub open spec fn spec_parse_command(line: Seq<char>) -> CommandV {
    if spec_starts_with(line, "JOIN "@) {
        CommandV::Join(line.skip("JOIN "@.len() as int))
    } else if spec_starts_with(line, "MESSAGE "@) {
        CommandV::Message(line.skip("MESSAGE "@.len() as int))
    } else if spec_starts_with(line, "ACTIVE "@) {
        CommandV::Active(line.skip("ACTIVE "@.len() as int))
    } else if line == "QUIT"@ {
        CommandV::Quit
    } else if line == "INACTIVE"@ {
        CommandV::Inactive
    } else {
        CommandV::Unknown
    }
}

/// Parses one post-login line.  Pure: no I/O, no state.
pub fn parse_command(line: &str) -> (r: Command)
    ensures
        r@ == spec_parse_command(line@),
{
    if let Some(name) = strip_prefix_of(line, "JOIN ") {
        Command::Join(String::from_str(name))
    } else if let Some(message) = strip_prefix_of(line, "MESSAGE ") {
        Command::Message(String::from_str(message))
    } else if let Some(name) = strip_prefix_of(line, "ACTIVE ") {
        Command::Active(String::from_str(name))
    } else if str_eq(line, "QUIT") {
        Command::Quit
    } else if str_eq(line, "INACTIVE") {
        Command::Inactive
    } else {
        Command::Unknown
    }
}

/// The username carried by a first line of the shape `LOGIN <username>`.
pub open spec fn spec_parse_login(line: Seq<char>) -> Option<Seq<char>> {
    if spec_starts_with(line, "LOGIN "@) {
        Some(line.skip("LOGIN "@.len() as int))
    } else {
        None
    }
}

/// Parses the first (already trimmed) line of a connection.
pub fn parse_login(line: &str) -> (r: Option<String>)
    ensures
        match r {
            Some(u) => spec_parse_login(line@) == Some(u@),
            None => spec_parse_login(line@) is None,
        },
{
    match strip_prefix_of(line, "LOGIN ") {
        Some(rest) => Some(String::from_str(rest)),
        None => None,
    }
}

/// The welcome line sent after a successful login.
pub open spec fn spec_welcome_line(username: Seq<char>) -> Seq<char> {
    "Welcome, "@ + username + ", you successfully logged in!\n"@
}

pub fn welcome_line(username: &str) -> (r: String)
    ensures
        r@ == spec_welcome_line(username@),
{
    let mut s = String::from_str("Welcome, ");
    s.append(username);
    s.append(", you successfully logged in!\n");
    s
}

/// The block listing the channels open on the server: a header, then each
/// channel name on a line of its own.
pub open spec fn spec_channel_list(names: Seq<Seq<char>>) -> Seq<char>
    decreases names.len(),
{
    if names.len() == 0 {
        Seq::empty()
    } else {
        spec_channel_list(names.drop_last()) + "\n"@ + names.last() + "\n"@
    }
}

pub open spec fn spec_channel_list_block(names: Seq<Seq<char>>) -> Seq<char> {
    "Available channels: "@ + spec_channel_list(names)
}

pub fn channel_list_block(names: &Vec<String>) -> (r: String)
    ensures
        r@ == spec_channel_list_block(names.deep_view()),
{
    let mut s = String::from_str("Available channels: ");
    let mut i: usize = 0;
    while i < names.len()
        invariant
            i <= names@.len(),
            s@ == "Available channels: "@ + spec_channel_list(names.deep_view().take(i as int)),
        decreases names@.len() - i,
    {
        s.append("\n");
        s.append(names[i].as_str());
        s.append("\n");
        proof {
            let dv = names.deep_view();
            assert(dv.take(i + 1).drop_last() =~= dv.take(i as int));
            assert(dv.take(i + 1).last() == dv[i as int]);
        }
        i += 1;
    }
    proof {
        assert(names.deep_view().take(names.deep_view().len() as int) =~= names.deep_view());
    }
    s
}

/// The reply to a malformed first line; the connection is then dropped.
pub open spec fn spec_login_rejection() -> Seq<char> {
    "expected: LOGIN - dropping connection. Please try again!"@
}

pub fn login_rejection_line() -> (r: String)
    ensures
        r@ == spec_login_rejection(),
{
    String::from_str("expected: LOGIN - dropping connection. Please try again!")
}

/// The confirmation sent to a caller that joined a channel.
pub open spec fn spec_join_success(name: Seq<char>) -> Seq<char> {
    "you have successfully joined "@ + name + "!"@
}

pub fn join_success_line(name: &str) -> (r: String)
    ensures
        r@ == spec_join_success(name@),
{
    let mut s = String::from_str("you have successfully joined ");
    s.append(name);
    s.append("!");
    s
}

/// The reply to a `JOIN` or `ACTIVE` that names no existing channel.
pub open spec fn spec_channel_not_found() -> Seq<char> {
    "Requested server not found."@
}

pub fn channel_not_found_line() -> (r: String)
    ensures
        r@ == spec_channel_not_found(),
{
    String::from_str("Requested server not found.")
}

/// The reply to an `ACTIVE` for a channel the caller has not joined.
pub open spec fn spec_not_a_member(name: Seq<char>) -> Seq<char> {
    "you are not a member of "@ + name + "."@
}

pub fn not_a_member_line(name: &str) -> (r: String)
    ensures
        r@ == spec_not_a_member(name@),
{
    let mut s = String::from_str("you are not a member of ");
    s.append(name);
    s.append(".");
    s
}

/// The reply to a line no verb matches.
pub open spec fn spec_unknown_command() -> Seq<char> {
    "unknown command"@
}

pub fn unknown_command_line() -> (r: String)
    ensures
        r@ == spec_unknown_command(),
{
    String::from_str("unknown command")
}

/// The notice sent to a caller whose `MESSAGE` reached no channel.
pub open spec fn spec_no_recipients() -> Seq<char> {
    "you are not active in any channel - message not delivered."@
}

pub fn no_recipients_line() -> (r: String)
    ensures
        r@ == spec_no_recipients(),
{
    String::from_str("you are not active in any channel - message not delivered.")
}

/// The author-attributed form of a routed chat message.
pub open spec fn spec_chat_line(author: Seq<char>, text: Seq<char>) -> Seq<char> {
    author + ": "@ + text
}

pub fn chat_line(author: &str, text: &str) -> (r: String)
    ensures
        r@ == spec_chat_line(author@, text@),
{
    let mut s = String::from_str(author);
    s.append(": ");
    s.append(text);
    s
}

} // verus!
