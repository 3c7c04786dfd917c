//! One session's decisions: the login handshake on the first line, and the
//! dispatch of every later line to the matching store transition.  The
//! caller reads and writes the socket; these functions take the line and
//! hand back the store change, the replies owed to the caller, and the
//! deliveries owed to others.

use vstd::prelude::*;
use crate::protocol::{
    channel_list_block, channel_not_found_line, join_success_line, login_rejection_line,
    no_recipients_line, not_a_member_line, parse_command, parse_login, unknown_command_line,
    welcome_line, Command, CommandV,
};
use crate::protocol::{
    spec_channel_list_block, spec_channel_not_found, spec_chat_line, spec_join_success,
    spec_login_rejection, spec_no_recipients, spec_not_a_member, spec_parse_command,
    spec_parse_login, spec_unknown_command, spec_welcome_line,
};
use crate::store::{
    activate_transition, channel_names_of, deactivate_all_transition, deliveries_for,
    disconnect_transition, join_transition, login_transition, recipients_of, route_transition,
    ActiveOutcome, Delivery, ServerState, UserId,
};
use crate::text::{spec_trim_end, trim_line_end};

verus! {

/// What the login handshake decided for one connection.
#[derive(Clone, Copy, Debug, PartialEq, Eq, Structural)]
pub enum LoginOutcome {
    LoggedIn(UserId),
    Rejected,
}

/// Handles the first line of a new connection.  A `LOGIN <username>` line
/// registers a fresh user and owes it the welcome line and the channel
/// list; any other line owes only the rejection line, and the connection
/// is to be dropped with nothing registered.
pub fn login_step(store: &mut ServerState, line: &str) -> (r: (LoginOutcome, Vec<String>))
    requires
        old(store).wf(),
        old(store).next_user_id < u64::MAX,
    ensures
        final(store).wf(),
        ({
            let trimmed = spec_trim_end(line@);
            match spec_parse_login(trimmed) {
                Some(username) => {
                    &&& r.0 == LoginOutcome::LoggedIn(old(store).next_user_id)
                    &&& final(store).has_user(old(store).next_user_id)
                    &&& login_transition(
                        *old(store),
                        *final(store),
                        username,
                        old(store).next_user_id,
                    )
                    &&& r.1@.len() == 2
                    &&& r.1@[0]@ == spec_welcome_line(username)
                    &&& r.1@[1]@ == spec_channel_list_block(
                        channel_names_of(old(store).channels@),
                    )
                },
                None => {
                    &&& r.0 == LoginOutcome::Rejected
                    &&& *final(store) == *old(store)
                    &&& r.1@.len() == 1
                    &&& r.1@[0]@ == spec_login_rejection()
                },
            }
        }),
{
    let trimmed = trim_line_end(line);
    match parse_login(trimmed) {
        Some(username) => {
            let names = store.channel_names();
            let block = channel_list_block(&names);
            let welcome = welcome_line(username.as_str());
            let uid = store.login(username);
            let mut replies: Vec<String> = Vec::new();
            replies.push(welcome);
            replies.push(block);
            (LoginOutcome::LoggedIn(uid), replies)
        },
        None => {
            let mut replies: Vec<String> = Vec::new();
            replies.push(login_rejection_line());
            (LoginOutcome::Rejected, replies)
        },
    }
}

/// What one post-login line asks the caller's loop to do: send `replies`
/// back to the caller, hand each delivery to its recipient's connection,
/// and on `quit` close the connection (the store is already cleaned up).
pub struct StepEffect {
    pub replies: Vec<String>,
    pub deliveries: Vec<Delivery>,
    pub quit: bool,
}

/// Dispatches one line from a logged-in session, applying exactly one
/// store transition and computing what is owed to whom.
pub fn session_step(store: &mut ServerState, uid: UserId, line: &str, timestamp: u64) -> (eff:
    StepEffect)
    requires
        old(store).wf(),
        old(store).has_user(uid),
    ensures
        final(store).wf(),
        ({
            let cmd = spec_parse_command(spec_trim_end(line@));
            match cmd {
                CommandV::Join(name) => {
                    &&& join_transition(*old(store), *final(store), name, uid)
                    &&& eff.deliveries@.len() == 0
                    &&& !eff.quit
                    &&& eff.replies@.len() == 1
                    &&& eff.replies@[0]@ == if old(store).has_channel_named(name) {
                        spec_join_success(name)
                    } else {
                        spec_channel_not_found()
                    }
                },
                CommandV::Active(name) => {
                    &&& activate_transition(*old(store), *final(store), name, uid)
                    &&& eff.deliveries@.len() == 0
                    &&& !eff.quit
                    &&& if !old(store).has_channel_named(name) {
                        eff.replies@.len() == 1 && eff.replies@[0]@ == spec_channel_not_found()
                    } else if !old(store).channels@[old(store).chan_idx_named(
                        name,
                    )].members@.contains(uid) {
                        eff.replies@.len() == 1 && eff.replies@[0]@ == spec_not_a_member(name)
                    } else {
                        eff.replies@.len() == 0
                    }
                },
                CommandV::Inactive => {
                    &&& deactivate_all_transition(*old(store), *final(store), uid)
                    &&& eff.replies@.len() == 0
                    &&& eff.deliveries@.len() == 0
                    &&& !eff.quit
                },
                CommandV::Message(text) => {
                    &&& route_transition(*old(store), *final(store), uid, text, timestamp)
                    &&& recipients_of(eff.deliveries@) == deliveries_for(
                        old(store).channels@,
                        uid,
                    )
                    &&& forall|k: int|
                        0 <= k < eff.deliveries@.len() ==> #[trigger] eff.deliveries@[k].line@
                            == spec_chat_line(old(store).spec_username(uid), text)
                    &&& !eff.quit
                    &&& if eff.deliveries@.len() == 0 {
                        eff.replies@.len() == 1 && eff.replies@[0]@ == spec_no_recipients()
                    } else {
                        eff.replies@.len() == 0
                    }
                },
                CommandV::Quit => {
                    &&& disconnect_transition(*old(store), *final(store), uid)
                    &&& !final(store).has_user(uid)
                    &&& eff.quit
                    &&& eff.replies@.len() == 0
                    &&& eff.deliveries@.len() == 0
                },
                CommandV::Unknown => {
                    &&& *final(store) == *old(store)
                    &&& !eff.quit
                    &&& eff.deliveries@.len() == 0
                    &&& eff.replies@.len() == 1
                    &&& eff.replies@[0]@ == spec_unknown_command()
                },
            }
        }),
{
    let trimmed = trim_line_end(line);
    let cmd = parse_command(trimmed);
    let mut replies: Vec<String> = Vec::new();
    let mut deliveries: Vec<Delivery> = Vec::new();
    let mut quit = false;
    match cmd {
        Command::Join(name) => {
            match store.join_channel(name.as_str(), uid) {
                Some(_) => replies.push(join_success_line(name.as_str())),
                None => replies.push(channel_not_found_line()),
            }
        },
        Command::Active(name) => {
            match store.set_active(name.as_str(), uid) {
                ActiveOutcome::Activated => {},
                ActiveOutcome::NotFound => replies.push(channel_not_found_line()),
                ActiveOutcome::NotMember => replies.push(not_a_member_line(name.as_str())),
            }
        },
        Command::Inactive => {
            store.set_inactive_all(uid);
        },
        Command::Message(text) => {
            deliveries = store.route_message(uid, text, timestamp);
            if deliveries.len() == 0 {
                replies.push(no_recipients_line());
            }
        },
        Command::Quit => {
            store.disconnect(uid);
            quit = true;
        },
        Command::Unknown => {
            replies.push(unknown_command_line());
        },
    }
    StepEffect { replies, deliveries, quit }
}

} // verus!
