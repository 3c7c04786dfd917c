//! The shared state store: users, connections, channels and per-channel
//! message logs, with the invariants that hold of them, and the verified
//! transitions the protocol drives (login, join, activate, deactivate,
//! route, disconnect).
//!
//! The store itself is a plain value; the caller serializes access to it
//! (one exclusive lock around every call) and owns the socket handles that
//! the `connections` entries stand for.

use vstd::prelude::*;
use vstd::string::StringExecFns;
use crate::protocol::{chat_line, spec_chat_line};
use crate::text::{contains_id, distinct_seq, remove_id, remove_id_vec, str_eq};
use crate::text::{lemma_remove_id_contains, lemma_remove_id_distinct};

verus! {

pub type UserId = u64;

pub type ChannelId = u64;

/// One logical user, created at successful login and never mutated.
pub struct User {
    pub id: UserId,
    pub username: String,
}

/// A routed chat message, as kept in a channel's append-only log.  The
/// timestamp is milliseconds since the epoch, supplied by the caller.
pub struct Message {
    pub author_id: UserId,
    pub content: String,
    pub timestamp: u64,
}

#[derive(Clone, Copy, Debug, PartialEq, Eq, Structural)]
pub enum ChannelKind {
    Public,
    GroupChat,
    DirectMessage,
    Broadcast,
}

/// A named group: a stable member set and the transient subset of members
/// currently listening for broadcast traffic.
pub struct Channel {
    pub id: ChannelId,
    pub name: String,
    pub kind: ChannelKind,
    pub members: Vec<UserId>,
    pub active_users: Vec<UserId>,
}

/// The append-only message log of one channel.
pub struct ChannelLog {
    pub channel_id: ChannelId,
    pub entries: Vec<Message>,
}

/// The single shared aggregate of all server data.  A user id is listed in
/// `connections` exactly when the caller holds a live outbound handle for
/// it; the invariant ties that list to the registered users.
pub struct ServerState {
    pub next_user_id: UserId,
    pub users: Vec<User>,
    pub connections: Vec<UserId>,
    pub channels: Vec<Channel>,
    pub messages: Vec<ChannelLog>,
}

impl ServerState {
    pub open spec fn has_user(self, id: UserId) -> bool {
        exists|i: int| 0 <= i < self.users@.len() && self.users@[i].id == id
    }

    pub open spec fn user_idx(self, id: UserId) -> int {
        choose|i: int| 0 <= i < self.users@.len() && self.users@[i].id == id
    }

    pub open spec fn spec_username(self, id: UserId) -> Seq<char> {
        self.users@[self.user_idx(id)].username@
    }

    pub open spec fn is_connected(self, id: UserId) -> bool {
        self.connections@.contains(id)
    }

    pub open spec fn has_channel(self, cid: ChannelId) -> bool {
        exists|i: int| 0 <= i < self.channels@.len() && self.channels@[i].id == cid
    }

    pub open spec fn has_channel_named(self, name: Seq<char>) -> bool {
        exists|i: int| 0 <= i < self.channels@.len() && self.channels@[i].name@ == name
    }

    pub open spec fn chan_idx_named(self, name: Seq<char>) -> int {
        choose|i: int| 0 <= i < self.channels@.len() && self.channels@[i].name@ == name
    }

    pub open spec fn has_log(self, cid: ChannelId) -> bool {
        exists|i: int| 0 <= i < self.messages@.len() && self.messages@[i].channel_id == cid
    }

    pub open spec fn log_idx(self, cid: ChannelId) -> int {
        choose|i: int| 0 <= i < self.messages@.len() && self.messages@[i].channel_id == cid
    }

    /// The log of channel `cid`: empty until a first message is routed there.
    pub open spec fn log_of(self, cid: ChannelId) -> Seq<Message> {
        if self.has_log(cid) {
            self.messages@[self.log_idx(cid)].entries@
        } else {
            Seq::empty()
        }
    }

    /// User ids are pairwise distinct and all below the allocation counter,
    /// so an id is never reused.
    pub open spec fn users_wf(self) -> bool {
        &&& forall|i: int, j: int|
            0 <= i < j < self.users@.len() ==> self.users@[i].id != self.users@[j].id
        &&& forall|i: int| 0 <= i < self.users@.len() ==> self.users@[i].id < self.next_user_id
    }

    /// A connection entry exists for an id exactly when that user is
    /// registered.
    pub open spec fn connections_wf(self) -> bool {
        &&& distinct_seq(self.connections@)
        &&& forall|id: UserId| self.is_connected(id) <==> self.has_user(id)
    }

    /// Membership holds a user at most once, the active set is a subset of
    /// the members, and every member is a registered user.
    pub open spec fn channel_wf(self, j: int) -> bool {
        let c = self.channels@[j];
        &&& distinct_seq(c.members@)
        &&& distinct_seq(c.active_users@)
        &&& forall|k: int|
            0 <= k < c.active_users@.len() ==> c.members@.contains(c.active_users@[k])
        &&& forall|k: int| 0 <= k < c.members@.len() ==> self.has_user(c.members@[k])
    }

    pub open spec fn channels_wf(self) -> bool {
        &&& forall|i: int, j: int|
            0 <= i < j < self.channels@.len() ==> self.channels@[i].id != self.channels@[j].id
        &&& forall|i: int, j: int|
            0 <= i < j < self.channels@.len() ==> self.channels@[i].name@
                != self.channels@[j].name@
        &&& forall|j: int| 0 <= j < self.channels@.len() ==> self.channel_wf(j)
    }

    pub open spec fn logs_wf(self) -> bool {
        &&& forall|i: int, j: int|
            0 <= i < j < self.messages@.len() ==> self.messages@[i].channel_id
                != self.messages@[j].channel_id
        &&& forall|i: int|
            0 <= i < self.messages@.len() ==> self.has_channel(self.messages@[i].channel_id)
    }

    /// The store's invariant: established by `new`, preserved by every
    /// transition.
    pub open spec fn wf(self) -> bool {
        &&& self.users_wf()
        &&& self.connections_wf()
        &&& self.channels_wf()
        &&& self.logs_wf()
    }

    /// An empty store; user ids start at 1.
    pub fn new() -> (s: Self)
        ensures
            s.wf(),
            s.next_user_id == 1,
            s.users@ =~= Seq::<User>::empty(),
            s.connections@ =~= Seq::<UserId>::empty(),
            s.channels@ =~= Seq::<Channel>::empty(),
            s.messages@ =~= Seq::<ChannelLog>::empty(),
    {
        ServerState {
            next_user_id: 1,
            users: Vec::new(),
            connections: Vec::new(),
            channels: Vec::new(),
            messages: Vec::new(),
        }
    }

    /// Adds a channel with no members, provided its id and name are both
    /// new; returns whether it was added.
    pub fn add_channel(&mut self, id: ChannelId, name: String, kind: ChannelKind) -> (added:
        bool)
        requires
            old(self).wf(),
        ensures
            final(self).wf(),
            added == (!old(self).has_channel(id) && !old(self).has_channel_named(name@)),
            added ==> {
                &&& final(self).channels@.len() == old(self).channels@.len() + 1
                &&& forall|k: int|
                    0 <= k < old(self).channels@.len() ==> final(self).channels@[k] == old(
                        self,
                    ).channels@[k]
                &&& final(self).channels@.last().id == id
                &&& final(self).channels@.last().name@ == name@
                &&& final(self).channels@.last().kind == kind
                &&& final(self).channels@.last().members@ =~= Seq::<UserId>::empty()
                &&& final(self).channels@.last().active_users@ =~= Seq::<UserId>::empty()
                &&& final(self).users == old(self).users
                &&& final(self).connections == old(self).connections
                &&& final(self).messages == old(self).messages
                &&& final(self).next_user_id == old(self).next_user_id
            },
            !added ==> *final(self) == *old(self),
    {
        let mut id_taken = false;
        let mut name_taken = false;
        let mut i: usize = 0;
        while i < self.channels.len()
            invariant
                i <= self.channels@.len(),
                id_taken == exists|k: int|
                    0 <= k < i && self.channels@[k].id == id,
                name_taken == exists|k: int|
                    0 <= k < i && self.channels@[k].name@ == name@,
            decreases self.channels@.len() - i,
        {
            if self.channels[i].id == id {
                id_taken = true;
            }
            if str_eq(self.channels[i].name.as_str(), name.as_str()) {
                name_taken = true;
            }
            i += 1;
        }
        if id_taken || name_taken {
            return false;
        }
        let fresh = Channel {
            id,
            name,
            kind,
            members: Vec::new(),
            active_users: Vec::new(),
        };
        self.channels.push(fresh);
        proof {
            let post = *self;
            let pre = *old(self);
            lemma_has_user_unchanged(pre, post);
            lemma_has_channel_preserved(pre, post);
            assert forall|id: UserId| post.is_connected(id) <==> post.has_user(id) by {
                assert(pre.is_connected(id) <==> pre.has_user(id));
            }
            assert forall|j: int| 0 <= j < post.channels@.len() implies post.channel_wf(j) by {
                if j < pre.channels@.len() {
                    assert(pre.channel_wf(j));
                } else {
                    assert(post.channels@[j].members@.len() == 0);
                    assert(post.channels@[j].active_users@.len() == 0);
                }
            }
        }
        true
    }

    /// Seeds the two channels the server starts with: `First` and
    /// `Second_Channel!`, both broadcast channels with no members.
    pub fn seed_test_channels(&mut self)
        requires
            old(self).wf(),
        ensures
            final(self).wf(),
            old(self).channels@.len() == 0 ==> {
                &&& final(self).channels@.len() == 2
                &&& final(self).channels@[0].id == 1
                &&& final(self).channels@[0].name@ == "First"@
                &&& final(self).channels@[0].kind == ChannelKind::Broadcast
                &&& final(self).channels@[0].members@ =~= Seq::<UserId>::empty()
                &&& final(self).channels@[0].active_users@ =~= Seq::<UserId>::empty()
                &&& final(self).channels@[1].id == 2
                &&& final(self).channels@[1].name@ == "Second_Channel!"@
                &&& final(self).channels@[1].kind == ChannelKind::Broadcast
                &&& final(self).channels@[1].members@ =~= Seq::<UserId>::empty()
                &&& final(self).channels@[1].active_users@ =~= Seq::<UserId>::empty()
            },
            final(self).users == old(self).users,
            final(self).connections == old(self).connections,
            final(self).messages == old(self).messages,
            final(self).next_user_id == old(self).next_user_id,
    {
        proof {
            reveal_strlit("First");
            reveal_strlit("Second_Channel!");
        }
        let added_first = self.add_channel(1, String::from_str("First"), ChannelKind::Broadcast);
        proof {
            if old(self).channels@.len() == 0 {
                assert(added_first);
                assert(self.channels@.len() == 1);
                assert("First"@.len() == 5);
                assert("Second_Channel!"@.len() == 15);
                assert(!self.has_channel(2));
                assert(!self.has_channel_named("Second_Channel!"@));
            }
        }
        let added_second = self.add_channel(
            2,
            String::from_str("Second_Channel!"),
            ChannelKind::Broadcast,
        );
        proof {
            if old(self).channels@.len() == 0 {
                assert(added_second);
            }
        }
    }

    /// The index of the channel named `name`, scanning in order; `None`
    /// when no channel has that name.
    pub fn find_channel_index(&self, name: &str) -> (r: Option<usize>)
        ensures
            match r {
                Some(j) => j < self.channels@.len() && self.channels@[j as int].name@ == name@,
                None => !self.has_channel_named(name@),
            },
    {
        let mut i: usize = 0;
        while i < self.channels.len()
            invariant
                i <= self.channels@.len(),
                forall|k: int| 0 <= k < i ==> self.channels@[k].name@ != name@,
            decreases self.channels@.len() - i,
        {
            if str_eq(self.channels[i].name.as_str(), name) {
                return Some(i);
            }
            i += 1;
        }
        None
    }

    /// The id of the channel named `name`, if any.
    pub fn channel_id_by_name(&self, name: &str) -> (r: Option<ChannelId>)
        requires
            self.wf(),
        ensures
            r == if self.has_channel_named(name@) {
                Some(self.channels@[self.chan_idx_named(name@)].id)
            } else {
                None::<ChannelId>
            },
    {
        match self.find_channel_index(name) {
            Some(j) => {
                proof {
                    self.lemma_chan_idx_agrees(j as int, name@);
                }
                Some(self.channels[j].id)
            },
            None => None,
        }
    }

    /// Under the invariant, channel names are unique, so any index whose
    /// channel carries `name` is the chosen one.
    pub proof fn lemma_chan_idx_agrees(self, j: int, name: Seq<char>)
        requires
            self.wf(),
            0 <= j < self.channels@.len(),
            self.channels@[j].name@ == name,
        ensures
            self.has_channel_named(name),
            self.chan_idx_named(name) == j,
    {
        let j2 = self.chan_idx_named(name);
    }

    /// Under the invariant, user ids are unique, so any index whose user
    /// carries `id` is the chosen one.
    pub proof fn lemma_user_idx_agrees(self, i: int, id: UserId)
        requires
            self.wf(),
            0 <= i < self.users@.len(),
            self.users@[i].id == id,
        ensures
            self.has_user(id),
            self.user_idx(id) == i,
    {
        let i2 = self.user_idx(id);
    }

    /// The names of all channels, in channel order.
    pub fn channel_names(&self) -> (r: Vec<String>)
        ensures
            r.deep_view() == channel_names_of(self.channels@),
    {
        let mut out: Vec<String> = Vec::new();
        let mut i: usize = 0;
        while i < self.channels.len()
            invariant
                i <= self.channels@.len(),
                out@.len() == i,
                forall|k: int| 0 <= k < i ==> out@[k]@ == self.channels@[k].name@,
            decreases self.channels@.len() - i,
        {
            out.push(self.channels[i].name.clone());
            i += 1;
        }
        proof {
            assert(out.deep_view() =~= channel_names_of(self.channels@));
        }
        out
    }

    /// The username of a registered user.
    pub fn username_of(&self, uid: UserId) -> (r: String)
        requires
            self.wf(),
            self.has_user(uid),
        ensures
            r@ == self.spec_username(uid),
    {
        let n = self.users.len();
        proof {
            let w = self.user_idx(uid);
        }
        let mut i: usize = 0;
        while self.users[i].id != uid
            invariant
                n == self.users@.len(),
                i < n,
                forall|k: int| 0 <= k < i ==> self.users@[k].id != uid,
                self.wf(),
                self.has_user(uid),
            decreases self.users@.len() - i,
        {
            proof {
                let w = self.user_idx(uid);
                assert(w > i);
            }
            i += 1;
        }
        proof {
            self.lemma_user_idx_agrees(i as int, uid);
        }
        self.users[i].username.clone()
    }
}

/// The channel names in channel order, as sequences of characters.
pub open spec fn channel_names_of(channels: Seq<Channel>) -> Seq<Seq<char>> {
    channels.map_values(|c: Channel| c.name@)
}

/// Registered users are the same in two stores whose user tables agree.
pub proof fn lemma_has_user_unchanged(pre: ServerState, post: ServerState)
    requires
        post.users@ == pre.users@,
    ensures
        forall|x: UserId| #[trigger] pre.has_user(x) ==> post.has_user(x),
        forall|x: UserId| #[trigger] post.has_user(x) ==> pre.has_user(x),
{
    assert forall|x: UserId| #[trigger] pre.has_user(x) implies post.has_user(x) by {
        let w = pre.user_idx(x);
        assert(pre.users@[w].id == x);
        assert(post.users@[w].id == x);
    }
    assert forall|x: UserId| #[trigger] post.has_user(x) implies pre.has_user(x) by {
        let w = post.user_idx(x);
        assert(post.users@[w].id == x);
        assert(pre.users@[w].id == x);
    }
}

/// A store whose channel list keeps every channel id keeps every channel.
pub proof fn lemma_has_channel_preserved(pre: ServerState, post: ServerState)
    requires
        post.channels@.len() >= pre.channels@.len(),
        forall|k: int|
            0 <= k < pre.channels@.len() ==> post.channels@[k].id == pre.channels@[k].id,
    ensures
        forall|cid: ChannelId| #[trigger] pre.has_channel(cid) ==> post.has_channel(cid),
{
    assert forall|cid: ChannelId| #[trigger] pre.has_channel(cid) implies post.has_channel(
        cid,
    ) by {
        let w = choose|i: int| 0 <= i < pre.channels@.len() && pre.channels@[i].id == cid;
        assert(post.channels@[w].id == cid);
    }
}

/// The store change one successful login makes: the fresh id is recorded
/// as a user and as a connection, and the allocation counter moves past it.
pub open spec fn login_transition(
    pre: ServerState,
    post: ServerState,
    username: Seq<char>,
    uid: UserId,
) -> bool {
    &&& post.next_user_id == pre.next_user_id + 1
    &&& post.users@.len() == pre.users@.len() + 1
    &&& forall|k: int| 0 <= k < pre.users@.len() ==> post.users@[k] == pre.users@[k]
    &&& post.users@.last().id == uid
    &&& post.users@.last().username@ == username
    &&& post.connections@ == pre.connections@.push(uid)
    &&& post.channels == pre.channels
    &&& post.messages == pre.messages
}

impl ServerState {
    /// Registers a new user and its connection entry, allocating the next
    /// user id.
    pub fn login(&mut self, username: String) -> (uid: UserId)
        requires
            old(self).wf(),
            old(self).next_user_id < u64::MAX,
        ensures
            final(self).wf(),
            uid == old(self).next_user_id,
            !old(self).has_user(uid),
            final(self).has_user(uid),
            login_transition(*old(self), *final(self), username@, uid),
    {
        let uid = self.next_user_id;
        proof {
            if old(self).has_user(uid) {
                let w = old(self).user_idx(uid);
            }
        }
        self.next_user_id = self.next_user_id + 1;
        self.users.push(User { id: uid, username });
        self.connections.push(uid);
        proof {
            broadcast use vstd::seq_lib::lemma_seq_contains_after_push;

            let pre = *old(self);
            let post = *self;
            assert(post.users@[pre.users@.len() as int].id == uid);
            assert(distinct_seq(post.connections@)) by {
                assert forall|a: int, b: int|
                    0 <= a < b < post.connections@.len() implies post.connections@[a]
                    != post.connections@[b] by {
                    if b == post.connections@.len() - 1 {
                        assert(pre.connections@.contains(pre.connections@[a]));
                    }
                }
            }
            assert forall|id: UserId| post.is_connected(id) <==> post.has_user(id) by {
                if post.is_connected(id) {
                    if id != uid {
                        assert(pre.is_connected(id));
                        let w = pre.user_idx(id);
                        assert(pre.users@[w].id == id);
                        assert(post.users@[w].id == id);
                    }
                }
                if post.has_user(id) {
                    let w = post.user_idx(id);
                    assert(post.users@[w].id == id);
                    if w < pre.users@.len() {
                        assert(pre.users@[w].id == id);
                        assert(pre.is_connected(id));
                    }
                }
            }
            assert forall|j: int| 0 <= j < post.channels@.len() implies post.channel_wf(j) by {
                assert(pre.channel_wf(j));
                let c = post.channels@[j];
                assert forall|k: int| 0 <= k < c.members@.len() implies post.has_user(
                    c.members@[k],
                ) by {
                    assert(pre.has_user(c.members@[k]));
                    let w = pre.user_idx(c.members@[k]);
                    assert(pre.users@[w].id == c.members@[k]);
                    assert(post.users@[w].id == c.members@[k]);
                }
            }
        }
        uid
    }
}

/// The store change a `JOIN` makes: when a channel of that name exists the
/// caller is added to its member set unless already present, and nothing
/// else moves; when none exists the store is untouched.
pub open spec fn join_transition(
    pre: ServerState,
    post: ServerState,
    name: Seq<char>,
    uid: UserId,
) -> bool {
    if pre.has_channel_named(name) {
        let j = pre.chan_idx_named(name);
        let c = pre.channels@[j];
        &&& post.channels@.len() == pre.channels@.len()
        &&& forall|k: int|
            0 <= k < pre.channels@.len() && k != j ==> post.channels@[k] == pre.channels@[k]
        &&& post.channels@[j].id == c.id
        &&& post.channels@[j].name == c.name
        &&& post.channels@[j].kind == c.kind
        &&& post.channels@[j].active_users == c.active_users
        &&& post.channels@[j].members@ == if c.members@.contains(uid) {
            c.members@
        } else {
            c.members@.push(uid)
        }
        &&& post.users == pre.users
        &&& post.connections == pre.connections
        &&& post.messages == pre.messages
        &&& post.next_user_id == pre.next_user_id
    } else {
        post == pre
    }
}

impl ServerState {
    /// Joins the caller to the channel of that exact name.  Already a
    /// member: a no-op success.  No such channel: the store is unchanged
    /// and `None` comes back.
    pub fn join_channel(&mut self, name: &str, uid: UserId) -> (r: Option<ChannelId>)
        requires
            old(self).wf(),
            old(self).has_user(uid),
        ensures
            final(self).wf(),
            join_transition(*old(self), *final(self), name@, uid),
            r == if old(self).has_channel_named(name@) {
                Some(old(self).channels@[old(self).chan_idx_named(name@)].id)
            } else {
                None::<ChannelId>
            },
    {
        match self.find_channel_index(name) {
            None => None,
            Some(j) => {
                proof {
                    self.lemma_chan_idx_agrees(j as int, name@);
                }
                let cid = self.channels[j].id;
                let already = contains_id(&self.channels[j].members, uid);
                if !already {
                    self.channels[j].members.push(uid);
                }
                proof {
                    broadcast use vstd::seq_lib::lemma_seq_contains_after_push;

                    let pre = *old(self);
                    let post = *self;
                    assert(post.users@ == pre.users@);
                    lemma_has_user_unchanged(pre, post);
                    lemma_has_channel_preserved(pre, post);
                    assert forall|id: UserId| post.is_connected(id) <==> post.has_user(id) by {
                        assert(pre.is_connected(id) <==> pre.has_user(id));
                    }
                    assert forall|k: int| 0 <= k < post.channels@.len() implies post.channel_wf(
                        k,
                    ) by {
                        assert(pre.channel_wf(k));
                        if k == j {
                            let c0 = pre.channels@[k];
                            let c1 = post.channels@[k];
                            if !c0.members@.contains(uid) {
                                assert(c1.members@ == c0.members@.push(uid));
                                assert forall|a: int, b: int|
                                    0 <= a < b < c1.members@.len() implies c1.members@[a]
                                    != c1.members@[b] by {
                                    if b == c1.members@.len() - 1 {
                                        assert(c0.members@.contains(c0.members@[a]));
                                    }
                                }
                                assert forall|k2: int|
                                    0 <= k2 < c1.active_users@.len() implies c1.members@.contains(
                                    c1.active_users@[k2],
                                ) by {
                                    assert(c0.members@.contains(c0.active_users@[k2]));
                                }
                                assert forall|k2: int|
                                    0 <= k2 < c1.members@.len() implies post.has_user(
                                    c1.members@[k2],
                                ) by {
                                    if k2 < c0.members@.len() {
                                        assert(pre.has_user(c0.members@[k2]));
                                    } else {
                                        assert(c1.members@[k2] == uid);
                                        assert(pre.has_user(uid));
                                    }
                                }
                            }
                        }
                    }
                }
                Some(cid)
            },
        }
    }
}

/// How an `ACTIVE <channel-name>` request fared.
#[derive(Clone, Copy, Debug, PartialEq, Eq, Structural)]
pub enum ActiveOutcome {
    Activated,
    NotFound,
    NotMember,
}

/// The store change an `ACTIVE` makes: when the named channel exists and
/// the caller is one of its members, the caller enters its active set
/// unless already there; otherwise the store is untouched.
pub open spec fn activate_transition(
    pre: ServerState,
    post: ServerState,
    name: Seq<char>,
    uid: UserId,
) -> bool {
    if pre.has_channel_named(name) && pre.channels@[pre.chan_idx_named(name)].members@.contains(
        uid,
    ) {
        let j = pre.chan_idx_named(name);
        let c = pre.channels@[j];
        &&& post.channels@.len() == pre.channels@.len()
        &&& forall|k: int|
            0 <= k < pre.channels@.len() && k != j ==> post.channels@[k] == pre.channels@[k]
        &&& post.channels@[j].id == c.id
        &&& post.channels@[j].name == c.name
        &&& post.channels@[j].kind == c.kind
        &&& post.channels@[j].members == c.members
        &&& post.channels@[j].active_users@ == if c.active_users@.contains(uid) {
            c.active_users@
        } else {
            c.active_users@.push(uid)
        }
        &&& post.users == pre.users
        &&& post.connections == pre.connections
        &&& post.messages == pre.messages
        &&& post.next_user_id == pre.next_user_id
    } else {
        post == pre
    }
}

impl ServerState {
    /// Marks the caller active in the channel of that exact name.  The
    /// caller must already be a member; otherwise, or when no channel has
    /// that name, nothing changes and the outcome says why.
    pub fn set_active(&mut self, name: &str, uid: UserId) -> (r: ActiveOutcome)
        requires
            old(self).wf(),
        ensures
            final(self).wf(),
            activate_transition(*old(self), *final(self), name@, uid),
            (r == ActiveOutcome::NotFound) == !old(self).has_channel_named(name@),
            old(self).has_channel_named(name@) ==> {
                let members = old(self).channels@[old(self).chan_idx_named(name@)].members@;
                &&& (r == ActiveOutcome::Activated) == members.contains(uid)
                &&& (r == ActiveOutcome::NotMember) == !members.contains(uid)
            },
    {
        match self.find_channel_index(name) {
            None => ActiveOutcome::NotFound,
            Some(j) => {
                proof {
                    self.lemma_chan_idx_agrees(j as int, name@);
                }
                if !contains_id(&self.channels[j].members, uid) {
                    return ActiveOutcome::NotMember;
                }
                let already = contains_id(&self.channels[j].active_users, uid);
                if !already {
                    self.channels[j].active_users.push(uid);
                }
                proof {
                    broadcast use vstd::seq_lib::lemma_seq_contains_after_push;

                    let pre = *old(self);
                    let post = *self;
                    assert(post.users@ == pre.users@);
                    lemma_has_user_unchanged(pre, post);
                    lemma_has_channel_preserved(pre, post);
                    assert forall|id: UserId| post.is_connected(id) <==> post.has_user(id) by {
                        assert(pre.is_connected(id) <==> pre.has_user(id));
                    }
                    assert forall|k: int| 0 <= k < post.channels@.len() implies post.channel_wf(
                        k,
                    ) by {
                        assert(pre.channel_wf(k));
                        if k == j {
                            let c0 = pre.channels@[k];
                            let c1 = post.channels@[k];
                            if !c0.active_users@.contains(uid) {
                                assert(c1.active_users@ == c0.active_users@.push(uid));
                                assert forall|a: int, b: int|
                                    0 <= a < b < c1.active_users@.len() implies c1.active_users@[a]
                                    != c1.active_users@[b] by {
                                    if b == c1.active_users@.len() - 1 {
                                        assert(c0.active_users@.contains(c0.active_users@[a]));
                                    }
                                }
                            }
                            assert forall|k2: int|
                                0 <= k2 < c1.members@.len() implies post.has_user(
                                c1.members@[k2],
                            ) by {
                                assert(pre.has_user(c0.members@[k2]));
                            }
                        }
                    }
                }
                ActiveOutcome::Activated
            },
        }
    }
}

/// The store change an `INACTIVE` makes: the caller leaves the active set
/// of every channel; membership and everything else stay put.
pub open spec fn deactivate_all_transition(pre: ServerState, post: ServerState, uid: UserId) -> bool {
    &&& post.channels@.len() == pre.channels@.len()
    &&& forall|j: int|
        #![trigger post.channels@[j]]
        0 <= j < pre.channels@.len() ==> {
            let c0 = pre.channels@[j];
            let c1 = post.channels@[j];
            &&& c1.id == c0.id
            &&& c1.name == c0.name
            &&& c1.kind == c0.kind
            &&& c1.members == c0.members
            &&& c1.active_users@ == remove_id(c0.active_users@, uid)
        }
    &&& post.users == pre.users
    &&& post.connections == pre.connections
    &&& post.messages == pre.messages
    &&& post.next_user_id == pre.next_user_id
}

impl ServerState {
    /// Marks the caller inactive in every channel.
    pub fn set_inactive_all(&mut self, uid: UserId)
        requires
            old(self).wf(),
        ensures
            final(self).wf(),
            deactivate_all_transition(*old(self), *final(self), uid),
            forall|j: int|
                0 <= j < final(self).channels@.len()
                    ==> !final(self).channels@[j].active_users@.contains(uid),
    {
        let n = self.channels.len();
        let mut i: usize = 0;
        while i < n
            invariant
                n == self.channels@.len(),
                i <= n,
                self.channels@.len() == old(self).channels@.len(),
                forall|k: int| i <= k < n ==> self.channels@[k] == old(self).channels@[k],
                forall|k: int|
                    #![trigger self.channels@[k]]
                    0 <= k < i ==> {
                        let c0 = old(self).channels@[k];
                        let c1 = self.channels@[k];
                        &&& c1.id == c0.id
                        &&& c1.name == c0.name
                        &&& c1.kind == c0.kind
                        &&& c1.members == c0.members
                        &&& c1.active_users@ == remove_id(c0.active_users@, uid)
                    },
                self.users == old(self).users,
                self.connections == old(self).connections,
                self.messages == old(self).messages,
                self.next_user_id == old(self).next_user_id,
            decreases n - i,
        {
            remove_id_vec(&mut self.channels[i].active_users, uid);
            i += 1;
        }
        proof {
            let pre = *old(self);
            let post = *self;
            lemma_has_user_unchanged(pre, post);
            lemma_has_channel_preserved(pre, post);
            assert forall|id: UserId| post.is_connected(id) <==> post.has_user(id) by {
                assert(pre.is_connected(id) <==> pre.has_user(id));
            }
            assert forall|j: int|
                0 <= j < post.channels@.len() implies post.channel_wf(j)
                    && !post.channels@[j].active_users@.contains(uid) by {
                assert(pre.channel_wf(j));
                let c0 = pre.channels@[j];
                let c1 = post.channels@[j];
                lemma_remove_id_distinct(c0.active_users@, uid);
                assert forall|k: int|
                    0 <= k < c1.active_users@.len() implies c1.members@.contains(
                    c1.active_users@[k],
                ) by {
                    lemma_remove_id_contains(c0.active_users@, uid, c1.active_users@[k]);
                    assert(c0.members@.contains(c1.active_users@[k]));
                }
                assert forall|k: int| 0 <= k < c1.members@.len() implies post.has_user(
                    c1.members@[k],
                ) by {
                    assert(pre.has_user(c0.members@[k]));
                }
                lemma_remove_id_contains(c0.active_users@, uid, uid);
            }
            assert forall|j: int|
                0 <= j < post.channels@.len() implies !post.channels@[j].active_users@.contains(
                uid,
            ) by {
                lemma_remove_id_contains(pre.channels@[j].active_users@, uid, uid);
            }
        }
    }

    /// Whether a user with id `uid` is currently registered.
    pub fn is_registered(&self, uid: UserId) -> (r: bool)
        ensures
            r == self.has_user(uid),
    {
        self.find_user_index(uid).is_some()
    }

    /// The index of the user with id `uid`, if registered.
    fn find_user_index(&self, uid: UserId) -> (r: Option<usize>)
        ensures
            match r {
                Some(i) => i < self.users@.len() && self.users@[i as int].id == uid,
                None => !self.has_user(uid),
            },
    {
        let mut i: usize = 0;
        while i < self.users.len()
            invariant
                i <= self.users@.len(),
                forall|k: int| 0 <= k < i ==> self.users@[k].id != uid,
            decreases self.users@.len() - i,
        {
            if self.users[i].id == uid {
                return Some(i);
            }
            i += 1;
        }
        None
    }
}

/// The store change a disconnect makes: the user and its connection entry
/// disappear, and its id leaves every channel's member and active sets;
/// the logs keep what it wrote.
pub open spec fn disconnect_transition(pre: ServerState, post: ServerState, uid: UserId) -> bool {
    &&& post.next_user_id == pre.next_user_id
    &&& post.users@ == if pre.has_user(uid) {
        pre.users@.remove(pre.user_idx(uid))
    } else {
        pre.users@
    }
    &&& post.connections@ == remove_id(pre.connections@, uid)
    &&& post.channels@.len() == pre.channels@.len()
    &&& forall|j: int|
        #![trigger post.channels@[j]]
        0 <= j < pre.channels@.len() ==> {
            let c0 = pre.channels@[j];
            let c1 = post.channels@[j];
            &&& c1.id == c0.id
            &&& c1.name == c0.name
            &&& c1.kind == c0.kind
            &&& c1.members@ == remove_id(c0.members@, uid)
            &&& c1.active_users@ == remove_id(c0.active_users@, uid)
        }
    &&& post.messages == pre.messages
}

impl ServerState {
    /// Purges a departed session: its user, its connection entry, and its
    /// membership everywhere.  Safe to call whether or not the user is
    /// still registered.
    pub fn disconnect(&mut self, uid: UserId)
        requires
            old(self).wf(),
        ensures
            final(self).wf(),
            disconnect_transition(*old(self), *final(self), uid),
            !final(self).has_user(uid),
            !final(self).is_connected(uid),
            forall|j: int|
                0 <= j < final(self).channels@.len()
                    ==> !final(self).channels@[j].active_users@.contains(uid),
    {
        match self.find_user_index(uid) {
            Some(i) => {
                proof {
                    self.lemma_user_idx_agrees(i as int, uid);
                }
                self.users.remove(i);
            },
            None => {},
        }
        remove_id_vec(&mut self.connections, uid);
        let n = self.channels.len();
        let mut i: usize = 0;
        while i < n
            invariant
                n == self.channels@.len(),
                i <= n,
                self.channels@.len() == old(self).channels@.len(),
                forall|k: int| i <= k < n ==> self.channels@[k] == old(self).channels@[k],
                forall|k: int|
                    #![trigger self.channels@[k]]
                    0 <= k < i ==> {
                        let c0 = old(self).channels@[k];
                        let c1 = self.channels@[k];
                        &&& c1.id == c0.id
                        &&& c1.name == c0.name
                        &&& c1.kind == c0.kind
                        &&& c1.members@ == remove_id(c0.members@, uid)
                        &&& c1.active_users@ == remove_id(c0.active_users@, uid)
                    },
                self.users@ == if old(self).has_user(uid) {
                    old(self).users@.remove(old(self).user_idx(uid))
                } else {
                    old(self).users@
                },
                self.connections@ == remove_id(old(self).connections@, uid),
                self.messages == old(self).messages,
                self.next_user_id == old(self).next_user_id,
            decreases n - i,
        {
            remove_id_vec(&mut self.channels[i].members, uid);
            remove_id_vec(&mut self.channels[i].active_users, uid);
            i += 1;
        }
        proof {
            let pre = *old(self);
            let post = *self;
            // The user table after removal holds exactly the old users but `uid`.
            assert forall|z: UserId| post.has_user(z) implies (pre.has_user(z) && z != uid) by {
                let w = post.user_idx(z);
                assert(post.users@[w].id == z);
                if pre.has_user(uid) {
                    let i0 = pre.user_idx(uid);
                    if w < i0 {
                        assert(pre.users@[w].id == z);
                    } else {
                        assert(pre.users@[w + 1].id == z);
                    }
                }
            }
            assert forall|z: UserId| pre.has_user(z) && z != uid implies post.has_user(z) by {
                let w = pre.user_idx(z);
                assert(pre.users@[w].id == z);
                if pre.has_user(uid) {
                    let i0 = pre.user_idx(uid);
                    assert(pre.users@[i0].id == uid);
                    if w < i0 {
                        assert(post.users@[w].id == z);
                    } else {
                        assert(w > i0);
                        assert(post.users@[w - 1].id == z);
                    }
                }
            }
            assert(!post.has_user(uid));
            lemma_remove_id_distinct(pre.connections@, uid);
            lemma_has_channel_preserved(pre, post);
            assert forall|id: UserId| post.is_connected(id) <==> post.has_user(id) by {
                assert(pre.is_connected(id) <==> pre.has_user(id));
                lemma_remove_id_contains(pre.connections@, uid, id);
            }
            assert forall|a: int, b: int|
                0 <= a < b < post.users@.len() implies post.users@[a].id != post.users@[b].id by {
                if pre.has_user(uid) {
                    let i0 = pre.user_idx(uid);
                    let a0: int = if a < i0 {
                        a
                    } else {
                        a + 1
                    };
                    let b0: int = if b < i0 {
                        b
                    } else {
                        b + 1
                    };
                    assert(post.users@[a] == pre.users@[a0]);
                    assert(post.users@[b] == pre.users@[b0]);
                }
            }
            assert forall|j: int|
                0 <= j < post.channels@.len() implies post.channel_wf(j)
                    && !post.channels@[j].active_users@.contains(uid) by {
                assert(pre.channel_wf(j));
                let c0 = pre.channels@[j];
                let c1 = post.channels@[j];
                lemma_remove_id_distinct(c0.members@, uid);
                lemma_remove_id_distinct(c0.active_users@, uid);
                assert forall|k: int|
                    0 <= k < c1.active_users@.len() implies c1.members@.contains(
                    c1.active_users@[k],
                ) by {
                    let z = c1.active_users@[k];
                    lemma_remove_id_contains(c0.active_users@, uid, z);
                    assert(c0.members@.contains(z));
                    lemma_remove_id_contains(c0.members@, uid, z);
                }
                assert forall|k: int| 0 <= k < c1.members@.len() implies post.has_user(
                    c1.members@[k],
                ) by {
                    let z = c1.members@[k];
                    lemma_remove_id_contains(c0.members@, uid, z);
                    assert(pre.has_user(z));
                }
                lemma_remove_id_contains(c0.active_users@, uid, uid);
            }
            assert forall|j: int|
                0 <= j < post.channels@.len() implies !post.channels@[j].active_users@.contains(
                uid,
            ) by {
                lemma_remove_id_contains(pre.channels@[j].active_users@, uid, uid);
            }
        }
    }
}

/// A store whose user, connection and channel tables are untouched keeps
/// every part of the invariant that speaks of them.
pub proof fn lemma_wf_core_preserved(pre: ServerState, post: ServerState)
    requires
        pre.wf(),
        post.users@ == pre.users@,
        post.connections@ == pre.connections@,
        post.channels@ == pre.channels@,
        post.next_user_id == pre.next_user_id,
    ensures
        post.users_wf(),
        post.connections_wf(),
        post.channels_wf(),
{
    lemma_has_user_unchanged(pre, post);
    assert forall|id: UserId| post.is_connected(id) <==> post.has_user(id) by {
        assert(pre.is_connected(id) <==> pre.has_user(id));
    }
    assert forall|j: int| 0 <= j < post.channels@.len() implies post.channel_wf(j) by {
        assert(pre.channel_wf(j));
        let c = post.channels@[j];
        assert(c == pre.channels@[j]);
        assert forall|k: int| 0 <= k < c.members@.len() implies post.has_user(c.members@[k]) by {
            assert(pre.has_user(c.members@[k]));
        }
    }
}

impl ServerState {
    /// Under the invariant, log channel ids are unique, so any index whose
    /// log carries `cid` is the chosen one.
    pub proof fn lemma_log_idx_agrees(self, i: int, cid: ChannelId)
        requires
            self.wf(),
            0 <= i < self.messages@.len(),
            self.messages@[i].channel_id == cid,
        ensures
            self.has_log(cid),
            self.log_idx(cid) == i,
    {
        let i2 = self.log_idx(cid);
    }

    /// Appends one entry to the log of channel `cid`, starting the log if
    /// this is the channel's first message.
    fn append_log(&mut self, cid: ChannelId, entry: Message)
        requires
            old(self).wf(),
            old(self).has_channel(cid),
        ensures
            final(self).wf(),
            final(self).log_of(cid) == old(self).log_of(cid).push(entry),
            forall|c2: ChannelId| #[trigger]
                final(self).log_of(c2) == if c2 == cid {
                    old(self).log_of(cid).push(entry)
                } else {
                    old(self).log_of(c2)
                },
            final(self).users == old(self).users,
            final(self).connections == old(self).connections,
            final(self).channels == old(self).channels,
            final(self).next_user_id == old(self).next_user_id,
    {
        let n = self.messages.len();
        let mut i: usize = 0;
        while i < n
            invariant
                n == self.messages@.len(),
                i <= n,
                *self == *old(self),
                old(self).wf(),
                old(self).has_channel(cid),
                forall|k: int| 0 <= k < i ==> self.messages@[k].channel_id != cid,
            decreases n - i,
        {
            if self.messages[i].channel_id == cid {
                self.messages[i].entries.push(entry);
                proof {
                    let pre = *old(self);
                    let post = *self;
                    lemma_wf_core_preserved(pre, post);
                    pre.lemma_log_idx_agrees(i as int, cid);
                    post.lemma_log_idx_agrees(i as int, cid);
                    assert forall|c2: ChannelId| #[trigger] post.log_of(c2) == if c2 == cid {
                        pre.log_of(cid).push(entry)
                    } else {
                        pre.log_of(c2)
                    } by {
                        if c2 != cid {
                            if pre.has_log(c2) {
                                let w = pre.log_idx(c2);
                                assert(pre.messages@[w].channel_id == c2);
                                assert(post.messages@[w].channel_id == c2);
                                post.lemma_log_idx_agrees(w, c2);
                            } else {
                                if post.has_log(c2) {
                                    let w = post.log_idx(c2);
                                    assert(post.messages@[w].channel_id == c2);
                                    assert(pre.messages@[w].channel_id == c2);
                                }
                            }
                        }
                    }
                    assert forall|k: int|
                        0 <= k < post.messages@.len() implies post.has_channel(
                        post.messages@[k].channel_id,
                    ) by {
                        assert(pre.has_channel(pre.messages@[k].channel_id));
                    }
                }
                return ;
            }
            i += 1;
        }
        let mut entries: Vec<Message> = Vec::new();
        entries.push(entry);
        self.messages.push(ChannelLog { channel_id: cid, entries });
        proof {
            let pre = *old(self);
            let post = *self;
            lemma_wf_core_preserved(pre, post);
            assert(!pre.has_log(cid));
            assert(post.messages@[n as int].channel_id == cid);
            post.lemma_log_idx_agrees(n as int, cid);
            assert(post.log_of(cid) =~= pre.log_of(cid).push(entry));
            assert forall|c2: ChannelId| #[trigger] post.log_of(c2) == if c2 == cid {
                pre.log_of(cid).push(entry)
            } else {
                pre.log_of(c2)
            } by {
                if c2 != cid {
                    if pre.has_log(c2) {
                        let w = pre.log_idx(c2);
                        assert(pre.messages@[w].channel_id == c2);
                        assert(post.messages@[w].channel_id == c2);
                        post.lemma_log_idx_agrees(w, c2);
                    } else {
                        if post.has_log(c2) {
                            let w = post.log_idx(c2);
                            assert(post.messages@[w].channel_id == c2);
                            assert(w < n);
                            assert(pre.messages@[w].channel_id == c2);
                        }
                    }
                }
            }
            assert forall|a: int, b: int|
                0 <= a < b < post.messages@.len() implies post.messages@[a].channel_id
                != post.messages@[b].channel_id by {
                if b == post.messages@.len() - 1 {
                    assert(post.messages@[a].channel_id != cid);
                }
            }
            assert forall|k: int|
                0 <= k < post.messages@.len() implies post.has_channel(
                post.messages@[k].channel_id,
            ) by {
                if k < n {
                    assert(pre.has_channel(pre.messages@[k].channel_id));
                } else {
                    assert(pre.has_channel(cid));
                }
            }
        }
    }
}

/// One rendered chat line addressed to one recipient's connection.
pub struct Delivery {
    pub recipient: UserId,
    pub line: String,
}

/// The recipients named by a sequence of deliveries, in order.
pub open spec fn recipients_of(ds: Seq<Delivery>) -> Seq<UserId> {
    ds.map_values(|d: Delivery| d.recipient)
}

pub proof fn lemma_recipients_push(ds: Seq<Delivery>, d: Delivery)
    ensures
        recipients_of(ds.push(d)) =~= recipients_of(ds).push(d.recipient),
{
}

/// The recipients one message from `author` reaches: walking the channels
/// in order, every active member (the author included) of every channel the
/// author is active in.
pub open spec fn deliveries_for(channels: Seq<Channel>, author: UserId) -> Seq<UserId>
    decreases channels.len(),
{
    if channels.len() == 0 {
        Seq::empty()
    } else {
        let rest = deliveries_for(channels.drop_last(), author);
        let c = channels.last();
        if c.active_users@.contains(author) {
            rest + c.active_users@
        } else {
            rest
        }
    }
}

/// The author is active in the channel with id `cid`.
pub open spec fn author_active_in(channels: Seq<Channel>, author: UserId, cid: ChannelId) -> bool {
    exists|j: int|
        0 <= j < channels.len() && (#[trigger] channels[j]).id == cid
            && channels[j].active_users@.contains(author)
}

/// An index bearing witness that the author is active in channel `cid`.
pub proof fn lemma_author_active_witness(
    channels: Seq<Channel>,
    author: UserId,
    cid: ChannelId,
) -> (j: int)
    requires
        author_active_in(channels, author, cid),
    ensures
        0 <= j < channels.len(),
        channels[j].id == cid,
        channels[j].active_users@.contains(author),
{
    choose|j: int|
        0 <= j < channels.len() && (#[trigger] channels[j]).id == cid
            && channels[j].active_users@.contains(author)
}

pub proof fn lemma_deliveries_for_take_succ(channels: Seq<Channel>, author: UserId, i: int)
    requires
        0 <= i < channels.len(),
    ensures
        deliveries_for(channels.take(i + 1), author) == if channels[i].active_users@.contains(
            author,
        ) {
            deliveries_for(channels.take(i), author) + channels[i].active_users@
        } else {
            deliveries_for(channels.take(i), author)
        },
{
    assert(channels.take(i + 1).drop_last() =~= channels.take(i));
    assert(channels.take(i + 1).last() == channels[i]);
}

/// The store change a `MESSAGE` makes: the message joins the log of every
/// channel the author is active in; nothing else moves.
pub open spec fn route_transition(
    pre: ServerState,
    post: ServerState,
    author: UserId,
    content: Seq<char>,
    timestamp: u64,
) -> bool {
    &&& post.next_user_id == pre.next_user_id
    &&& post.users == pre.users
    &&& post.connections == pre.connections
    &&& post.channels == pre.channels
    &&& forall|cid: ChannelId|
        #![trigger post.log_of(cid)]
        if author_active_in(pre.channels@, author, cid) {
            let entry = post.log_of(cid).last();
            &&& post.log_of(cid) == pre.log_of(cid).push(entry)
            &&& entry.author_id == author
            &&& entry.content@ == content
            &&& entry.timestamp == timestamp
        } else {
            post.log_of(cid) == pre.log_of(cid)
        }
}

impl ServerState {
    /// Routes one chat line from `author` to every channel the author is
    /// active in: the message is logged per channel, and one rendered
    /// delivery comes back for every active member of every such channel,
    /// in channel order.  No active channel, no deliveries.
    pub fn route_message(&mut self, author: UserId, text: String, timestamp: u64) -> (deliveries:
        Vec<Delivery>)
        requires
            old(self).wf(),
            old(self).has_user(author),
        ensures
            final(self).wf(),
            route_transition(*old(self), *final(self), author, text@, timestamp),
            recipients_of(deliveries@) == deliveries_for(old(self).channels@, author),
            forall|k: int|
                0 <= k < deliveries@.len() ==> #[trigger] deliveries@[k].line@ == spec_chat_line(
                    old(self).spec_username(author),
                    text@,
                ),
    {
        let author_name = self.username_of(author);
        let line = chat_line(author_name.as_str(), text.as_str());
        let ghost msg = Message { author_id: author, content: text, timestamp };
        let mut out: Vec<Delivery> = Vec::new();
        let n = self.channels.len();
        let mut i: usize = 0;
        proof {
            assert(recipients_of(out@) =~= deliveries_for(old(self).channels@.take(0), author));
        }
        while i < n
            invariant
                n == self.channels@.len(),
                i <= n,
                self.wf(),
                old(self).wf(),
                self.channels == old(self).channels,
                self.users == old(self).users,
                self.connections == old(self).connections,
                self.next_user_id == old(self).next_user_id,
                line@ == spec_chat_line(old(self).spec_username(author), text@),
                msg == (Message { author_id: author, content: text, timestamp }),
                recipients_of(out@) == deliveries_for(
                    old(self).channels@.take(i as int),
                    author,
                ),
                forall|k: int|
                    0 <= k < out@.len() ==> #[trigger] out@[k].line@ == line@,
                forall|cid: ChannelId| #[trigger]
                    self.log_of(cid) == if author_active_in(
                        old(self).channels@.take(i as int),
                        author,
                        cid,
                    ) {
                        old(self).log_of(cid).push(msg)
                    } else {
                        old(self).log_of(cid)
                    },
            decreases n - i,
        {
            let is_active = contains_id(&self.channels[i].active_users, author);
            if is_active {
                let cid = self.channels[i].id;
                proof {
                    assert(self.channels@[i as int].id == cid);
                    assert(self.has_channel(cid));
                    // `cid` was not reached before this channel: ids are unique.
                    if author_active_in(old(self).channels@.take(i as int), author, cid) {
                        let w = lemma_author_active_witness(
                            old(self).channels@.take(i as int),
                            author,
                            cid,
                        );
                        assert(old(self).channels@[w].id == old(self).channels@[i as int].id);
                    }
                }
                self.append_log(
                    cid,
                    Message { author_id: author, content: text.clone(), timestamp },
                );
                let m = self.channels[i].active_users.len();
                let mut k: usize = 0;
                while k < m
                    invariant
                        m == self.channels@[i as int].active_users@.len(),
                        0 <= i < n,
                        n == self.channels@.len(),
                        k <= m,
                        forall|k2: int|
                            0 <= k2 < out@.len() ==> #[trigger] out@[k2].line@ == line@,
                        recipients_of(out@) == deliveries_for(
                            old(self).channels@.take(i as int),
                            author,
                        ) + self.channels@[i as int].active_users@.take(k as int),
                        self.channels == old(self).channels,
                    decreases m - k,
                {
                    let recipient = self.channels[i].active_users[k];
                    let ghost prev = out@;
                    out.push(Delivery { recipient, line: line.clone() });
                    proof {
                        let act = self.channels@[i as int].active_users@;
                        assert(out@ == prev.push((Delivery { recipient, line })));
                        lemma_recipients_push(prev, (Delivery { recipient, line }));
                        assert(act.take(k + 1) =~= act.take(k as int).push(act[k as int]));
                        assert(recipients_of(out@) =~= deliveries_for(
                            old(self).channels@.take(i as int),
                            author,
                        ) + act.take(k + 1));
                    }
                    k += 1;
                }
                proof {
                    let act = self.channels@[i as int].active_users@;
                    assert(act.take(m as int) =~= act);
                }
            }
            proof {
                lemma_deliveries_for_take_succ(old(self).channels@, author, i as int);
                let post_iter = *self;
                assert forall|cid2: ChannelId| #[trigger] post_iter.log_of(cid2)
                    == if author_active_in(
                    old(self).channels@.take(i + 1),
                    author,
                    cid2,
                ) {
                    old(self).log_of(cid2).push(msg)
                } else {
                    old(self).log_of(cid2)
                } by {
                    let here = old(self).channels@[i as int];
                    if author_active_in(old(self).channels@.take(i + 1), author, cid2) {
                        let w = lemma_author_active_witness(
                            old(self).channels@.take(i + 1),
                            author,
                            cid2,
                        );
                        if w < i {
                            assert(author_active_in(
                                old(self).channels@.take(i as int),
                                author,
                                cid2,
                            )) by {
                                assert(old(self).channels@.take(i as int)[w].id == cid2);
                            }
                        } else {
                            assert(here.id == cid2 && here.active_users@.contains(author));
                        }
                    } else {
                        if author_active_in(old(self).channels@.take(i as int), author, cid2) {
                            let w = lemma_author_active_witness(
                                old(self).channels@.take(i as int),
                                author,
                                cid2,
                            );
                            assert(old(self).channels@.take(i + 1)[w].id == cid2);
                            assert(false);
                        }
                        if here.id == cid2 && here.active_users@.contains(author) {
                            assert(old(self).channels@.take(i + 1)[i as int].id == cid2);
                            assert(false);
                        }
                    }
                }
            }
            i += 1;
        }
        proof {
            assert(old(self).channels@.take(n as int) =~= old(self).channels@);
        }
        out
    }
}

} // verus!
