//! Laws of the store, stated over the transition predicates and proved
//! once and for all: freshness and monotonicity of assigned user ids,
//! at-most-once channel membership, exactly who a routed message reaches,
//! and that a disconnected user is never a routing target again.

use vstd::prelude::*;
use crate::store::{
    deliveries_for, join_transition, login_transition, Channel, ServerState, UserId,
};
use crate::text::distinct_seq;

verus! {

/// The id a login assigns is fresh: no registered user carries it, and it
/// is strictly above every id ever assigned before.
pub proof fn lemma_assigned_id_fresh(s: ServerState)
    requires
        s.wf(),
    ensures
        !s.has_user(s.next_user_id),
        forall|k: int| 0 <= k < s.users@.len() ==> s.users@[k].id < s.next_user_id,
{
    if s.has_user(s.next_user_id) {
        let w = s.user_idx(s.next_user_id);
    }
}

/// Ids assigned by two logins in order are distinct and increasing, and
/// both differ from every id registered before either login.  Since every
/// login allocates under the same counter, any number of logins, however
/// interleaved, receive pairwise distinct ids.
pub proof fn lemma_login_ids_distinct(
    s0: ServerState,
    s1: ServerState,
    s2: ServerState,
    u1: Seq<char>,
    u2: Seq<char>,
    id1: UserId,
    id2: UserId,
)
    requires
        s0.wf(),
        id1 == s0.next_user_id,
        login_transition(s0, s1, u1, id1),
        id2 == s1.next_user_id,
        login_transition(s1, s2, u2, id2),
    ensures
        id2 > id1,
        id1 != id2,
        !s0.has_user(id1),
        !s0.has_user(id2),
        !s1.has_user(id2),
        s1.has_user(id1),
        s2.has_user(id1),
        s2.has_user(id2),
        forall|k: int|
            0 <= k < s0.users@.len() ==> s0.users@[k].id != id1 && s0.users@[k].id != id2,
{
    let n0 = s0.users@.len() as int;
    let n1 = s1.users@.len() as int;
    assert(s1.users@[n0].id == id1);
    assert(s2.users@[n0] == s1.users@[n0]);
    assert(s2.users@[n1].id == id2);
    lemma_assigned_id_fresh(s0);
    if s0.has_user(id2) {
        let w = s0.user_idx(id2);
    }
    if s1.has_user(id2) {
        let w = s1.user_idx(id2);
        assert(s1.users@[w].id == id2);
        if w < n0 {
            assert(s0.users@[w].id == id2);
        }
    }
}

/// A channel's member set holds any user at most once, however many times
/// that user issued `JOIN`.
pub proof fn lemma_member_at_most_once(s: ServerState, j: int, a: int, b: int)
    requires
        s.wf(),
        0 <= j < s.channels@.len(),
        0 <= a < b < s.channels@[j].members@.len(),
    ensures
        s.channels@[j].members@[a] != s.channels@[j].members@[b],
{
    assert(s.channel_wf(j));
    assert(distinct_seq(s.channels@[j].members@));
}

/// A repeated `JOIN` of the same channel by the same user changes no
/// member set: the first join made the caller a member, and joining as a
/// member is a no-op.
pub proof fn lemma_join_rejoin_unchanged(
    s0: ServerState,
    s1: ServerState,
    s2: ServerState,
    name: Seq<char>,
    uid: UserId,
)
    requires
        s0.wf(),
        s1.wf(),
        join_transition(s0, s1, name, uid),
        join_transition(s1, s2, name, uid),
    ensures
        s2.channels@.len() == s1.channels@.len(),
        forall|k: int|
            0 <= k < s1.channels@.len() ==> (#[trigger] s2.channels@[k]).members@
                == s1.channels@[k].members@,
{
    broadcast use vstd::seq_lib::lemma_seq_contains_after_push;

    if s0.has_channel_named(name) {
        let j0 = s0.chan_idx_named(name);
        assert(s1.channels@[j0].name@ == name);
        s1.lemma_chan_idx_agrees(j0, name);
        assert(s1.channels@[j0].members@.contains(uid));
    } else {
        assert(s1 == s0);
        assert(!s1.has_channel_named(name));
        assert(s2 == s1);
    }
}

/// Some channel holds both `author` and `r` in its active set.
pub open spec fn shares_active_channel(
    channels: Seq<Channel>,
    author: UserId,
    r: UserId,
) -> bool {
    exists|j: int|
        0 <= j < channels.len() && (#[trigger] channels[j]).active_users@.contains(author)
            && channels[j].active_users@.contains(r)
}

/// Exactly who a routed message reaches: `r` receives a message from
/// `author` if and only if some channel has both of them active — every
/// active member of every channel the author is active in, and nobody in
/// a channel the author is not active in.
pub proof fn lemma_deliveries_iff(channels: Seq<Channel>, author: UserId, r: UserId)
    ensures
        deliveries_for(channels, author).contains(r) <==> shares_active_channel(
            channels,
            author,
            r,
        ),
    decreases channels.len(),
{
    if channels.len() > 0 {
        let prefix = channels.drop_last();
        let c = channels.last();
        lemma_deliveries_iff(prefix, author, r);
        let rest = deliveries_for(prefix, author);
        if c.active_users@.contains(author) {
            assert((rest + c.active_users@).contains(r) <==> (rest.contains(r)
                || c.active_users@.contains(r))) by {
                if (rest + c.active_users@).contains(r) {
                    let i = choose|i: int|
                        0 <= i < (rest + c.active_users@).len() && (rest + c.active_users@)[i]
                            == r;
                    if i < rest.len() {
                        assert(rest[i] == r);
                    } else {
                        assert(c.active_users@[i - rest.len()] == r);
                    }
                }
                if rest.contains(r) {
                    let i = choose|i: int| 0 <= i < rest.len() && rest[i] == r;
                    assert((rest + c.active_users@)[i] == r);
                }
                if c.active_users@.contains(r) {
                    let i = choose|i: int|
                        0 <= i < c.active_users@.len() && c.active_users@[i] == r;
                    assert((rest + c.active_users@)[rest.len() + i] == r);
                }
            }
        }
        assert(shares_active_channel(channels, author, r) <==> (shares_active_channel(
            prefix,
            author,
            r,
        ) || (c.active_users@.contains(author) && c.active_users@.contains(r)))) by {
            if shares_active_channel(channels, author, r) {
                let j = choose|j: int|
                    0 <= j < channels.len() && (#[trigger] channels[j]).active_users@.contains(
                        author,
                    ) && channels[j].active_users@.contains(r);
                if j < channels.len() - 1 {
                    assert(prefix[j] == channels[j]);
                    assert(shares_active_channel(prefix, author, r));
                }
            }
            if shares_active_channel(prefix, author, r) {
                let j = choose|j: int|
                    0 <= j < prefix.len() && (#[trigger] prefix[j]).active_users@.contains(
                        author,
                    ) && prefix[j].active_users@.contains(r);
                assert(channels[j] == prefix[j]);
            }
            if c.active_users@.contains(author) && c.active_users@.contains(r) {
                assert(channels[channels.len() - 1] == c);
            }
        }
    }
}

/// Once a user is in no channel's active set — as after a disconnect —
/// no routing from any author targets it: the dead session is silently
/// skipped.
pub proof fn lemma_disconnected_never_targeted(s: ServerState, gone: UserId, author: UserId)
    requires
        forall|j: int|
            0 <= j < s.channels@.len() ==> !(#[trigger] s.channels@[j]).active_users@.contains(
                gone,
            ),
    ensures
        !deliveries_for(s.channels@, author).contains(gone),
{
    lemma_deliveries_iff(s.channels@, author, gone);
    if shares_active_channel(s.channels@, author, gone) {
        let j = choose|j: int|
            0 <= j < s.channels@.len() && (#[trigger] s.channels@[j]).active_users@.contains(
                author,
            ) && s.channels@[j].active_users@.contains(gone);
    }
}

/// Every routing target is a registered, connected user: under the
/// invariant, active members are members, members are users, and users
/// are connected.
pub proof fn lemma_targets_connected(s: ServerState, author: UserId, r: UserId)
    requires
        s.wf(),
        deliveries_for(s.channels@, author).contains(r),
    ensures
        s.has_user(r),
        s.is_connected(r),
{
    lemma_deliveries_iff(s.channels@, author, r);
    let j = choose|j: int|
        0 <= j < s.channels@.len() && (#[trigger] s.channels@[j]).active_users@.contains(author)
            && s.channels@[j].active_users@.contains(r);
    assert(s.channel_wf(j));
    let c = s.channels@[j];
    let w = choose|w: int| 0 <= w < c.active_users@.len() && c.active_users@[w] == r;
    assert(c.members@.contains(c.active_users@[w]));
    let w2 = choose|w2: int| 0 <= w2 < c.members@.len() && c.members@[w2] == r;
    assert(s.has_user(c.members@[w2]));
}

} // verus!
