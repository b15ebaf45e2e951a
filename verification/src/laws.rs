//! The laws of the relationship engine, each proved from the contracts in
//! [`crate::server`]: the state invariants that every command preserves and
//! the round-trip behaviour of command pairs.

use vstd::prelude::*;

use crate::i18n;
use crate::protocol::{FriendStatus, Language};
use crate::server::{
    accept_friend_request_outcome, block_user_outcome, empty_plan, presence_status,
    register_outcome, remove_friend_outcome, send_friend_request_outcome, server_inv,
    unblock_user_outcome, ServerView,
};
use crate::store::{has_pair, has_user, remove_pair, PairView};
use crate::text::lower_of;

verus! {

/// Friendship is symmetric: whenever `(a, b)` is recorded, so is `(b, a)`.
pub proof fn law_friendship_symmetric(s: ServerView, a: Seq<char>, b: Seq<char>)
    requires
        server_inv(s),
        has_pair(s.store.friendships, a, b),
    ensures
        has_pair(s.store.friendships, b, a),
{
    let k = choose|k: int|
        0 <= k < s.store.friendships.len() && s.store.friendships[k] == (a, b);
    assert(has_pair(
        s.store.friendships,
        s.store.friendships[k].1,
        s.store.friendships[k].0,
    ));
}

/// No relation relates a user to themselves: no friendship, request or
/// block has equal endpoints.
pub proof fn law_no_self_relation(s: ServerView, a: Seq<char>)
    requires
        server_inv(s),
    ensures
        !has_pair(s.store.friendships, a, a),
        !has_pair(s.store.requests, a, a),
        !has_pair(s.store.blocks, a, a),
{
    if has_pair(s.store.friendships, a, a) {
        let k = choose|k: int|
            0 <= k < s.store.friendships.len() && s.store.friendships[k] == (a, a);
        assert(s.store.friendships[k].0 != s.store.friendships[k].1);
    }
    if has_pair(s.store.requests, a, a) {
        let k = choose|k: int| 0 <= k < s.store.requests.len() && s.store.requests[k] == (a, a);
        assert(s.store.requests[k].0 != s.store.requests[k].1);
    }
    if has_pair(s.store.blocks, a, a) {
        let k = choose|k: int| 0 <= k < s.store.blocks.len() && s.store.blocks[k] == (a, a);
        assert(s.store.blocks[k].0 != s.store.blocks[k].1);
    }
}

/// A friendship and a friend request on the same unordered pair never
/// coexist.
pub proof fn law_friendship_request_exclusive(s: ServerView, a: Seq<char>, b: Seq<char>)
    requires
        server_inv(s),
        has_pair(s.store.friendships, a, b),
    ensures
        !has_pair(s.store.requests, a, b),
        !has_pair(s.store.requests, b, a),
{
    let k = choose|k: int|
        0 <= k < s.store.friendships.len() && s.store.friendships[k] == (a, b);
    assert(!has_pair(s.store.requests, s.store.friendships[k].0, s.store.friendships[k].1)
        && !has_pair(s.store.requests, s.store.friendships[k].1, s.store.friendships[k].0));
}

/// A block forbids both friendship and requests on its pair, in either
/// orientation.
pub proof fn law_block_excludes(s: ServerView, a: Seq<char>, b: Seq<char>)
    requires
        server_inv(s),
        has_pair(s.store.blocks, a, b),
    ensures
        !has_pair(s.store.friendships, a, b),
        !has_pair(s.store.friendships, b, a),
        !has_pair(s.store.requests, a, b),
        !has_pair(s.store.requests, b, a),
{
    let k = choose|k: int| 0 <= k < s.store.blocks.len() && s.store.blocks[k] == (a, b);
    assert(!has_pair(s.store.friendships, s.store.blocks[k].0, s.store.blocks[k].1)
        && !has_pair(s.store.friendships, s.store.blocks[k].1, s.store.blocks[k].0));
    assert(!has_pair(s.store.requests, s.store.blocks[k].0, s.store.blocks[k].1) && !has_pair(
        s.store.requests,
        s.store.blocks[k].1,
        s.store.blocks[k].0,
    ));
}

/// Lowercased account names and emails are unique across users.
pub proof fn law_unique_identity(s: ServerView, i: int, j: int)
    requires
        server_inv(s),
        0 <= i < j < s.store.users.len(),
    ensures
        s.store.users[i].account_name_lower != s.store.users[j].account_name_lower,
        s.store.users[i].email != s.store.users[j].email,
        s.store.users[i].id != s.store.users[j].id,
{
}

/// At most one session is bound to a user, and at most one user to a
/// session: two distinct bindings share neither their user nor their
/// session.
pub proof fn law_one_session_per_user(s: ServerView, i: int, j: int)
    requires
        server_inv(s),
        0 <= i < j < s.sessions.len(),
    ensures
        s.sessions[i].0 != s.sessions[j].0,
        s.sessions[i].1 != s.sessions[j].1,
{
}

/// Blocking then unblocking returns the block relation to its prior state,
/// while the friendships and requests the block tore down stay removed.
///
/// The law holds of pairs that are not already blocked: blocking is
/// idempotent, so for an already-blocked pair the unblock removes the
/// pre-existing block as well.
pub proof fn law_block_unblock_round_trip(
    s: ServerView,
    a: Seq<char>,
    b: Seq<char>,
    lang: Language,
)
    requires
        server_inv(s),
        a != b,
        has_user(s.store.users, b),
        !has_pair(s.store.blocks, a, b),
    ensures
        ({
            let s1 = block_user_outcome(s, a, b, lang).post;
            let s2 = unblock_user_outcome(s1, a, b).post;
            &&& s2.store.blocks == s.store.blocks
            &&& s2.store.friendships == s1.store.friendships
            &&& s2.store.requests == s1.store.requests
            &&& s2.store.users == s.store.users
            &&& s2.sessions == s.sessions
        }),
{
    let s1 = block_user_outcome(s, a, b, lang).post;
    assert(s1.store.blocks == s.store.blocks.push((a, b)));
    crate::store::lemma_remove_pair_push(s.store.blocks, a, b);
}

/// Accepting a friend request and then removing the friend returns the
/// friendship relation to its prior state.
pub proof fn law_accept_remove_round_trip(
    s: ServerView,
    a: Seq<char>,
    b: Seq<char>,
    lang: Language,
)
    requires
        server_inv(s),
        !has_pair(s.store.friendships, a, b),
        !has_pair(s.store.blocks, a, b),
        !has_pair(s.store.blocks, b, a),
        has_pair(s.store.requests, b, a),
    ensures
        ({
            let s1 = accept_friend_request_outcome(s, a, b, lang).post;
            let s2 = remove_friend_outcome(s1, a, b).post;
            &&& s2.store.friendships == s.store.friendships
            &&& s2.store.blocks == s.store.blocks
            &&& s2.store.users == s.store.users
            &&& s2.sessions == s.sessions
        }),
{
    let f0 = s.store.friendships;
    let s1 = accept_friend_request_outcome(s, a, b, lang).post;
    let k = choose|k: int| 0 <= k < s.store.requests.len() && s.store.requests[k] == (b, a);
    assert(s.store.requests[k].0 != s.store.requests[k].1);
    assert(a != b);
    assert(s1.store.friendships == f0.push((a, b)).push((b, a)));
    assert(!has_pair(f0, b, a)) by {
        if has_pair(f0, b, a) {
            let m = choose|m: int| 0 <= m < f0.len() && f0[m] == (b, a);
            assert(has_pair(f0, a, b));
        }
    }
    lemma_remove_pair_push_other(f0.push((a, b)), a, b, b, a);
    crate::store::lemma_remove_pair_push(f0, a, b);
    assert(remove_pair(f0.push((a, b)).push((b, a)), a, b) == f0.push((b, a)));
    crate::store::lemma_remove_pair_push(f0, b, a);
}

/// Removing one pair commutes with appending a different pair.
proof fn lemma_remove_pair_push_other(
    rel: Seq<PairView>,
    a: Seq<char>,
    b: Seq<char>,
    x: Seq<char>,
    y: Seq<char>,
)
    requires
        (x, y) != (a, b),
    ensures
        remove_pair(rel.push((x, y)), a, b) == remove_pair(rel, a, b).push((x, y)),
{
    reveal_with_fuel(Seq::filter, 2);
    let pushed = rel.push((x, y));
    assert(pushed.drop_last() =~= rel);
}

/// A second identical `SendFriendRequest` never changes state again: it is
/// a quiet no-op after a recorded request, and an `AlreadyFriends` error
/// after an auto-accept.
pub proof fn law_repeated_friend_request(s: ServerView, a: Seq<char>, b: Seq<char>, lang: Language)
    requires
        server_inv(s),
        has_user(s.store.users, a),
    ensures
        ({
            let o1 = send_friend_request_outcome(s, a, b, lang);
            let o2 = send_friend_request_outcome(o1.post, a, b, lang);
            &&& o2.post == o1.post
            &&& (o1.result == Ok::<_, Seq<char>>(
                crate::server::RefreshPlanView {
                    accepted: None,
                    friend_requests: seq![b],
                    friends: seq![a, b],
                },
            ) ==> o2.result == Ok::<_, Seq<char>>(empty_plan()))
            &&& (o1.result is Ok && (o1.result->Ok_0).accepted is Some ==> o2.result == Err::<
                crate::server::RefreshPlanView,
                _,
            >(i18n::already_friends_text(lang)))
        }),
{
    let o1 = send_friend_request_outcome(s, a, b, lang);
    let s1 = o1.post;
    if a == b {
    } else if has_pair(s.store.friendships, a, b) {
    } else if has_pair(s.store.blocks, a, b) || has_pair(s.store.blocks, b, a) {
    } else if !has_user(s.store.users, b) {
    } else if has_pair(s.store.requests, a, b) {
    } else if has_pair(s.store.requests, b, a) {
        // auto-accept: the pair are now friends, so the repeat is an error
        crate::store::lemma_has_pair_push(s.store.friendships, (a, b));
        crate::store::lemma_has_pair_push(s.store.friendships.push((a, b)), (b, a));
        assert(has_pair(s1.store.friendships, a, b));
    } else {
        // recorded request: the repeat is a quiet no-op
        crate::store::lemma_has_pair_push(s.store.requests, (a, b));
        assert(has_pair(s1.store.requests, a, b));
        assert(!has_pair(s1.store.friendships, a, b));
    }
}

/// Registration fails, and leaves the state alone, whenever the lowercased
/// account name or the email is already taken.
pub proof fn law_duplicate_registration_rejected(
    s: ServerView,
    account_name: Seq<char>,
    email: Seq<char>,
    display_name: Seq<char>,
    password: Seq<char>,
    lang: Language,
    session: Option<Seq<char>>,
)
    requires
        crate::store::account_name_lower_taken(s.store.users, lower_of(account_name))
            || crate::store::email_taken(s.store.users, email),
    ensures
        register_outcome(s, account_name, email, display_name, password, lang, session).result
            is Err,
        register_outcome(s, account_name, email, display_name, password, lang, session).post == s,
{
}


/// The status §4.4 assigns a viewer's entry for another user: presence for
/// a friend, the request direction for a pending request, else blocked.
pub open spec fn status_of(s: ServerView, v: Seq<char>, u: Seq<char>) -> FriendStatus {
    if has_pair(s.store.friendships, v, u) {
        presence_status(s.sessions, u)
    } else if has_pair(s.store.requests, v, u) {
        FriendStatus::FriendRequestSent
    } else if has_pair(s.store.requests, u, v) {
        FriendStatus::FriendRequestReceived
    } else {
        FriendStatus::Blocked
    }
}

/// Every entry a relation contributes on its left side names a pair of the
/// relation, an existing partner, the given status and the partner's
/// display name.
proof fn lemma_entries_from_elems(
    users: Seq<crate::protocol::UserView>,
    rel: Seq<PairView>,
    u: Seq<char>,
    st: FriendStatus,
)
    ensures
        forall|k: int|
            0 <= k < crate::store::entries_from(users, rel, u, st).len() ==> {
                let e = #[trigger] crate::store::entries_from(users, rel, u, st)[k];
                has_pair(rel, u, e.id) && has_user(users, e.id) && e.status == st
                    && e.display_name == crate::store::user_view_of(users, e.id).display_name
            },
    decreases rel.len(),
{
    if rel.len() == 0 {
    } else {
        let rest = rel.drop_last();
        lemma_entries_from_elems(users, rest, u, st);
        let prev = crate::store::entries_from(users, rest, u, st);
        let cur = crate::store::entries_from(users, rel, u, st);
        assert forall|k: int| 0 <= k < cur.len() implies {
            let e = #[trigger] cur[k];
            has_pair(rel, u, e.id) && has_user(users, e.id) && e.status == st && e.display_name
                == crate::store::user_view_of(users, e.id).display_name
        } by {
            if k < prev.len() {
                assert(cur[k] == prev[k]);
                if has_pair(rest, u, prev[k].id) {
                    let m = choose|m: int| 0 <= m < rest.len() && rest[m] == (u, prev[k].id);
                    assert(rel[m] == (u, prev[k].id));
                }
            } else {
                assert(cur[k].id == rel.last().1);
                assert(rel[rel.len() - 1] == (u, cur[k].id));
            }
        }
    }
}

/// Every entry a relation contributes on its right side names a pair of the
/// relation, an existing partner, the given status and the partner's
/// display name.
proof fn lemma_entries_to_elems(
    users: Seq<crate::protocol::UserView>,
    rel: Seq<PairView>,
    u: Seq<char>,
    st: FriendStatus,
)
    ensures
        forall|k: int|
            0 <= k < crate::store::entries_to(users, rel, u, st).len() ==> {
                let e = #[trigger] crate::store::entries_to(users, rel, u, st)[k];
                has_pair(rel, e.id, u) && has_user(users, e.id) && e.status == st
                    && e.display_name == crate::store::user_view_of(users, e.id).display_name
            },
    decreases rel.len(),
{
    if rel.len() == 0 {
    } else {
        let rest = rel.drop_last();
        lemma_entries_to_elems(users, rest, u, st);
        let prev = crate::store::entries_to(users, rest, u, st);
        let cur = crate::store::entries_to(users, rel, u, st);
        assert forall|k: int| 0 <= k < cur.len() implies {
            let e = #[trigger] cur[k];
            has_pair(rel, e.id, u) && has_user(users, e.id) && e.status == st && e.display_name
                == crate::store::user_view_of(users, e.id).display_name
        } by {
            if k < prev.len() {
                assert(cur[k] == prev[k]);
                if has_pair(rest, prev[k].id, u) {
                    let m = choose|m: int| 0 <= m < rest.len() && rest[m] == (prev[k].id, u);
                    assert(rel[m] == (prev[k].id, u));
                }
            } else {
                assert(cur[k].id == rel.last().0);
                assert(rel[rel.len() - 1] == (cur[k].id, u));
            }
        }
    }
}

/// With distinct pairs, the left-side entries of a relation carry distinct
/// partners.
proof fn lemma_entries_from_unique(
    users: Seq<crate::protocol::UserView>,
    rel: Seq<PairView>,
    u: Seq<char>,
    st: FriendStatus,
)
    requires
        crate::store::rel_no_dup(rel),
    ensures
        forall|k1: int, k2: int|
            0 <= k1 < k2 < crate::store::entries_from(users, rel, u, st).len() ==> (
            #[trigger] crate::store::entries_from(users, rel, u, st)[k1]).id != (
            #[trigger] crate::store::entries_from(users, rel, u, st)[k2]).id,
    decreases rel.len(),
{
    if rel.len() == 0 {
    } else {
        let rest = rel.drop_last();
        assert(crate::store::rel_no_dup(rest)) by {
            assert(forall|i: int| 0 <= i < rest.len() ==> rest[i] == rel[i]);
        }
        lemma_entries_from_unique(users, rest, u, st);
        lemma_entries_from_elems(users, rest, u, st);
        let prev = crate::store::entries_from(users, rest, u, st);
        let cur = crate::store::entries_from(users, rel, u, st);
        assert forall|k1: int, k2: int|
            0 <= k1 < k2 < cur.len() implies (#[trigger] cur[k1]).id != (#[trigger] cur[k2]).id by {
            if k2 < prev.len() {
                assert(cur[k1] == prev[k1]);
                assert(cur[k2] == prev[k2]);
            } else if k2 == prev.len() && cur.len() == prev.len() + 1 {
                assert(cur[k1] == prev[k1]);
                assert(cur[k2].id == rel.last().1);
                if prev[k1].id == rel.last().1 {
                    assert(has_pair(rest, u, prev[k1].id));
                    let m = choose|m: int|
                        0 <= m < rest.len() && rest[m] == (u, prev[k1].id);
                    assert(rel[m] == rel[rel.len() - 1]);
                }
            }
        }
    }
}

/// With distinct pairs, the right-side entries of a relation carry
/// distinct partners.
proof fn lemma_entries_to_unique(
    users: Seq<crate::protocol::UserView>,
    rel: Seq<PairView>,
    u: Seq<char>,
    st: FriendStatus,
)
    requires
        crate::store::rel_no_dup(rel),
    ensures
        forall|k1: int, k2: int|
            0 <= k1 < k2 < crate::store::entries_to(users, rel, u, st).len() ==> (
            #[trigger] crate::store::entries_to(users, rel, u, st)[k1]).id != (
            #[trigger] crate::store::entries_to(users, rel, u, st)[k2]).id,
    decreases rel.len(),
{
    if rel.len() == 0 {
    } else {
        let rest = rel.drop_last();
        assert(crate::store::rel_no_dup(rest)) by {
            assert(forall|i: int| 0 <= i < rest.len() ==> rest[i] == rel[i]);
        }
        lemma_entries_to_unique(users, rest, u, st);
        lemma_entries_to_elems(users, rest, u, st);
        let prev = crate::store::entries_to(users, rest, u, st);
        let cur = crate::store::entries_to(users, rel, u, st);
        assert forall|k1: int, k2: int|
            0 <= k1 < k2 < cur.len() implies (#[trigger] cur[k1]).id != (#[trigger] cur[k2]).id by {
            if k2 < prev.len() {
                assert(cur[k1] == prev[k1]);
                assert(cur[k2] == prev[k2]);
            } else if k2 == prev.len() && cur.len() == prev.len() + 1 {
                assert(cur[k1] == prev[k1]);
                assert(cur[k2].id == rel.last().0);
                if prev[k1].id == rel.last().0 {
                    assert(has_pair(rest, prev[k1].id, u));
                    let m = choose|m: int|
                        0 <= m < rest.len() && rest[m] == (prev[k1].id, u);
                    assert(rel[m] == rel[rel.len() - 1]);
                }
            }
        }
    }
}

/// The relation an entry of the combined view came from, together with the
/// direction of its pair.
proof fn lemma_combined_entry(s: ServerView, v: Seq<char>, i: int)
    requires
        server_inv(s),
        0 <= i < crate::data_access::combined_entries(s.store, v).len(),
    ensures
        ({
            let e = crate::data_access::combined_entries(s.store, v)[i];
            &&& has_user(s.store.users, e.id)
            &&& e.display_name == crate::store::user_view_of(s.store.users, e.id).display_name
            &&& (e.status == FriendStatus::Offline ==> has_pair(s.store.friendships, v, e.id))
            &&& (e.status == FriendStatus::FriendRequestReceived ==> has_pair(
                s.store.requests,
                e.id,
                v,
            ))
            &&& (e.status == FriendStatus::FriendRequestSent ==> has_pair(
                s.store.requests,
                v,
                e.id,
            ))
            &&& (e.status == FriendStatus::Blocked ==> has_pair(s.store.blocks, v, e.id))
            &&& (e.status == FriendStatus::Offline || e.status == FriendStatus::FriendRequestReceived
                || e.status == FriendStatus::FriendRequestSent || e.status
                == FriendStatus::Blocked)
        }),
{
    let fa = crate::store::entries_from(
        s.store.users,
        s.store.friendships,
        v,
        FriendStatus::Offline,
    );
    let rb = crate::store::entries_to(
        s.store.users,
        s.store.requests,
        v,
        FriendStatus::FriendRequestReceived,
    );
    let rc = crate::store::entries_from(
        s.store.users,
        s.store.requests,
        v,
        FriendStatus::FriendRequestSent,
    );
    let bd = crate::store::entries_from(s.store.users, s.store.blocks, v, FriendStatus::Blocked);
    lemma_entries_from_elems(s.store.users, s.store.friendships, v, FriendStatus::Offline);
    lemma_entries_to_elems(s.store.users, s.store.requests, v, FriendStatus::FriendRequestReceived);
    lemma_entries_from_elems(s.store.users, s.store.requests, v, FriendStatus::FriendRequestSent);
    lemma_entries_from_elems(s.store.users, s.store.blocks, v, FriendStatus::Blocked);
    let all = crate::data_access::combined_entries(s.store, v);
    assert(all == fa + rb + rc + bd);
    if i < fa.len() {
        assert(all[i] == fa[i]);
    } else if i < fa.len() + rb.len() {
        assert(all[i] == rb[i - fa.len()]);
    } else if i < fa.len() + rb.len() + rc.len() {
        assert(all[i] == rc[i - fa.len() - rb.len()]);
    } else {
        assert(all[i] == bd[i - fa.len() - rb.len() - rc.len()]);
    }
}

/// Each entry of a viewer's friends view names another user and carries
/// exactly the status the relations assign to the pair.
pub proof fn law_friends_view_status(s: ServerView, v: Seq<char>, i: int)
    requires
        server_inv(s),
        0 <= i < crate::server::friends_list_view(s, v).len(),
    ensures
        ({
            let e = crate::server::friends_list_view(s, v)[i];
            &&& e.id != v
            &&& e.status == status_of(s, v, e.id)
            &&& e.display_name == crate::store::user_view_of(s.store.users, e.id).display_name
        }),
{
    let all = crate::data_access::combined_entries(s.store, v);
    let e0 = all[i];
    lemma_combined_entry(s, v, i);
    let e = crate::server::friends_list_view(s, v)[i];
    assert(e == crate::server::presence_fix(e0, s.sessions));
    assert(e.id == e0.id && e.display_name == e0.display_name);
    if e0.status == FriendStatus::Offline {
        // a friendship entry: presence decides, and no request can coexist
        let k = choose|k: int|
            0 <= k < s.store.friendships.len() && s.store.friendships[k] == (v, e0.id);
        assert(s.store.friendships[k].0 != s.store.friendships[k].1);
        assert(e.status == presence_status(s.sessions, e0.id));
        assert(e.status == status_of(s, v, e.id));
    } else if e0.status == FriendStatus::FriendRequestReceived {
        let k = choose|k: int|
            0 <= k < s.store.requests.len() && s.store.requests[k] == (e0.id, v);
        assert(s.store.requests[k].0 != s.store.requests[k].1);
        assert(!has_pair(s.store.requests, v, e0.id));
        if has_pair(s.store.friendships, v, e0.id) {
            let m = choose|m: int|
                0 <= m < s.store.friendships.len() && s.store.friendships[m] == (v, e0.id);
        }
        assert(e.status == status_of(s, v, e.id));
    } else if e0.status == FriendStatus::FriendRequestSent {
        let k = choose|k: int|
            0 <= k < s.store.requests.len() && s.store.requests[k] == (v, e0.id);
        assert(s.store.requests[k].0 != s.store.requests[k].1);
        if has_pair(s.store.friendships, v, e0.id) {
            let m = choose|m: int|
                0 <= m < s.store.friendships.len() && s.store.friendships[m] == (v, e0.id);
        }
        assert(e.status == status_of(s, v, e.id));
    } else {
        let k = choose|k: int| 0 <= k < s.store.blocks.len() && s.store.blocks[k] == (v, e0.id);
        assert(s.store.blocks[k].0 != s.store.blocks[k].1);
        assert(e.status == status_of(s, v, e.id));
    }
}

/// No user appears twice in a viewer's friends view.
pub proof fn law_friends_view_unique(s: ServerView, v: Seq<char>, i: int, j: int)
    requires
        server_inv(s),
        0 <= i < j < crate::server::friends_list_view(s, v).len(),
    ensures
        crate::server::friends_list_view(s, v)[i].id != crate::server::friends_list_view(
            s,
            v,
        )[j].id,
{
    let all = crate::data_access::combined_entries(s.store, v);
    let fa = crate::store::entries_from(
        s.store.users,
        s.store.friendships,
        v,
        FriendStatus::Offline,
    );
    let rb = crate::store::entries_to(
        s.store.users,
        s.store.requests,
        v,
        FriendStatus::FriendRequestReceived,
    );
    let rc = crate::store::entries_from(
        s.store.users,
        s.store.requests,
        v,
        FriendStatus::FriendRequestSent,
    );
    let bd = crate::store::entries_from(s.store.users, s.store.blocks, v, FriendStatus::Blocked);
    lemma_entries_from_elems(s.store.users, s.store.friendships, v, FriendStatus::Offline);
    lemma_entries_to_elems(s.store.users, s.store.requests, v, FriendStatus::FriendRequestReceived);
    lemma_entries_from_elems(s.store.users, s.store.requests, v, FriendStatus::FriendRequestSent);
    lemma_entries_from_elems(s.store.users, s.store.blocks, v, FriendStatus::Blocked);
    lemma_entries_from_unique(s.store.users, s.store.friendships, v, FriendStatus::Offline);
    lemma_entries_to_unique(
        s.store.users,
        s.store.requests,
        v,
        FriendStatus::FriendRequestReceived,
    );
    lemma_entries_from_unique(s.store.users, s.store.requests, v, FriendStatus::FriendRequestSent);
    lemma_entries_from_unique(s.store.users, s.store.blocks, v, FriendStatus::Blocked);
    let b1 = fa.len() as int;
    let b2 = b1 + rb.len();
    let b3 = b2 + rc.len();
    assert(all == fa + rb + rc + bd);
    let ei = all[i];
    let ej = all[j];
    assert(crate::server::friends_list_view(s, v)[i].id == ei.id);
    assert(crate::server::friends_list_view(s, v)[j].id == ej.id);
    if ei.id == ej.id {
        let x = ei.id;
        // place each index in its segment and read off the membership it
        // witnesses
        if i < b1 {
            assert(all[i] == fa[i]);
        } else if i < b2 {
            assert(all[i] == rb[i - b1]);
        } else if i < b3 {
            assert(all[i] == rc[i - b2]);
        } else {
            assert(all[i] == bd[i - b3]);
        }
        if j < b1 {
            assert(all[j] == fa[j]);
        } else if j < b2 {
            assert(all[j] == rb[j - b1]);
        } else if j < b3 {
            assert(all[j] == rc[j - b2]);
        } else {
            assert(all[j] == bd[j - b3]);
        }
        // inside one segment the partners are distinct; across segments the
        // pair would lie in two exclusive relations
        if has_pair(s.store.friendships, v, x) {
            let m = choose|m: int|
                0 <= m < s.store.friendships.len() && s.store.friendships[m] == (v, x);
            assert(!has_pair(s.store.requests, v, x) && !has_pair(s.store.requests, x, v));
        }
        if has_pair(s.store.requests, x, v) {
            let m = choose|m: int|
                0 <= m < s.store.requests.len() && s.store.requests[m] == (x, v);
            assert(!has_pair(s.store.requests, v, x));
        }
        if has_pair(s.store.blocks, v, x) {
            let m = choose|m: int| 0 <= m < s.store.blocks.len() && s.store.blocks[m] == (v, x);
            assert(!has_pair(s.store.friendships, v, x));
            assert(!has_pair(s.store.requests, v, x) && !has_pair(s.store.requests, x, v));
        }
    }
}

} // verus!
