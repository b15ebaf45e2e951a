//! The relationship and chat engine: authenticated commands that mutate the
//! store, keep the cross-relation invariants, and return the set of users
//! whose derived views must be refreshed.
//!
//! The engine never touches the transport.  Commands return a
//! [`RefreshPlan`] or a [`DeliveryPlan`]; the dispatcher resolves each
//! planned user to a session and emits the corresponding events.

use vstd::prelude::*;

use crate::data_access::{combined_entries, DataAccess};
use crate::error::ServerError;
use crate::i18n;
use crate::protocol::{
    Friend, FriendStatus, FriendView, Language, UserId, UserRegistration, UserView,
};
use crate::session::{
    drop_session, drop_user, registry_wf, session_of_user, user_bound, user_of_session,
    session_bound, SessionId, SessionRegistry,
};
use crate::store::{
    account_name_lower_taken, email_taken, has_pair, has_user, remove_pair, rel_endpoints_exist,
    rel_irreflexive, rel_no_crossed, rel_no_dup, rel_symmetric, rels_disjoint_sym, store_wf,
    unique_user_ids, user_view_of, Database, PairView, StoreView,
};

verus! {

/// Mathematical view of the whole server: durable store plus ephemeral
/// session bindings.
pub struct ServerView {
    pub store: StoreView,
    pub sessions: Seq<PairView>,
}

/// Every user record is complete (account name, its lowercase duplicate and
/// email present), lowercased account names are unique, and emails are
/// unique.
pub open spec fn users_wf(users: Seq<UserView>) -> bool {
    &&& forall|i: int|
        0 <= i < users.len() ==> (#[trigger] users[i]).account_name is Some
            && users[i].account_name_lower is Some && users[i].email is Some
    &&& forall|i: int, j: int|
        0 <= i < j < users.len() ==> (#[trigger] users[i]).account_name_lower != (
        #[trigger] users[j]).account_name_lower && users[i].email != users[j].email
}

/// Every bound user is a registered user.
pub open spec fn sessions_users_exist(b: Seq<PairView>, users: Seq<UserView>) -> bool {
    forall|i: int| 0 <= i < b.len() ==> has_user(users, (#[trigger] b[i]).0)
}

/// The server invariant: everything the relationship commands preserve.
///
/// Friendship is a symmetric, irreflexive relation; requests are directed,
/// never crossed, and never coexist with a friendship on the same pair; a
/// block forbids both friendship and requests on its pair; all relation
/// endpoints and all bound users are registered; lowercased account names
/// and emails are unique; each user has at most one session and each
/// session at most one user.
pub open spec fn server_inv(s: ServerView) -> bool {
    &&& store_wf(s.store)
    &&& unique_user_ids(s.store.users)
    &&& users_wf(s.store.users)
    &&& rel_irreflexive(s.store.friendships)
    &&& rel_no_dup(s.store.friendships)
    &&& rel_symmetric(s.store.friendships)
    &&& rel_endpoints_exist(s.store.friendships, s.store.users)
    &&& rel_irreflexive(s.store.requests)
    &&& rel_no_dup(s.store.requests)
    &&& rel_no_crossed(s.store.requests)
    &&& rel_endpoints_exist(s.store.requests, s.store.users)
    &&& rel_irreflexive(s.store.blocks)
    &&& rel_no_dup(s.store.blocks)
    &&& rel_endpoints_exist(s.store.blocks, s.store.users)
    &&& rels_disjoint_sym(s.store.friendships, s.store.requests)
    &&& rels_disjoint_sym(s.store.blocks, s.store.friendships)
    &&& rels_disjoint_sym(s.store.blocks, s.store.requests)
    &&& registry_wf(s.sessions)
    &&& sessions_users_exist(s.sessions, s.store.users)
}

/// The presence-derived status of a user: online exactly when bound to a
/// session.
pub open spec fn presence_status(sessions: Seq<PairView>, u: Seq<char>) -> FriendStatus {
    if user_bound(sessions, u) {
        FriendStatus::Online
    } else {
        FriendStatus::Offline
    }
}

/// The friends-view entry another user contributes, with live presence.
pub open spec fn friend_entry(s: ServerView, u: Seq<char>) -> FriendView {
    FriendView {
        id: u,
        display_name: user_view_of(s.store.users, u).display_name,
        status: presence_status(s.sessions, u),
    }
}

/// One combined-view entry with presence applied: an entry that defaults
/// to `Offline` reports `Online` exactly when its user is bound.
pub open spec fn presence_fix(e: FriendView, sessions: Seq<PairView>) -> FriendView {
    if e.status == FriendStatus::Offline && user_bound(sessions, e.id) {
        FriendView { id: e.id, display_name: e.display_name, status: FriendStatus::Online }
    } else {
        e
    }
}

/// Applies presence to every entry of a combined view.
pub open spec fn with_presence(entries: Seq<FriendView>, sessions: Seq<PairView>) -> Seq<
    FriendView,
> {
    Seq::new(entries.len(), |i: int| presence_fix(entries[i], sessions))
}

/// The friends view sent to a viewer: the combined relationship view with
/// presence applied.
pub open spec fn friends_list_view(s: ServerView, u: Seq<char>) -> Seq<FriendView> {
    with_presence(combined_entries(s.store, u), s.sessions)
}

/// A direct notification that a friend request was accepted.
#[derive(Debug)]
pub struct AcceptedNotice {
    pub user: UserId,
    pub friend: Friend,
}

/// The set of users whose derived views a command changed, and which views
/// to re-send to each.
#[derive(Debug)]
pub struct RefreshPlan {
    pub accepted: Option<AcceptedNotice>,
    pub friend_requests: Vec<UserId>,
    pub friends: Vec<UserId>,
}

/// Mathematical view of a [`RefreshPlan`].
pub struct RefreshPlanView {
    pub accepted: Option<(Seq<char>, FriendView)>,
    pub friend_requests: Seq<Seq<char>>,
    pub friends: Seq<Seq<char>>,
}

impl View for RefreshPlan {
    type V = RefreshPlanView;

    open spec fn view(&self) -> RefreshPlanView {
        RefreshPlanView {
            accepted: match self.accepted {
                Some(n) => Some((n.user@, n.friend@)),
                None => None,
            },
            friend_requests: self.friend_requests.deep_view(),
            friends: self.friends.deep_view(),
        }
    }
}

/// The empty refresh plan: nothing to re-send.
pub open spec fn empty_plan() -> RefreshPlanView {
    RefreshPlanView {
        accepted: None,
        friend_requests: Seq::empty(),
        friends: Seq::empty(),
    }
}

/// What a relationship command did: the state it left behind and either a
/// refresh plan or the text of the error it reported.
pub struct CommandOutcome {
    pub post: ServerView,
    pub result: Result<RefreshPlanView, Seq<char>>,
}

/// An outcome that left the state alone and reported an error.
pub open spec fn unchanged_err(s: ServerView, msg: Seq<char>) -> CommandOutcome {
    CommandOutcome { post: s, result: Err(msg) }
}

/// An outcome that left the state alone and reported quiet success.
pub open spec fn unchanged_ok(s: ServerView) -> CommandOutcome {
    CommandOutcome { post: s, result: Ok(empty_plan()) }
}

/// Whether an executable command result matches a specified outcome.
pub open spec fn result_matches(
    r: Result<RefreshPlan, ServerError>,
    o: Result<RefreshPlanView, Seq<char>>,
) -> bool {
    match r {
        Ok(p) => o matches Ok(pv) && p@ == pv,
        Err(e) => o matches Err(t) && e.0@ == t,
    }
}

/// A server state with the three relations replaced.
pub open spec fn with_rels(
    s: ServerView,
    f: Seq<PairView>,
    r: Seq<PairView>,
    b: Seq<PairView>,
) -> ServerView {
    ServerView {
        store: StoreView {
            users: s.store.users,
            friendships: f,
            requests: r,
            blocks: b,
            next_id: s.store.next_id,
        },
        sessions: s.sessions,
    }
}

/// What `SendFriendRequest` does, as a function of the pre-state.
///
/// A self-target is silently ignored.  An existing friendship, or a block
/// in either direction, or an unknown target is an error.  A repeated
/// request is a no-op.  A crossed request is auto-accepted: the pending
/// request is consumed and the friendship is created in both directions.
/// Otherwise the request is recorded and both views are refreshed.
pub open spec fn send_friend_request_outcome(
    s: ServerView,
    a: Seq<char>,
    b: Seq<char>,
    lang: Language,
) -> CommandOutcome {
    if a == b {
        unchanged_ok(s)
    } else if has_pair(s.store.friendships, a, b) {
        unchanged_err(s, i18n::already_friends_text(lang))
    } else if has_pair(s.store.blocks, a, b) || has_pair(s.store.blocks, b, a) {
        unchanged_err(s, i18n::user_is_blocked_text(lang))
    } else if !has_user(s.store.users, b) {
        unchanged_err(s, i18n::unknown_user_text(lang))
    } else if has_pair(s.store.requests, a, b) {
        unchanged_ok(s)
    } else if has_pair(s.store.requests, b, a) {
        let post = with_rels(
            s,
            s.store.friendships.push((a, b)).push((b, a)),
            remove_pair(s.store.requests, b, a),
            s.store.blocks,
        );
        CommandOutcome {
            post,
            result: Ok(
                RefreshPlanView {
                    accepted: Some((a, friend_entry(post, b))),
                    friend_requests: seq![a],
                    friends: seq![a, b],
                },
            ),
        }
    } else {
        let post = with_rels(
            s,
            s.store.friendships,
            s.store.requests.push((a, b)),
            s.store.blocks,
        );
        CommandOutcome {
            post,
            result: Ok(
                RefreshPlanView {
                    accepted: None,
                    friend_requests: seq![b],
                    friends: seq![a, b],
                },
            ),
        }
    }
}

/// What `AcceptFriendRequest` does, as a function of the pre-state.
///
/// An existing friendship, or a block in either direction, is an error;
/// without a pending request from the other user the command is a no-op.
/// Otherwise the request is consumed, the friendship is created in both
/// directions, and the acceptor is notified directly.
pub open spec fn accept_friend_request_outcome(
    s: ServerView,
    a: Seq<char>,
    b: Seq<char>,
    lang: Language,
) -> CommandOutcome {
    if has_pair(s.store.friendships, a, b) {
        unchanged_err(s, i18n::already_friends_text(lang))
    } else if has_pair(s.store.blocks, a, b) || has_pair(s.store.blocks, b, a) {
        unchanged_err(s, i18n::user_is_blocked_text(lang))
    } else if !has_pair(s.store.requests, b, a) {
        unchanged_ok(s)
    } else {
        let post = with_rels(
            s,
            s.store.friendships.push((a, b)).push((b, a)),
            remove_pair(s.store.requests, b, a),
            s.store.blocks,
        );
        CommandOutcome {
            post,
            result: Ok(
                RefreshPlanView {
                    accepted: Some((a, friend_entry(post, b))),
                    friend_requests: Seq::empty(),
                    friends: seq![a, b],
                },
            ),
        }
    }
}

/// What `RejectFriendRequest` does: consume the pending request if there is
/// one (else nothing), refreshing both views and the rejector's request
/// list.
pub open spec fn reject_friend_request_outcome(
    s: ServerView,
    a: Seq<char>,
    b: Seq<char>,
) -> CommandOutcome {
    if has_pair(s.store.requests, b, a) {
        let post = with_rels(
            s,
            s.store.friendships,
            remove_pair(s.store.requests, b, a),
            s.store.blocks,
        );
        CommandOutcome {
            post,
            result: Ok(
                RefreshPlanView {
                    accepted: None,
                    friend_requests: seq![a],
                    friends: seq![b, a],
                },
            ),
        }
    } else {
        unchanged_ok(s)
    }
}

/// What `RemoveFriend` does: remove the friendship and any requests, in
/// both directions, and refresh both views.
pub open spec fn remove_friend_outcome(s: ServerView, a: Seq<char>, b: Seq<char>) -> CommandOutcome {
    let post = with_rels(
        s,
        remove_pair(remove_pair(s.store.friendships, a, b), b, a),
        remove_pair(remove_pair(s.store.requests, a, b), b, a),
        s.store.blocks,
    );
    CommandOutcome {
        post,
        result: Ok(
            RefreshPlanView {
                accepted: None,
                friend_requests: Seq::empty(),
                friends: seq![a, b],
            },
        ),
    }
}

/// What `BlockUser` does.  A self-target and an unknown target are errors;
/// blocking an already-blocked user changes nothing; otherwise the
/// friendship and the requests between the two are torn down in both
/// directions and the block is recorded.  Both views are refreshed.
pub open spec fn block_user_outcome(
    s: ServerView,
    a: Seq<char>,
    b: Seq<char>,
    lang: Language,
) -> CommandOutcome {
    if a == b {
        unchanged_err(s, i18n::self_targeted_text(lang))
    } else if !has_user(s.store.users, b) {
        unchanged_err(s, i18n::unknown_user_text(lang))
    } else if has_pair(s.store.blocks, a, b) {
        CommandOutcome {
            post: s,
            result: Ok(
                RefreshPlanView {
                    accepted: None,
                    friend_requests: Seq::empty(),
                    friends: seq![a, b],
                },
            ),
        }
    } else {
        let post = with_rels(
            s,
            remove_pair(remove_pair(s.store.friendships, a, b), b, a),
            remove_pair(remove_pair(s.store.requests, a, b), b, a),
            s.store.blocks.push((a, b)),
        );
        CommandOutcome {
            post,
            result: Ok(
                RefreshPlanView {
                    accepted: None,
                    friend_requests: Seq::empty(),
                    friends: seq![a, b],
                },
            ),
        }
    }
}

/// What `UnblockUser` does: remove the block if present and refresh both
/// views.
pub open spec fn unblock_user_outcome(s: ServerView, a: Seq<char>, b: Seq<char>) -> CommandOutcome {
    let post = with_rels(
        s,
        s.store.friendships,
        s.store.requests,
        remove_pair(s.store.blocks, a, b),
    );
    CommandOutcome {
        post,
        result: Ok(
            RefreshPlanView {
                accepted: None,
                friend_requests: Seq::empty(),
                friends: seq![a, b],
            },
        ),
    }
}

/// The sessions of a registry, in binding order.
pub open spec fn bind_view(b: Seq<PairView>, u: Seq<char>, sid: Seq<char>) -> Seq<PairView> {
    drop_session(drop_user(b, u), sid).push((u, sid))
}

/// Pushing a user record keeps every prior user present, and makes the new
/// one present.
proof fn lemma_has_user_push(users: Seq<UserView>, u: UserView)
    ensures
        forall|id: Seq<char>| has_user(users, id) ==> #[trigger] has_user(users.push(u), id),
        has_user(users.push(u), u.id),
{
    assert forall|id: Seq<char>| has_user(users, id) implies #[trigger] has_user(
        users.push(u),
        id,
    ) by {
        let k = choose|k: int| 0 <= k < users.len() && users[k].id == id;
        assert(users.push(u)[k].id == id);
    }
    assert(users.push(u)[users.len() as int] == u);
}

/// Everything `has_pair` finds in a subset it also finds in the original.
proof fn lemma_subset_has_pair(r0: Seq<PairView>, r1: Seq<PairView>)
    requires
        forall|i: int| 0 <= i < r1.len() ==> r0.contains(#[trigger] r1[i]),
    ensures
        forall|x: Seq<char>, y: Seq<char>| has_pair(r1, x, y) ==> #[trigger] has_pair(r0, x, y),
{
    assert forall|x: Seq<char>, y: Seq<char>| has_pair(r1, x, y) implies #[trigger] has_pair(
        r0,
        x,
        y,
    ) by {
        let k = choose|k: int| 0 <= k < r1.len() && r1[k] == (x, y);
        assert(r0.contains(r1[k]));
    }
}

/// Pointwise relation properties survive taking a subset.
proof fn lemma_subset_rel_props(r0: Seq<PairView>, r1: Seq<PairView>, users: Seq<UserView>)
    requires
        forall|i: int| 0 <= i < r1.len() ==> r0.contains(#[trigger] r1[i]),
        rel_irreflexive(r0),
        rel_endpoints_exist(r0, users),
    ensures
        rel_irreflexive(r1),
        rel_endpoints_exist(r1, users),
{
    assert forall|i: int| 0 <= i < r1.len() implies (#[trigger] r1[i]).0 != r1[i].1 && has_user(
        users,
        r1[i].0,
    ) && has_user(users, r1[i].1) by {
        let k = choose|k: int| 0 <= k < r0.len() && r0[k] == r1[i];
    }
}

/// Removing both directions of a pair from the friendship and request
/// relations preserves the server invariant.
proof fn lemma_inv_remove_both(s: ServerView, a: Seq<char>, b: Seq<char>)
    requires
        server_inv(s),
    ensures
        server_inv(
            with_rels(
                s,
                remove_pair(remove_pair(s.store.friendships, a, b), b, a),
                remove_pair(remove_pair(s.store.requests, a, b), b, a),
                s.store.blocks,
            ),
        ),
{
    let f0 = s.store.friendships;
    let r0 = s.store.requests;
    let b0 = s.store.blocks;
    let f1 = remove_pair(remove_pair(f0, a, b), b, a);
    let r1 = remove_pair(remove_pair(r0, a, b), b, a);
    lemma_remove_pair_both_facts(f0, a, b);
    lemma_remove_pair_both_facts(r0, a, b);
    // symmetry of the pruned friendship relation
    assert forall|i: int| 0 <= i < f1.len() implies has_pair(f1, (#[trigger] f1[i]).1, f1[i].0) by {
        let p = f1[i];
        assert(has_pair(f1, p.0, p.1)) by {
            assert(f1.contains(p));
        }
        assert(has_pair(f0, p.0, p.1));
        let k = choose|k: int| 0 <= k < f0.len() && f0[k] == p;
        assert(has_pair(f0, p.1, p.0));
        assert((p.1, p.0) != (a, b) && (p.1, p.0) != (b, a));
    }
    // requests stay uncrossed
    assert forall|i: int| 0 <= i < r1.len() implies !has_pair(r1, (#[trigger] r1[i]).1, r1[i].0) by {
        let p = r1[i];
        assert(r0.contains(p));
        let k = choose|k: int| 0 <= k < r0.len() && r0[k] == p;
        if has_pair(r1, p.1, p.0) {
            assert(has_pair(r0, p.1, p.0));
        }
    }
    // disjointness is inherited by subsets
    assert forall|i: int|
        0 <= i < f1.len() implies !has_pair(r1, (#[trigger] f1[i]).0, f1[i].1) && !has_pair(
        r1,
        f1[i].1,
        f1[i].0,
    ) by {
        let p = f1[i];
        assert(f0.contains(p));
        let k = choose|k: int| 0 <= k < f0.len() && f0[k] == p;
        if has_pair(r1, p.0, p.1) {
            assert(has_pair(r0, p.0, p.1));
        }
        if has_pair(r1, p.1, p.0) {
            assert(has_pair(r0, p.1, p.0));
        }
    }
    assert forall|i: int|
        0 <= i < b0.len() implies !has_pair(f1, (#[trigger] b0[i]).0, b0[i].1) && !has_pair(
        f1,
        b0[i].1,
        b0[i].0,
    ) && !has_pair(r1, b0[i].0, b0[i].1) && !has_pair(r1, b0[i].1, b0[i].0) by {
        let p = b0[i];
        if has_pair(f1, p.0, p.1) {
            assert(has_pair(f0, p.0, p.1));
        }
        if has_pair(f1, p.1, p.0) {
            assert(has_pair(f0, p.1, p.0));
        }
        if has_pair(r1, p.0, p.1) {
            assert(has_pair(r0, p.0, p.1));
        }
        if has_pair(r1, p.1, p.0) {
            assert(has_pair(r0, p.1, p.0));
        }
    }
}

/// Facts about removing both directions of a pair: membership, distinctness
/// and pointwise properties.
proof fn lemma_remove_pair_both_facts(r0: Seq<PairView>, a: Seq<char>, b: Seq<char>)
    requires
        rel_no_dup(r0),
    ensures
        forall|x: Seq<char>, y: Seq<char>|
            #[trigger] has_pair(remove_pair(remove_pair(r0, a, b), b, a), x, y) <==> (has_pair(
                r0,
                x,
                y,
            ) && (x, y) != (a, b) && (x, y) != (b, a)),
        forall|i: int|
            0 <= i < remove_pair(remove_pair(r0, a, b), b, a).len() ==> r0.contains(
                #[trigger] remove_pair(remove_pair(r0, a, b), b, a)[i],
            ),
        rel_no_dup(remove_pair(remove_pair(r0, a, b), b, a)),
{
    let r_mid = remove_pair(r0, a, b);
    let r1 = remove_pair(r_mid, b, a);
    crate::store::lemma_remove_pair_membership(r0, a, b);
    crate::store::lemma_remove_pair_membership(r_mid, b, a);
    crate::store::lemma_remove_pair_no_dup(r0, a, b);
    crate::store::lemma_remove_pair_no_dup(r_mid, b, a);
    crate::store::lemma_remove_pair_subset(r0, a, b);
    crate::store::lemma_remove_pair_subset(r_mid, b, a);
    assert forall|i: int| 0 <= i < r1.len() implies r0.contains(#[trigger] r1[i]) by {
        assert(r_mid.contains(r1[i]));
        let k = choose|k: int| 0 <= k < r_mid.len() && r_mid[k] == r1[i];
        assert(r0.contains(r_mid[k]));
    }
}

/// Creating a friendship in both directions while consuming the pending
/// request preserves the server invariant.
proof fn lemma_inv_make_friends(s: ServerView, a: Seq<char>, b: Seq<char>)
    requires
        server_inv(s),
        a != b,
        has_user(s.store.users, a),
        has_user(s.store.users, b),
        !has_pair(s.store.friendships, a, b),
        has_pair(s.store.requests, b, a),
        !has_pair(s.store.blocks, a, b),
        !has_pair(s.store.blocks, b, a),
    ensures
        server_inv(
            with_rels(
                s,
                s.store.friendships.push((a, b)).push((b, a)),
                remove_pair(s.store.requests, b, a),
                s.store.blocks,
            ),
        ),
{
    let f0 = s.store.friendships;
    let r0 = s.store.requests;
    let b0 = s.store.blocks;
    let f1 = f0.push((a, b)).push((b, a));
    let r1 = remove_pair(r0, b, a);
    crate::store::lemma_has_pair_push(f0, (a, b));
    crate::store::lemma_has_pair_push(f0.push((a, b)), (b, a));
    crate::store::lemma_remove_pair_membership(r0, b, a);
    crate::store::lemma_remove_pair_no_dup(r0, b, a);
    crate::store::lemma_remove_pair_subset(r0, b, a);
    lemma_subset_has_pair(r0, r1);
    lemma_subset_rel_props(r0, r1, s.store.users);
    assert(!has_pair(f0, b, a)) by {
        if has_pair(f0, b, a) {
            let k = choose|k: int| 0 <= k < f0.len() && f0[k] == (b, a);
            assert(has_pair(f0, a, b));
        }
    }
    assert(!has_pair(r0, a, b)) by {
        let k = choose|k: int| 0 <= k < r0.len() && r0[k] == (b, a);
        assert(!has_pair(r0, r0[k].1, r0[k].0));
    }
    // indexing the double push
    assert forall|i: int| 0 <= i < f1.len() implies #[trigger] f1[i] == (if i < f0.len() {
        f0[i]
    } else if i == f0.len() {
        (a, b)
    } else {
        (b, a)
    }) by {
        if i < f0.len() {
            assert(f1[i] == f0.push((a, b))[i]);
        }
    }
    // irreflexive, distinct, symmetric, endpoints for the new friendships
    assert forall|i: int| 0 <= i < f1.len() implies (#[trigger] f1[i]).0 != f1[i].1 by {}
    assert forall|i: int, j: int|
        0 <= i < j < f1.len() implies (#[trigger] f1[i]) != (#[trigger] f1[j]) by {
        if j < f0.len() {
        } else if j == f0.len() {
            if f1[i] == (a, b) {
                assert(has_pair(f0, a, b)) by {
                    assert(f0[i] == (a, b));
                }
            }
        } else {
            if i < f0.len() && f1[i] == (b, a) {
                assert(has_pair(f0, b, a)) by {
                    assert(f0[i] == (b, a));
                }
            }
        }
    }
    assert forall|i: int| 0 <= i < f1.len() implies has_pair(f1, (#[trigger] f1[i]).1, f1[i].0) by {
        if i < f0.len() {
            let k = choose|k: int| 0 <= k < f0.len() && f0[k] == (f0[i].1, f0[i].0);
            assert(has_pair(f0, f1[i].1, f1[i].0));
        } else if i == f0.len() {
            assert(f1[f0.len() as int + 1] == (b, a));
            assert(has_pair(f1, b, a));
        } else {
            assert(f1[f0.len() as int] == (a, b));
            assert(has_pair(f1, a, b));
        }
    }
    assert forall|i: int|
        0 <= i < f1.len() implies has_user(s.store.users, (#[trigger] f1[i]).0) && has_user(
        s.store.users,
        f1[i].1,
    ) by {}
    // the new friendship carries no requests
    assert forall|i: int|
        0 <= i < f1.len() implies !has_pair(r1, (#[trigger] f1[i]).0, f1[i].1) && !has_pair(
        r1,
        f1[i].1,
        f1[i].0,
    ) by {
        if i < f0.len() {
            let p = f0[i];
            if has_pair(r1, p.0, p.1) {
                assert(has_pair(r0, p.0, p.1));
            }
            if has_pair(r1, p.1, p.0) {
                assert(has_pair(r0, p.1, p.0));
            }
        } else {
            if has_pair(r1, a, b) {
                assert(has_pair(r0, a, b));
            }
            if has_pair(r1, b, a) {
            }
        }
    }
    // blocks still see neither friendship nor request on their pairs
    assert forall|i: int|
        0 <= i < b0.len() implies !has_pair(f1, (#[trigger] b0[i]).0, b0[i].1) && !has_pair(
        f1,
        b0[i].1,
        b0[i].0,
    ) && !has_pair(r1, b0[i].0, b0[i].1) && !has_pair(r1, b0[i].1, b0[i].0) by {
        let p = b0[i];
        if p == (a, b) {
            assert(has_pair(b0, a, b));
        }
        if p == (b, a) {
            assert(has_pair(b0, b, a));
        }
        if has_pair(r1, p.0, p.1) {
            assert(has_pair(r0, p.0, p.1));
        }
        if has_pair(r1, p.1, p.0) {
            assert(has_pair(r0, p.1, p.0));
        }
        if has_pair(f1, p.0, p.1) {
            assert(has_pair(f0, p.0, p.1) || (p.0, p.1) == (a, b) || (p.0, p.1) == (b, a));
        }
        if has_pair(f1, p.1, p.0) {
            assert(has_pair(f0, p.1, p.0) || (p.1, p.0) == (a, b) || (p.1, p.0) == (b, a));
        }
    }
}

/// Recording a fresh friend request preserves the server invariant.
proof fn lemma_inv_insert_request(s: ServerView, a: Seq<char>, b: Seq<char>)
    requires
        server_inv(s),
        a != b,
        has_user(s.store.users, a),
        has_user(s.store.users, b),
        !has_pair(s.store.friendships, a, b),
        !has_pair(s.store.requests, a, b),
        !has_pair(s.store.requests, b, a),
        !has_pair(s.store.blocks, a, b),
        !has_pair(s.store.blocks, b, a),
    ensures
        server_inv(
            with_rels(s, s.store.friendships, s.store.requests.push((a, b)), s.store.blocks),
        ),
{
    let f0 = s.store.friendships;
    let r0 = s.store.requests;
    let b0 = s.store.blocks;
    let r1 = r0.push((a, b));
    crate::store::lemma_has_pair_push(r0, (a, b));
    assert(!has_pair(f0, b, a)) by {
        if has_pair(f0, b, a) {
            let k = choose|k: int| 0 <= k < f0.len() && f0[k] == (b, a);
            assert(has_pair(f0, a, b));
        }
    }
    assert forall|i: int| 0 <= i < r1.len() implies (#[trigger] r1[i]).0 != r1[i].1 by {
        if i < r0.len() {
            assert(r1[i] == r0[i]);
        } else {
            assert(r1[i] == (a, b));
        }
    }
    assert forall|i: int, j: int|
        0 <= i < j < r1.len() implies (#[trigger] r1[i]) != (#[trigger] r1[j]) by {
        if j == r0.len() {
            if r1[i] == (a, b) {
                assert(has_pair(r0, a, b)) by {
                    assert(r0[i] == (a, b));
                }
            }
        }
    }
    assert forall|i: int| 0 <= i < r1.len() implies !has_pair(r1, (#[trigger] r1[i]).1, r1[i].0) by {
        if i < r0.len() {
            let p = r0[i];
            if has_pair(r1, p.1, p.0) {
                assert(has_pair(r0, p.1, p.0) || (p.1, p.0) == (a, b));
                if (p.1, p.0) == (a, b) {
                    assert(p == (b, a));
                    assert(has_pair(r0, b, a)) by {
                        assert(r0[i] == (b, a));
                    }
                }
            }
        } else {
            if has_pair(r1, b, a) {
                assert(has_pair(r0, b, a) || (b, a) == (a, b));
            }
        }
    }
    assert forall|i: int|
        0 <= i < r1.len() implies has_user(s.store.users, (#[trigger] r1[i]).0) && has_user(
        s.store.users,
        r1[i].1,
    ) by {
        if i < r0.len() {
            assert(r1[i] == r0[i]);
        } else {
            assert(r1[i] == (a, b));
        }
    }
    assert forall|i: int|
        0 <= i < f0.len() implies !has_pair(r1, (#[trigger] f0[i]).0, f0[i].1) && !has_pair(
        r1,
        f0[i].1,
        f0[i].0,
    ) by {
        let p = f0[i];
        if has_pair(r1, p.0, p.1) {
            assert(has_pair(r0, p.0, p.1) || (p.0, p.1) == (a, b));
            if (p.0, p.1) == (a, b) {
                assert(has_pair(f0, a, b)) by {
                    assert(f0[i] == (a, b));
                }
            }
        }
        if has_pair(r1, p.1, p.0) {
            assert(has_pair(r0, p.1, p.0) || (p.1, p.0) == (a, b));
            if (p.1, p.0) == (a, b) {
                assert(has_pair(f0, b, a)) by {
                    assert(f0[i] == (b, a));
                }
            }
        }
    }
    assert forall|i: int|
        0 <= i < b0.len() implies !has_pair(r1, (#[trigger] b0[i]).0, b0[i].1) && !has_pair(
        r1,
        b0[i].1,
        b0[i].0,
    ) by {
        let p = b0[i];
        if has_pair(r1, p.0, p.1) {
            assert(has_pair(r0, p.0, p.1) || (p.0, p.1) == (a, b));
            if (p.0, p.1) == (a, b) {
                assert(has_pair(b0, a, b)) by {
                    assert(b0[i] == (a, b));
                }
            }
        }
        if has_pair(r1, p.1, p.0) {
            assert(has_pair(r0, p.1, p.0) || (p.1, p.0) == (a, b));
            if (p.1, p.0) == (a, b) {
                assert(has_pair(b0, b, a)) by {
                    assert(b0[i] == (b, a));
                }
            }
        }
    }
}

/// Recording a block, after tearing down friendship and requests in both
/// directions, preserves the server invariant.
proof fn lemma_inv_block(s: ServerView, a: Seq<char>, b: Seq<char>)
    requires
        server_inv(s),
        a != b,
        has_user(s.store.users, a),
        has_user(s.store.users, b),
        !has_pair(s.store.blocks, a, b),
    ensures
        server_inv(
            with_rels(
                s,
                remove_pair(remove_pair(s.store.friendships, a, b), b, a),
                remove_pair(remove_pair(s.store.requests, a, b), b, a),
                s.store.blocks.push((a, b)),
            ),
        ),
{
    lemma_inv_remove_both(s, a, b);
    let f0 = s.store.friendships;
    let r0 = s.store.requests;
    let b0 = s.store.blocks;
    let f1 = remove_pair(remove_pair(f0, a, b), b, a);
    let r1 = remove_pair(remove_pair(r0, a, b), b, a);
    let b1 = b0.push((a, b));
    lemma_remove_pair_both_facts(f0, a, b);
    lemma_remove_pair_both_facts(r0, a, b);
    let mid = with_rels(s, f1, r1, b0);
    assert(server_inv(mid));
    assert forall|i: int| 0 <= i < b1.len() implies (#[trigger] b1[i]).0 != b1[i].1 by {
        if i < b0.len() {
            assert(b1[i] == b0[i]);
        } else {
            assert(b1[i] == (a, b));
        }
    }
    assert forall|i: int, j: int|
        0 <= i < j < b1.len() implies (#[trigger] b1[i]) != (#[trigger] b1[j]) by {
        if j == b0.len() {
            if b1[i] == (a, b) {
                assert(has_pair(b0, a, b)) by {
                    assert(b0[i] == (a, b));
                }
            }
        }
    }
    assert forall|i: int|
        0 <= i < b1.len() implies has_user(s.store.users, (#[trigger] b1[i]).0) && has_user(
        s.store.users,
        b1[i].1,
    ) by {
        if i < b0.len() {
            assert(b1[i] == b0[i]);
        } else {
            assert(b1[i] == (a, b));
        }
    }
    assert forall|i: int|
        0 <= i < b1.len() implies !has_pair(f1, (#[trigger] b1[i]).0, b1[i].1) && !has_pair(
        f1,
        b1[i].1,
        b1[i].0,
    ) && !has_pair(r1, b1[i].0, b1[i].1) && !has_pair(r1, b1[i].1, b1[i].0) by {
        if i < b0.len() {
            let p = b0[i];
            assert(b1[i] == p);
            assert(!has_pair(f1, p.0, p.1) && !has_pair(f1, p.1, p.0) && !has_pair(r1, p.0, p.1)
                && !has_pair(r1, p.1, p.0)) by {
                assert(rels_disjoint_sym(mid.store.blocks, mid.store.friendships));
                assert(rels_disjoint_sym(mid.store.blocks, mid.store.requests));
                assert(mid.store.blocks[i] == p);
            }
        } else {
            assert(b1[i] == (a, b));
        }
    }
}

/// Removing a block preserves the server invariant.
proof fn lemma_inv_unblock(s: ServerView, a: Seq<char>, b: Seq<char>)
    requires
        server_inv(s),
    ensures
        server_inv(
            with_rels(
                s,
                s.store.friendships,
                s.store.requests,
                remove_pair(s.store.blocks, a, b),
            ),
        ),
{
    let b0 = s.store.blocks;
    let b1 = remove_pair(b0, a, b);
    crate::store::lemma_remove_pair_membership(b0, a, b);
    crate::store::lemma_remove_pair_no_dup(b0, a, b);
    crate::store::lemma_remove_pair_subset(b0, a, b);
    lemma_subset_rel_props(b0, b1, s.store.users);
    assert forall|i: int|
        0 <= i < b1.len() implies !has_pair(s.store.friendships, (#[trigger] b1[i]).0, b1[i].1)
        && !has_pair(s.store.friendships, b1[i].1, b1[i].0) && !has_pair(
        s.store.requests,
        b1[i].0,
        b1[i].1,
    ) && !has_pair(s.store.requests, b1[i].1, b1[i].0) by {
        let p = b1[i];
        assert(b0.contains(p));
        let k = choose|k: int| 0 <= k < b0.len() && b0[k] == p;
    }
}

/// The relationship and chat engine, generic over the store backend.
pub struct WarhorseServer<T: Database> {
    data_service: DataAccess<T>,
    user_sockets: SessionRegistry,
}

impl<T: Database> View for WarhorseServer<T> {
    type V = ServerView;

    closed spec fn view(&self) -> ServerView {
        ServerView { store: self.data_service@, sessions: self.user_sockets@ }
    }
}

impl<T: Database> WarhorseServer<T> {
    /// A fresh server over an empty in-memory store.
    pub fn new(database_connection_string: &str) -> (r: Self)
        ensures
            r@.store.users == Seq::<UserView>::empty(),
            r@.store.friendships == Seq::<PairView>::empty(),
            r@.store.requests == Seq::<PairView>::empty(),
            r@.store.blocks == Seq::<PairView>::empty(),
            r@.store.next_id == 0,
            r@.sessions == Seq::<PairView>::empty(),
            server_inv(r@),
    {
        let r = WarhorseServer {
            data_service: DataAccess::new(T::new(database_connection_string)),
            user_sockets: SessionRegistry::new(),
        };
        proof {
            crate::store::lemma_wf_unique(r@.store);
        }
        r
    }

    /// The presence-derived status of a user.
    pub fn get_online_status(&self, user_id: &UserId) -> (r: FriendStatus)
        ensures
            r == presence_status(self@.sessions, user_id@),
    {
        if self.user_sockets.is_online(user_id) {
            FriendStatus::Online
        } else {
            FriendStatus::Offline
        }
    }

    /// Whether the two users are friends.
    pub fn are_friends(&self, user_id: &UserId, friend_id: &UserId) -> (r: bool)
        ensures
            r == has_pair(self@.store.friendships, user_id@, friend_id@),
    {
        self.data_service.friendship_exists(user_id, friend_id)
    }

    /// Whether a user's session is a member of a room.  The only room is
    /// the ambient room `"general"`, which every authenticated session is a
    /// member of.
    pub fn user_in_room(&self, user_id: &UserId, room_id: &str) -> (r: bool)
        ensures
            r == (room_id@ == "general"@ && user_bound(self@.sessions, user_id@)),
    {
        crate::text::str_eq(room_id, "general") && self.user_sockets.is_online(user_id)
    }

    /// Whether a room exists: only the ambient room does, and only while at
    /// least one session is a member of it.
    pub fn room_exists(&self, room_id: &str) -> (r: bool)
        ensures
            r == (room_id@ == "general"@ && self@.sessions.len() > 0),
    {
        crate::text::str_eq(room_id, "general") && self.user_sockets.any_bound()
    }

    /// The authenticated user of a session, if the session is logged in.
    pub fn get_logged_in_user_id(&self, session_id: &SessionId) -> (r: Option<UserId>)
        requires
            registry_wf(self@.sessions),
        ensures
            r is Some <==> session_bound(self@.sessions, session_id@),
            r matches Some(u) ==> u@ == user_of_session(self@.sessions, session_id@),
    {
        match self.user_sockets.user_of(session_id) {
            Some(u) => Some(u.clone()),
            None => None,
        }
    }

    /// The session a user is bound to, if any.
    pub fn session_of(&self, user_id: &UserId) -> (r: Option<&SessionId>)
        requires
            registry_wf(self@.sessions),
        ensures
            r is Some <==> user_bound(self@.sessions, user_id@),
            r matches Some(sid) ==> sid@ == session_of_user(self@.sessions, user_id@),
    {
        self.user_sockets.session_of(user_id)
    }

    /// Drops a user's session binding.
    pub fn remove_user(&mut self, user_id: &UserId)
        requires
            server_inv(old(self)@),
        ensures
            final(self)@.sessions == drop_user(old(self)@.sessions, user_id@),
            final(self)@.store == old(self)@.store,
            server_inv(final(self)@),
    {
        self.user_sockets.unbind_by_user(user_id);
        proof {
            crate::session::lemma_drop_user_wf(old(self)@.sessions, user_id@);
            crate::session::lemma_drop_user_subset(old(self)@.sessions, user_id@);
            assert forall|i: int|
                0 <= i < self@.sessions.len() implies has_user(
                self@.store.users,
                (#[trigger] self@.sessions[i]).0,
            ) by {
                let p = self@.sessions[i];
                assert(old(self)@.sessions.contains(p));
                let k = choose|k: int|
                    0 <= k < old(self)@.sessions.len() && old(self)@.sessions[k] == p;
            }
        }
    }

    /// Unbinds whichever user is bound to a disconnecting session.
    pub fn handle_disconnect(&mut self, session_id: &SessionId)
        requires
            server_inv(old(self)@),
        ensures
            final(self)@.sessions == drop_session(old(self)@.sessions, session_id@),
            final(self)@.store == old(self)@.store,
            server_inv(final(self)@),
    {
        self.user_sockets.unbind_by_session(session_id);
        proof {
            crate::session::lemma_drop_session_wf(old(self)@.sessions, session_id@);
            crate::session::lemma_drop_session_subset(old(self)@.sessions, session_id@);
            assert forall|i: int|
                0 <= i < self@.sessions.len() implies has_user(
                self@.store.users,
                (#[trigger] self@.sessions[i]).0,
            ) by {
                let p = self@.sessions[i];
                assert(old(self)@.sessions.contains(p));
                let k = choose|k: int|
                    0 <= k < old(self)@.sessions.len() && old(self)@.sessions[k] == p;
            }
        }
    }

    /// The incoming friend requests shown to a user.
    pub fn get_pending_friend_requests(&self, user_id: UserId) -> (r: Vec<Friend>)
        requires
            unique_user_ids(self@.store.users),
        ensures
            r.deep_view() == crate::store::entries_to(
                self@.store.users,
                self@.store.requests,
                user_id@,
                FriendStatus::FriendRequestReceived,
            ),
    {
        self.data_service.user_get_pending_friend_requests_for_user(user_id)
    }

    /// The friends view of a user, with live presence for friends.
    pub fn get_friends_list(&self, user_id: UserId) -> (r: Vec<Friend>)
        requires
            unique_user_ids(self@.store.users),
        ensures
            r.deep_view() == friends_list_view(self@, user_id@),
    {
        let combined = self.data_service.friends_get(user_id);
        let n: usize = combined.len();
        let mut r: Vec<Friend> = Vec::new();
        let mut i: usize = 0;
        while i < n
            invariant
                n == combined@.len(),
                combined.deep_view() == combined_entries(self@.store, user_id@),
                0 <= i <= n,
                r.deep_view() =~= with_presence(
                    combined.deep_view().subrange(0, i as int),
                    self@.sessions,
                ),
            decreases n - i,
        {
            proof {
                assert(r.deep_view().len() == with_presence(
                    combined.deep_view().subrange(0, i as int),
                    self@.sessions,
                ).len());
                assert(with_presence(
                    combined.deep_view().subrange(0, i as int),
                    self@.sessions,
                ).len() == i);
                assert(r@.len() == i);
            }
            let entry = &combined[i];
            let upgraded = entry.status == FriendStatus::Offline && self.user_sockets.is_online(
                &entry.id,
            );
            let status = if upgraded {
                FriendStatus::Online
            } else {
                entry.status
            };
            r.push(Friend { id: entry.id.clone(), display_name: entry.display_name.clone(), status });
            proof {
                let cv = combined.deep_view();
                let sub0 = cv.subrange(0, i as int);
                let sub1 = cv.subrange(0, i + 1);
                assert(cv[i as int] == combined@[i as int]@);
                assert(entry@ == combined@[i as int]@);
                assert(r@[r@.len() - 1]@ == presence_fix(cv[i as int], self@.sessions));
                assert(r@.len() == i + 1);
                assert(r.deep_view().len() == r@.len());
                assert(r.deep_view().len() == i + 1);
                assert(with_presence(sub1, self@.sessions).len() == i + 1);
                assert forall|j: int| 0 <= j < i + 1 implies r.deep_view()[j] == with_presence(
                    sub1,
                    self@.sessions,
                )[j] by {
                    assert(with_presence(sub1, self@.sessions)[j] == presence_fix(
                        sub1[j],
                        self@.sessions,
                    ));
                    assert(sub1[j] == cv[j]);
                    if j < i {
                        assert(with_presence(sub0, self@.sessions)[j] == presence_fix(
                            sub0[j],
                            self@.sessions,
                        ));
                        assert(sub0[j] == cv[j]);
                        assert(r.deep_view()[j] == r@[j]@);
                    } else {
                        assert(r.deep_view()[j] == r@[j]@);
                    }
                }
                assert(r.deep_view() =~= with_presence(sub1, self@.sessions));
            }
            i += 1;
        }
        proof {
            assert(combined.deep_view().subrange(0, combined.deep_view().len() as int)
                == combined.deep_view());
        }
        r
    }
}


/// What `Register` does, as a function of the pre-state.
///
/// Validation failures come first, in a fixed order; then the uniqueness
/// checks on the lowercased account name and the email; then the user is
/// created and, when a session is at hand, bound to it.
pub struct RegisterOutcome {
    pub post: ServerView,
    pub result: Result<Seq<char>, Seq<char>>,
}

/// See [`RegisterOutcome`].
pub open spec fn register_outcome(
    s: ServerView,
    account_name: Seq<char>,
    email: Seq<char>,
    display_name: Seq<char>,
    password: Seq<char>,
    lang: Language,
    session: Option<Seq<char>>,
) -> RegisterOutcome {
    if !crate::validation::password_ok(password) {
        RegisterOutcome { post: s, result: Err(i18n::invalid_password_text(lang)) }
    } else if !crate::validation::account_name_ok(account_name) {
        RegisterOutcome { post: s, result: Err(i18n::invalid_account_name_text(lang)) }
    } else if !crate::validation::display_name_ok(display_name) {
        RegisterOutcome { post: s, result: Err(i18n::invalid_display_name_text(lang)) }
    } else if !crate::validation::valid_email(crate::validation::bytes_of(email)) {
        RegisterOutcome { post: s, result: Err(i18n::invalid_email_text(lang)) }
    } else if account_name_lower_taken(s.store.users, crate::text::lower_of(account_name)) {
        RegisterOutcome { post: s, result: Err(i18n::account_name_already_exists_text(lang)) }
    } else if email_taken(s.store.users, email) {
        RegisterOutcome { post: s, result: Err(i18n::email_already_exists_text(lang)) }
    } else {
        let id = crate::ids::dec_str(s.store.next_id);
        let uv = UserView {
            id,
            display_name_lower: crate::text::lower_of(display_name),
            display_name,
            account_name_lower: Some(crate::text::lower_of(account_name)),
            account_name: Some(account_name),
            email: Some(email),
            language: lang,
        };
        let post = ServerView {
            store: StoreView {
                users: s.store.users.push(uv),
                friendships: s.store.friendships,
                requests: s.store.requests,
                blocks: s.store.blocks,
                next_id: s.store.next_id + 1,
            },
            sessions: match session {
                Some(sid) => bind_view(s.sessions, id, sid),
                None => s.sessions,
            },
        };
        RegisterOutcome { post, result: Ok(id) }
    }
}

/// Whether an executable id-or-error result matches a specified one.
pub open spec fn id_result_matches(
    r: Result<UserId, ServerError>,
    o: Result<Seq<char>, Seq<char>>,
) -> bool {
    match r {
        Ok(id) => o matches Ok(idv) && id@ == idv,
        Err(e) => o matches Err(t) && e.0@ == t,
    }
}

/// A chat message ready for fan-out, together with the sessions that are to
/// receive it.
#[derive(Debug)]
pub struct DeliveryPlan {
    pub message: crate::protocol::ChatMessage,
    pub recipients: Vec<SessionId>,
}

/// Mathematical view of a [`DeliveryPlan`].
pub struct DeliveryPlanView {
    pub message: crate::protocol::ChatMessageView,
    pub recipients: Seq<Seq<char>>,
}

impl View for DeliveryPlan {
    type V = DeliveryPlanView;

    open spec fn view(&self) -> DeliveryPlanView {
        DeliveryPlanView { message: self.message@, recipients: self.recipients.deep_view() }
    }
}

/// The outbound message a chat command composes: the sender's display name,
/// the channel, the text and the time of sending.
pub open spec fn composed_message(
    s: ServerView,
    a: Seq<char>,
    channel: crate::protocol::ChatChannelView,
    text: Seq<char>,
    now: u32,
) -> crate::protocol::ChatMessageView {
    crate::protocol::ChatMessageView {
        display_name: user_view_of(s.store.users, a).display_name,
        channel,
        message: text,
        time: now,
    }
}

/// What `SendChatMessage` decides, as a function of the state.
///
/// A whisper requires friendship and mutual non-block, and is delivered to
/// the recipient's session if they have one (to nobody otherwise, without
/// error).  A room message requires membership of the room and fans out to
/// every member session, the sender's included.
pub open spec fn chat_outcome(
    s: ServerView,
    a: Seq<char>,
    channel: crate::protocol::ChatChannelView,
    text: Seq<char>,
    lang: Language,
    now: u32,
) -> Result<DeliveryPlanView, Seq<char>> {
    if !has_user(s.store.users, a) {
        Err(i18n::unknown_user_text(lang))
    } else {
        match channel {
            crate::protocol::ChatChannelView::PrivateMessage(b) => if !has_pair(
                s.store.friendships,
                a,
                b,
            ) {
                Err(i18n::not_friends_text(lang))
            } else if has_pair(s.store.blocks, a, b) || has_pair(s.store.blocks, b, a) {
                Err(i18n::user_is_blocked_text(lang))
            } else {
                Ok(
                    DeliveryPlanView {
                        message: composed_message(s, a, channel, text, now),
                        recipients: if user_bound(s.sessions, b) {
                            seq![session_of_user(s.sessions, b)]
                        } else {
                            Seq::empty()
                        },
                    },
                )
            },
            crate::protocol::ChatChannelView::Room(room) => if room == "general"@ && user_bound(
                s.sessions,
                a,
            ) {
                Ok(
                    DeliveryPlanView {
                        message: composed_message(s, a, channel, text, now),
                        recipients: crate::session::sessions_of(s.sessions),
                    },
                )
            } else {
                Err(i18n::not_in_room_text(lang))
            },
        }
    }
}

/// Whether an executable delivery result matches a specified one.
pub open spec fn delivery_matches(
    r: Result<DeliveryPlan, ServerError>,
    o: Result<DeliveryPlanView, Seq<char>>,
) -> bool {
    match r {
        Ok(p) => o matches Ok(pv) && p@ == pv,
        Err(e) => o matches Err(t) && e.0@ == t,
    }
}

/// An empty id list.
fn no_ids() -> (r: Vec<UserId>)
    ensures
        r.deep_view() == Seq::<Seq<char>>::empty(),
{
    let r: Vec<UserId> = Vec::new();
    proof {
        assert(r.deep_view() =~= Seq::<Seq<char>>::empty());
    }
    r
}

/// A one-element id list.
fn one_id(a: UserId) -> (r: Vec<UserId>)
    ensures
        r.deep_view() == seq![a@],
{
    let mut r: Vec<UserId> = Vec::new();
    r.push(a);
    proof {
        assert(r.deep_view().len() == 1);
        assert(r.deep_view()[0] == r@[0]@);
        assert(r.deep_view() =~= seq![r@[0]@]);
    }
    r
}

/// A two-element id list.
fn two_ids(a: UserId, b: UserId) -> (r: Vec<UserId>)
    ensures
        r.deep_view() == seq![a@, b@],
{
    let ghost av = a@;
    let ghost bv = b@;
    let mut r: Vec<UserId> = Vec::new();
    r.push(a);
    r.push(b);
    proof {
        assert(r.deep_view().len() == 2);
        assert(r.deep_view()[0] == r@[0]@);
        assert(r.deep_view()[1] == r@[1]@);
        assert(r.deep_view() =~= seq![av, bv]);
    }
    r
}

/// The refresh plan that plans nothing.
fn empty_refresh_plan() -> (p: RefreshPlan)
    ensures
        p@ == empty_plan(),
{
    RefreshPlan { accepted: None, friend_requests: no_ids(), friends: no_ids() }
}

impl<T: Database> WarhorseServer<T> {
    /// Consumes the pending request from `other` to `acceptor` and records
    /// the friendship in both directions, returning the accepted friend as
    /// it should be announced to the acceptor.
    fn finalize_friendship(&mut self, acceptor: UserId, other: UserId) -> (f: Friend)
        requires
            server_inv(old(self)@),
            acceptor@ != other@,
            has_user(old(self)@.store.users, acceptor@),
            has_user(old(self)@.store.users, other@),
            !has_pair(old(self)@.store.friendships, acceptor@, other@),
            has_pair(old(self)@.store.requests, other@, acceptor@),
            !has_pair(old(self)@.store.blocks, acceptor@, other@),
            !has_pair(old(self)@.store.blocks, other@, acceptor@),
        ensures
            final(self)@ == with_rels(
                old(self)@,
                old(self)@.store.friendships.push((acceptor@, other@)).push((other@, acceptor@)),
                remove_pair(old(self)@.store.requests, other@, acceptor@),
                old(self)@.store.blocks,
            ),
            server_inv(final(self)@),
            f@ == friend_entry(final(self)@, other@),
    {
        proof {
            lemma_inv_make_friends(old(self)@, acceptor@, other@);
        }
        self.data_service.friend_requests_remove(other.clone(), acceptor.clone());
        self.data_service.friends_add(acceptor.clone(), other.clone());
        self.data_service.friends_add(other.clone(), acceptor.clone());
        let record = self.data_service.users_get(other.clone());
        let status = self.get_online_status(&other);
        match record {
            Some(u) => Friend { id: other, display_name: u.display_name, status },
            None => vstd::pervasive::unreached(),
        }
    }

    /// Records a friend request from `sender_id`, auto-accepting when the
    /// reverse request is already pending.
    pub fn send_friend_request(&mut self, sender_id: UserId, req: crate::protocol::FriendRequest)
        -> (r: Result<RefreshPlan, ServerError>)
        requires
            server_inv(old(self)@),
            has_user(old(self)@.store.users, sender_id@),
        ensures
            server_inv(final(self)@),
            ({
                let o = send_friend_request_outcome(
                    old(self)@,
                    sender_id@,
                    req.friend_id@,
                    req.language,
                );
                final(self)@ == o.post && result_matches(r, o.result)
            }),
    {
        let lang = req.language;
        if crate::text::string_eq(&sender_id, &req.friend_id) {
            return Ok(empty_refresh_plan());
        }
        if self.data_service.friendship_exists(&sender_id, &req.friend_id) {
            return Err(i18n::already_friends(lang));
        }
        if self.data_service.user_is_blocked(sender_id.clone(), req.friend_id.clone()) {
            return Err(i18n::user_is_blocked(lang));
        }
        if self.data_service.user_is_blocked(req.friend_id.clone(), sender_id.clone()) {
            return Err(i18n::user_is_blocked(lang));
        }
        if !self.data_service.user_exists(req.friend_id.clone()) {
            return Err(i18n::unknown_user(lang));
        }
        if self.data_service.friend_request_exists(&sender_id, &req.friend_id) {
            return Ok(empty_refresh_plan());
        }
        if self.data_service.friend_request_exists(&req.friend_id, &sender_id) {
            let friend = self.finalize_friendship(sender_id.clone(), req.friend_id.clone());
            let plan = RefreshPlan {
                accepted: Some(AcceptedNotice { user: sender_id.clone(), friend }),
                friend_requests: one_id(sender_id.clone()),
                friends: two_ids(sender_id, req.friend_id),
            };
            return Ok(plan);
        }
        self.data_service.friend_requests_insert(sender_id.clone(), req.friend_id.clone());
        proof {
            lemma_inv_insert_request(old(self)@, sender_id@, req.friend_id@);
        }
        let plan = RefreshPlan {
            accepted: None,
            friend_requests: one_id(req.friend_id.clone()),
            friends: two_ids(sender_id, req.friend_id),
        };
        Ok(plan)
    }

    /// Accepts a pending friend request from `req.friend_id`.
    pub fn accept_friend_request(
        &mut self,
        user_id: UserId,
        req: crate::protocol::AcceptFriendRequest,
    ) -> (r: Result<RefreshPlan, ServerError>)
        requires
            server_inv(old(self)@),
            has_user(old(self)@.store.users, user_id@),
        ensures
            server_inv(final(self)@),
            ({
                let o = accept_friend_request_outcome(
                    old(self)@,
                    user_id@,
                    req.friend_id@,
                    req.language,
                );
                final(self)@ == o.post && result_matches(r, o.result)
            }),
    {
        let lang = req.language;
        if self.data_service.friendship_exists(&user_id, &req.friend_id) {
            return Err(i18n::already_friends(lang));
        }
        if self.data_service.user_is_blocked(user_id.clone(), req.friend_id.clone()) {
            return Err(i18n::user_is_blocked(lang));
        }
        if self.data_service.user_is_blocked(req.friend_id.clone(), user_id.clone()) {
            return Err(i18n::user_is_blocked(lang));
        }
        if !self.data_service.friend_request_exists(&req.friend_id, &user_id) {
            return Ok(empty_refresh_plan());
        }
        proof {
            let r0 = old(self)@.store.requests;
            let k = choose|k: int| 0 <= k < r0.len() && r0[k] == (req.friend_id@, user_id@);
            assert(r0[k].0 != r0[k].1);
            assert(has_user(old(self)@.store.users, r0[k].0));
        }
        let friend = self.finalize_friendship(user_id.clone(), req.friend_id.clone());
        let plan = RefreshPlan {
            accepted: Some(AcceptedNotice { user: user_id.clone(), friend }),
            friend_requests: no_ids(),
            friends: two_ids(user_id, req.friend_id),
        };
        Ok(plan)
    }

    /// Rejects a pending friend request from `req.friend_id`, if any.
    pub fn reject_friend_request(
        &mut self,
        user_id: UserId,
        req: crate::protocol::RejectFriendRequest,
    ) -> (r: Result<RefreshPlan, ServerError>)
        requires
            server_inv(old(self)@),
        ensures
            server_inv(final(self)@),
            ({
                let o = reject_friend_request_outcome(old(self)@, user_id@, req.friend_id@);
                final(self)@ == o.post && result_matches(r, o.result)
            }),
    {
        if !self.data_service.friend_request_exists(&req.friend_id, &user_id) {
            return Ok(empty_refresh_plan());
        }
        self.data_service.friend_requests_remove(req.friend_id.clone(), user_id.clone());
        proof {
            lemma_inv_remove_request(old(self)@, req.friend_id@, user_id@);
        }
        let plan = RefreshPlan {
            accepted: None,
            friend_requests: one_id(user_id.clone()),
            friends: two_ids(req.friend_id, user_id),
        };
        Ok(plan)
    }

    /// Removes the friendship with `req.friend_id`, both directions, along
    /// with any requests between the two.
    pub fn remove_friend(&mut self, user_id: UserId, req: crate::protocol::RemoveFriendRequest)
        -> (r: Result<RefreshPlan, ServerError>)
        requires
            server_inv(old(self)@),
        ensures
            server_inv(final(self)@),
            ({
                let o = remove_friend_outcome(old(self)@, user_id@, req.friend_id@);
                final(self)@ == o.post && result_matches(r, o.result)
            }),
    {
        self.data_service.friends_remove(user_id.clone(), req.friend_id.clone());
        self.data_service.friends_remove(req.friend_id.clone(), user_id.clone());
        proof {
            lemma_inv_remove_both(old(self)@, user_id@, req.friend_id@);
        }
        let plan = RefreshPlan {
            accepted: None,
            friend_requests: no_ids(),
            friends: two_ids(user_id, req.friend_id),
        };
        Ok(plan)
    }

    /// Blocks `req.user_id`: tears down the friendship and any requests in
    /// both directions and records the block.
    pub fn block_user(&mut self, user_id: UserId, req: crate::protocol::BlockUserRequest) -> (r:
        Result<RefreshPlan, ServerError>)
        requires
            server_inv(old(self)@),
            has_user(old(self)@.store.users, user_id@),
        ensures
            server_inv(final(self)@),
            ({
                let o = block_user_outcome(old(self)@, user_id@, req.user_id@, req.language);
                final(self)@ == o.post && result_matches(r, o.result)
            }),
    {
        let lang = req.language;
        if crate::text::string_eq(&user_id, &req.user_id) {
            return Err(i18n::self_targeted(lang));
        }
        if !self.data_service.user_exists(req.user_id.clone()) {
            return Err(i18n::unknown_user(lang));
        }
        if self.data_service.user_is_blocked(user_id.clone(), req.user_id.clone()) {
            let plan = RefreshPlan {
                accepted: None,
                friend_requests: no_ids(),
                friends: two_ids(user_id, req.user_id),
            };
            return Ok(plan);
        }
        self.data_service.user_blocks_insert(user_id.clone(), req.user_id.clone());
        proof {
            lemma_inv_block(old(self)@, user_id@, req.user_id@);
        }
        let plan = RefreshPlan {
            accepted: None,
            friend_requests: no_ids(),
            friends: two_ids(user_id, req.user_id),
        };
        Ok(plan)
    }

    /// Unblocks `req.user_id`.
    pub fn unblock_user(&mut self, user_id: UserId, req: crate::protocol::UnblockUserRequest)
        -> (r: Result<RefreshPlan, ServerError>)
        requires
            server_inv(old(self)@),
        ensures
            server_inv(final(self)@),
            ({
                let o = unblock_user_outcome(old(self)@, user_id@, req.user_id@);
                final(self)@ == o.post && result_matches(r, o.result)
            }),
    {
        self.data_service.user_blocks_remove(user_id.clone(), req.user_id.clone());
        proof {
            lemma_inv_unblock(old(self)@, user_id@, req.user_id@);
        }
        let plan = RefreshPlan {
            accepted: None,
            friend_requests: no_ids(),
            friends: two_ids(user_id, req.user_id),
        };
        Ok(plan)
    }

    /// Registers a new user and, when a session is at hand, logs them in by
    /// binding that session.
    pub fn register_user(&mut self, req: UserRegistration, session_id: Option<SessionId>) -> (r:
        Result<UserId, ServerError>)
        requires
            server_inv(old(self)@),
            old(self)@.store.next_id < u64::MAX,
        ensures
            server_inv(final(self)@),
            ({
                let o = register_outcome(
                    old(self)@,
                    req.account_name@,
                    req.email@,
                    req.display_name@,
                    req.password@,
                    req.language,
                    match session_id {
                        Some(sid) => Some(sid@),
                        None => None,
                    },
                );
                final(self)@ == o.post && id_result_matches(r, o.result)
            }),
    {
        let lang = req.language;
        if let Err(e) = crate::validation::validate_password(&req.password, lang) {
            return Err(e);
        }
        if let Err(e) = crate::validation::validate_account_name(&req.account_name, lang) {
            return Err(e);
        }
        if let Err(e) = crate::validation::validate_display_name(&req.display_name, lang) {
            return Err(e);
        }
        if !crate::validation::is_valid_email(&req.email) {
            return Err(i18n::invalid_email(lang));
        }
        let lower = crate::text::lowercase(req.account_name.as_str());
        if self.data_service.account_name_lower_exists(lower.as_str()) {
            return Err(i18n::account_name_already_exists(lang));
        }
        match self.data_service.users_get_by_email(req.email.as_str()) {
            Some(_) => {
                return Err(i18n::email_already_exists(lang));
            },
            None => {},
        }
        let new_user_id = self.data_service.users_insert(req);
        proof {
            lemma_register_inv(old(self)@, self@);
        }
        match session_id {
            Some(sid) => {
                let ghost pre_bind = self@;
                self.user_sockets.bind(new_user_id.clone(), sid);
                proof {
                    crate::session::lemma_bind_wf(pre_bind.sessions, new_user_id@, sid@);
                    lemma_sessions_exist_after_bind(
                        pre_bind.sessions,
                        self@.store.users,
                        new_user_id@,
                        sid@,
                    );
                }
            },
            None => {},
        }
        Ok(new_user_id)
    }

    /// Logs a user in by account name or email, binding their session.
    /// Authentication is a stub: any password is accepted for an existing
    /// account.
    pub fn login_user(&mut self, req: crate::protocol::UserLogin, session_id: SessionId) -> (r:
        Result<UserId, ServerError>)
        requires
            server_inv(old(self)@),
        ensures
            server_inv(final(self)@),
            r matches Err(e) ==> final(self)@ == old(self)@ && e.0@ == i18n::invalid_login_text(
                req.language,
            ),
            (match req.identity {
                crate::protocol::LoginUserIdentity::AccountName(name) => r is Ok
                    <==> crate::store::account_name_taken(old(self)@.store.users, name@),
                crate::protocol::LoginUserIdentity::Email(email) => r is Ok <==> email_taken(
                    old(self)@.store.users,
                    email@,
                ),
            }),
            r matches Ok(id) ==> {
                &&& has_user(old(self)@.store.users, id@)
                &&& final(self)@.store == old(self)@.store
                &&& final(self)@.sessions == bind_view(old(self)@.sessions, id@, session_id@)
                &&& (match req.identity {
                    crate::protocol::LoginUserIdentity::AccountName(name) => exists|i: int|
                        0 <= i < old(self)@.store.users.len() && (#[trigger] old(
                            self,
                        )@.store.users[i]).id == id@ && old(self)@.store.users[i].account_name
                            == Some(name@),
                    crate::protocol::LoginUserIdentity::Email(email) => exists|i: int|
                        0 <= i < old(self)@.store.users.len() && (#[trigger] old(
                            self,
                        )@.store.users[i]).id == id@ && old(self)@.store.users[i].email == Some(
                            email@,
                        ),
                })
            },
    {
        let found = match &req.identity {
            crate::protocol::LoginUserIdentity::AccountName(name) => {
                self.data_service.users_get_by_account_name(name.as_str())
            },
            crate::protocol::LoginUserIdentity::Email(email) => {
                self.data_service.users_get_by_email(email.as_str())
            },
        };
        match found {
            Some(user) => {
                proof {
                    let users = old(self)@.store.users;
                    let k = choose|k: int| 0 <= k < users.len() && users[k] == user@;
                    assert(users[k].id == user@.id);
                    assert(has_user(users, user@.id));
                }
                let ghost pre_bind = self@;
                self.user_sockets.bind(user.id.clone(), session_id);
                proof {
                    crate::session::lemma_bind_wf(pre_bind.sessions, user@.id, session_id@);
                    lemma_sessions_exist_after_bind(
                        pre_bind.sessions,
                        self@.store.users,
                        user@.id,
                        session_id@,
                    );
                }
                Ok(user.id)
            },
            None => Err(i18n::invalid_login(req.language)),
        }
    }

    /// Composes and authorizes a chat message at a given time, deciding the
    /// set of sessions it is delivered to.
    pub fn send_chat_message_at(
        &self,
        sender_id: UserId,
        message: crate::protocol::SendChatMessage,
        now: u32,
    ) -> (r: Result<DeliveryPlan, ServerError>)
        requires
            server_inv(self@),
        ensures
            delivery_matches(
                r,
                chat_outcome(
                    self@,
                    sender_id@,
                    message.channel@,
                    message.message@,
                    message.language,
                    now,
                ),
            ),
    {
        let lang = message.language;
        let sender = match self.data_service.users_get(sender_id.clone()) {
            Some(u) => u,
            None => {
                return Err(i18n::unknown_user(lang));
            },
        };
        match message.channel {
            crate::protocol::ChatChannel::PrivateMessage(recipient) => {
                if !self.data_service.friendship_exists(&sender_id, &recipient) {
                    return Err(i18n::not_friends(lang));
                }
                if self.data_service.user_is_blocked(sender_id.clone(), recipient.clone()) {
                    return Err(i18n::user_is_blocked(lang));
                }
                if self.data_service.user_is_blocked(recipient.clone(), sender_id.clone()) {
                    return Err(i18n::user_is_blocked(lang));
                }
                let recipients = match self.user_sockets.session_of(&recipient) {
                    Some(sid) => one_id(sid.clone()),
                    None => no_ids(),
                };
                let composed = crate::protocol::ChatMessage {
                    display_name: sender.display_name,
                    channel: crate::protocol::ChatChannel::PrivateMessage(recipient),
                    message: message.message,
                    time: now,
                };
                Ok(DeliveryPlan { message: composed, recipients })
            },
            crate::protocol::ChatChannel::Room(room) => {
                if !self.user_in_room(&sender_id, room.as_str()) {
                    return Err(i18n::not_in_room(lang));
                }
                let recipients = self.user_sockets.all_sessions();
                let composed = crate::protocol::ChatMessage {
                    display_name: sender.display_name,
                    channel: crate::protocol::ChatChannel::Room(room),
                    message: message.message,
                    time: now,
                };
                Ok(DeliveryPlan { message: composed, recipients })
            },
        }
    }

    /// Composes and authorizes a chat message stamped with the current
    /// time.  The time is read from the wall clock, so the outcome is
    /// pinned only up to the moment of sending.
    pub fn send_chat_message(&self, sender_id: UserId, message: crate::protocol::SendChatMessage)
        -> (r: Result<DeliveryPlan, ServerError>)
        requires
            server_inv(self@),
        ensures
            exists|now: u32|
                delivery_matches(
                    r,
                    #[trigger] chat_outcome(
                        self@,
                        sender_id@,
                        message.channel@,
                        message.message@,
                        message.language,
                        now,
                    ),
                ),
    {
        let now = crate::clock::now_unix();
        let ghost channel = message.channel@;
        let ghost text = message.message@;
        let ghost lang = message.language;
        let r = self.send_chat_message_at(sender_id, message, now);
        proof {
            assert(delivery_matches(r, chat_outcome(self@, sender_id@, channel, text, lang, now)));
        }
        r
    }
}

/// Removing one friend request preserves the server invariant.
proof fn lemma_inv_remove_request(s: ServerView, x: Seq<char>, y: Seq<char>)
    requires
        server_inv(s),
    ensures
        server_inv(
            with_rels(s, s.store.friendships, remove_pair(s.store.requests, x, y), s.store.blocks),
        ),
{
    let f0 = s.store.friendships;
    let r0 = s.store.requests;
    let b0 = s.store.blocks;
    let r1 = remove_pair(r0, x, y);
    crate::store::lemma_remove_pair_membership(r0, x, y);
    crate::store::lemma_remove_pair_no_dup(r0, x, y);
    crate::store::lemma_remove_pair_subset(r0, x, y);
    lemma_subset_has_pair(r0, r1);
    lemma_subset_rel_props(r0, r1, s.store.users);
    assert forall|i: int| 0 <= i < r1.len() implies !has_pair(r1, (#[trigger] r1[i]).1, r1[i].0) by {
        let p = r1[i];
        assert(r0.contains(p));
        let k = choose|k: int| 0 <= k < r0.len() && r0[k] == p;
        if has_pair(r1, p.1, p.0) {
            assert(has_pair(r0, p.1, p.0));
        }
    }
    assert forall|i: int|
        0 <= i < f0.len() implies !has_pair(r1, (#[trigger] f0[i]).0, f0[i].1) && !has_pair(
        r1,
        f0[i].1,
        f0[i].0,
    ) by {
        let p = f0[i];
        if has_pair(r1, p.0, p.1) {
            assert(has_pair(r0, p.0, p.1));
        }
        if has_pair(r1, p.1, p.0) {
            assert(has_pair(r0, p.1, p.0));
        }
    }
    assert forall|i: int|
        0 <= i < b0.len() implies !has_pair(r1, (#[trigger] b0[i]).0, b0[i].1) && !has_pair(
        r1,
        b0[i].1,
        b0[i].0,
    ) by {
        let p = b0[i];
        if has_pair(r1, p.0, p.1) {
            assert(has_pair(r0, p.0, p.1));
        }
        if has_pair(r1, p.1, p.0) {
            assert(has_pair(r0, p.1, p.0));
        }
    }
}

/// After a registration the whole invariant still holds on the store side.
proof fn lemma_register_inv(pre: ServerView, post: ServerView)
    requires
        server_inv(pre),
        post.store.users.len() == pre.store.users.len() + 1,
        post.store.users == pre.store.users.push(post.store.users.last()),
        post.store.users.last().account_name is Some,
        post.store.users.last().account_name_lower is Some,
        post.store.users.last().email is Some,
        !account_name_lower_taken(pre.store.users, post.store.users.last().account_name_lower->0),
        !email_taken(pre.store.users, post.store.users.last().email->0),
        store_wf(post.store),
        post.store.friendships == pre.store.friendships,
        post.store.requests == pre.store.requests,
        post.store.blocks == pre.store.blocks,
        post.sessions == pre.sessions,
    ensures
        server_inv(post),
{
    let users0 = pre.store.users;
    let uv = post.store.users.last();
    let users1 = post.store.users;
    crate::store::lemma_wf_unique(post.store);
    lemma_has_user_push(users0, uv);
    assert(users1 == users0.push(uv));
    assert forall|i: int|
        0 <= i < users1.len() implies (#[trigger] users1[i]).account_name is Some
        && users1[i].account_name_lower is Some && users1[i].email is Some by {
        if i < users0.len() {
            assert(users1[i] == users0[i]);
        } else {
            assert(users1[i] == uv);
        }
    }
    assert forall|i: int, j: int|
        0 <= i < j < users1.len() implies (#[trigger] users1[i]).account_name_lower != (
    #[trigger] users1[j]).account_name_lower && users1[i].email != users1[j].email by {
        if j < users0.len() {
            assert(users1[i] == users0[i]);
            assert(users1[j] == users0[j]);
        } else {
            assert(users1[i] == users0[i]);
            assert(users1[j] == uv);
            if users0[i].account_name_lower == uv.account_name_lower {
                assert(account_name_lower_taken(users0, uv.account_name_lower->0));
            }
            if users0[i].email == uv.email {
                assert(email_taken(users0, uv.email->0));
            }
        }
    }
    assert forall|i: int|
        0 <= i < post.store.friendships.len() implies has_user(
        users1,
        (#[trigger] post.store.friendships[i]).0,
    ) && has_user(users1, post.store.friendships[i].1) by {}
    assert forall|i: int|
        0 <= i < post.store.requests.len() implies has_user(
        users1,
        (#[trigger] post.store.requests[i]).0,
    ) && has_user(users1, post.store.requests[i].1) by {}
    assert forall|i: int|
        0 <= i < post.store.blocks.len() implies has_user(
        users1,
        (#[trigger] post.store.blocks[i]).0,
    ) && has_user(users1, post.store.blocks[i].1) by {}
    assert forall|i: int|
        0 <= i < post.sessions.len() implies has_user(
        users1,
        (#[trigger] post.sessions[i]).0,
    ) by {}
}

/// After binding an existing user, every bound user still exists.
proof fn lemma_sessions_exist_after_bind(
    b: Seq<PairView>,
    users: Seq<UserView>,
    u: Seq<char>,
    sid: Seq<char>,
)
    requires
        sessions_users_exist(b, users),
        has_user(users, u),
    ensures
        sessions_users_exist(bind_view(b, u, sid), users),
{
    let d1 = drop_user(b, u);
    let d2 = drop_session(d1, sid);
    crate::session::lemma_drop_user_subset(b, u);
    crate::session::lemma_drop_session_subset(d1, sid);
    let pushed = d2.push((u, sid));
    assert forall|i: int| 0 <= i < pushed.len() implies has_user(
        users,
        (#[trigger] pushed[i]).0,
    ) by {
        if i < pushed.len() - 1 {
            assert(pushed[i] == d2[i]);
            assert(d1.contains(d2[i]));
            let k = choose|k: int| 0 <= k < d1.len() && d1[k] == d2[i];
            assert(b.contains(d1[k]));
            let m = choose|m: int| 0 <= m < b.len() && b[m] == d1[k];
        } else {
            assert(pushed[i] == (u, sid));
        }
    }
}

} // verus!
