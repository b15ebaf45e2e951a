//! The in-memory store: users, friendships, friend requests and blocks as
//! plain tables of records and ordered pairs.
//!
//! The store performs pure data operations only; symmetry of friendships and
//! the cross-relation invariants are enforced by the relationship service
//! that drives it.

use vstd::prelude::*;

use crate::ids::{dec_str, lemma_dec_str_injective, u64_to_dec_string};
use crate::protocol::{Friend, FriendStatus, FriendView, UserId, UserPartial, UserRegistration, UserView};
use crate::text::{lower_of, lowercase, str_eq, string_eq};

verus! {

/// An ordered pair of user ids, as a pair of character sequences.
pub type PairView = (Seq<char>, Seq<char>);

/// Mathematical view of the whole store.
pub struct StoreView {
    pub users: Seq<UserView>,
    pub friendships: Seq<PairView>,
    pub requests: Seq<PairView>,
    pub blocks: Seq<PairView>,
    pub next_id: nat,
}

/// The view of a sequence of user-id pairs.
pub open spec fn pairs_view(v: Seq<(UserId, UserId)>) -> Seq<PairView> {
    v.map_values(|p: (UserId, UserId)| (p.0@, p.1@))
}

/// Whether a relation holds an ordered pair.
pub open spec fn has_pair(rel: Seq<PairView>, a: Seq<char>, b: Seq<char>) -> bool {
    rel.contains((a, b))
}

/// The relation with every occurrence of one ordered pair removed.
pub open spec fn remove_pair(rel: Seq<PairView>, a: Seq<char>, b: Seq<char>) -> Seq<PairView> {
    rel.filter(|p: PairView| p != (a, b))
}

/// Whether some user record carries the given id.
pub open spec fn has_user(users: Seq<UserView>, id: Seq<char>) -> bool {
    exists|i: int| 0 <= i < users.len() && users[i].id == id
}

/// The user record carrying the given id (unique when ids are unique).
pub open spec fn user_view_of(users: Seq<UserView>, id: Seq<char>) -> UserView {
    users[choose|i: int| 0 <= i < users.len() && users[i].id == id]
}

/// Whether all user ids are pairwise distinct.
pub open spec fn unique_user_ids(users: Seq<UserView>) -> bool {
    forall|i: int, j: int|
        0 <= i < j < users.len() ==> (#[trigger] users[i].id) != (#[trigger] users[j].id)
}

/// Whether some user record carries the given account name.
pub open spec fn account_name_taken(users: Seq<UserView>, name: Seq<char>) -> bool {
    exists|i: int| 0 <= i < users.len() && (#[trigger] users[i].account_name) == Some(name)
}

/// Whether some user record carries the given lowercased account name.
pub open spec fn account_name_lower_taken(users: Seq<UserView>, lower: Seq<char>) -> bool {
    exists|i: int| 0 <= i < users.len() && (#[trigger] users[i].account_name_lower) == Some(lower)
}

/// Whether some user record carries the given email.
pub open spec fn email_taken(users: Seq<UserView>, email: Seq<char>) -> bool {
    exists|i: int| 0 <= i < users.len() && (#[trigger] users[i].email) == Some(email)
}

/// Well-formedness of the store itself: ids are the decimal strings of the
/// positions at which users were inserted, and the counter is ahead of them.
pub open spec fn store_wf(s: StoreView) -> bool {
    &&& s.users.len() == s.next_id
    &&& forall|i: int| 0 <= i < s.users.len() ==> (#[trigger] s.users[i].id) == dec_str(i as nat)
}

/// Counter-assigned decimal ids are pairwise distinct.
pub proof fn lemma_wf_unique(s: StoreView)
    requires
        store_wf(s),
    ensures
        unique_user_ids(s.users),
{
    assert forall|i: int, j: int|
        0 <= i < j < s.users.len() implies (#[trigger] s.users[i].id) != (
    #[trigger] s.users[j].id) by {
        if s.users[i].id == s.users[j].id {
            lemma_dec_str_injective(i as nat, j as nat);
        }
    }
}

/// A found record with unique ids is the record [`user_view_of`] denotes.
pub proof fn lemma_user_at(users: Seq<UserView>, k: int)
    requires
        unique_user_ids(users),
        0 <= k < users.len(),
    ensures
        has_user(users, users[k].id),
        user_view_of(users, users[k].id) == users[k],
{
    let id = users[k].id;
    assert(has_user(users, id));
    let i = choose|i: int| 0 <= i < users.len() && users[i].id == id;
    if i < k {
        assert(users[i].id != users[k].id);
    }
    if k < i {
        assert(users[k].id != users[i].id);
    }
}

/// The friends-view entries a relation contributes for a user on its left
/// side: one entry per pair `(u, partner)` whose partner has a record.
pub open spec fn entries_from(
    users: Seq<UserView>,
    rel: Seq<PairView>,
    u: Seq<char>,
    st: FriendStatus,
) -> Seq<FriendView>
    decreases rel.len(),
{
    if rel.len() == 0 {
        Seq::empty()
    } else {
        let rest = entries_from(users, rel.drop_last(), u, st);
        let p = rel.last();
        if p.0 == u && has_user(users, p.1) {
            rest.push(
                FriendView {
                    id: p.1,
                    display_name: user_view_of(users, p.1).display_name,
                    status: st,
                },
            )
        } else {
            rest
        }
    }
}

/// The friends-view entries a relation contributes for a user on its right
/// side: one entry per pair `(partner, u)` whose partner has a record.
pub open spec fn entries_to(
    users: Seq<UserView>,
    rel: Seq<PairView>,
    u: Seq<char>,
    st: FriendStatus,
) -> Seq<FriendView>
    decreases rel.len(),
{
    if rel.len() == 0 {
        Seq::empty()
    } else {
        let rest = entries_to(users, rel.drop_last(), u, st);
        let p = rel.last();
        if p.1 == u && has_user(users, p.0) {
            rest.push(
                FriendView {
                    id: p.0,
                    display_name: user_view_of(users, p.0).display_name,
                    status: st,
                },
            )
        } else {
            rest
        }
    }
}

/// No pair relates a user to itself.
pub open spec fn rel_irreflexive(rel: Seq<PairView>) -> bool {
    forall|i: int| 0 <= i < rel.len() ==> (#[trigger] rel[i]).0 != rel[i].1
}

/// No ordered pair occurs twice.
pub open spec fn rel_no_dup(rel: Seq<PairView>) -> bool {
    forall|i: int, j: int| 0 <= i < j < rel.len() ==> (#[trigger] rel[i]) != (#[trigger] rel[j])
}

/// Every pair occurs together with its mirror image.
pub open spec fn rel_symmetric(rel: Seq<PairView>) -> bool {
    forall|i: int| 0 <= i < rel.len() ==> has_pair(rel, (#[trigger] rel[i]).1, rel[i].0)
}

/// No pair occurs together with its mirror image.
pub open spec fn rel_no_crossed(rel: Seq<PairView>) -> bool {
    forall|i: int| 0 <= i < rel.len() ==> !has_pair(rel, (#[trigger] rel[i]).1, rel[i].0)
}

/// No pair of the first relation occurs in the second, in either
/// orientation.
pub open spec fn rels_disjoint_sym(a: Seq<PairView>, b: Seq<PairView>) -> bool {
    forall|i: int|
        0 <= i < a.len() ==> !has_pair(b, (#[trigger] a[i]).0, a[i].1) && !has_pair(
            b,
            a[i].1,
            a[i].0,
        )
}

/// Both endpoints of every pair are registered users.
pub open spec fn rel_endpoints_exist(rel: Seq<PairView>, users: Seq<UserView>) -> bool {
    forall|i: int|
        0 <= i < rel.len() ==> has_user(users, (#[trigger] rel[i]).0) && has_user(users, rel[i].1)
}

/// Membership in a filtered pair sequence: exactly the members that satisfy
/// the predicate.
pub proof fn lemma_filter_pairs_membership(s: Seq<PairView>, pred: spec_fn(PairView) -> bool)
    ensures
        forall|p: PairView| #[trigger] s.filter(pred).contains(p) <==> s.contains(p) && pred(p),
    decreases s.len(),
{
    reveal_with_fuel(Seq::filter, 2);
    if s.len() == 0 {
    } else {
        let rest = s.drop_last();
        lemma_filter_pairs_membership(rest, pred);
        assert forall|p: PairView| #[trigger] s.filter(pred).contains(p) implies s.contains(p)
            && pred(p) by {
            if rest.filter(pred).contains(p) {
                let k = choose|k: int| 0 <= k < rest.len() && rest[k] == p;
                assert(s[k] == p);
            } else {
                assert(p == s.last());
                assert(s[s.len() - 1] == p);
            }
        }
        assert forall|p: PairView| s.contains(p) && pred(p) implies #[trigger] s.filter(
            pred,
        ).contains(p) by {
            let k = choose|k: int| 0 <= k < s.len() && s[k] == p;
            if k < s.len() - 1 {
                assert(rest[k] == p);
                assert(rest.contains(p));
                assert(rest.filter(pred).contains(p));
                let m = choose|m: int| 0 <= m < rest.filter(pred).len() && rest.filter(pred)[m]
                    == p;
                assert(s.filter(pred)[m] == p);
            } else {
                assert(p == s.last());
                assert(s.filter(pred).last() == p);
            }
        }
    }
}

/// A filtered pair sequence keeps pairs distinct.
pub proof fn lemma_filter_pairs_no_dup(s: Seq<PairView>, pred: spec_fn(PairView) -> bool)
    requires
        rel_no_dup(s),
    ensures
        rel_no_dup(s.filter(pred)),
    decreases s.len(),
{
    reveal_with_fuel(Seq::filter, 2);
    if s.len() == 0 {
    } else {
        let rest = s.drop_last();
        assert(rel_no_dup(rest)) by {
            assert(forall|i: int| 0 <= i < rest.len() ==> rest[i] == s[i]);
        }
        lemma_filter_pairs_no_dup(rest, pred);
        lemma_filter_pairs_membership(rest, pred);
        if pred(s.last()) {
            let f = rest.filter(pred);
            assert forall|i: int, j: int|
                0 <= i < j < s.filter(pred).len() implies (#[trigger] s.filter(pred)[i]) != (
            #[trigger] s.filter(pred)[j]) by {
                if j < f.len() {
                    assert(s.filter(pred)[i] == f[i]);
                    assert(s.filter(pred)[j] == f[j]);
                } else {
                    assert(s.filter(pred)[j] == s.last());
                    assert(s.filter(pred)[i] == f[i]);
                    assert(f.contains(f[i]));
                    if f[i] == s.last() {
                        let k = choose|k: int| 0 <= k < rest.len() && rest[k] == s.last();
                        assert(s[k] == s.last());
                        assert(s[k] != s[s.len() - 1]);
                    }
                }
            }
        }
    }
}

/// Membership after removing one pair.
pub proof fn lemma_remove_pair_membership(rel: Seq<PairView>, a: Seq<char>, b: Seq<char>)
    ensures
        forall|x: Seq<char>, y: Seq<char>|
            has_pair(#[trigger] remove_pair(rel, a, b), x, y) <==> (has_pair(rel, x, y) && (x, y)
                != (a, b)),
{
    lemma_filter_pairs_membership(rel, |p: PairView| p != (a, b));
    assert forall|x: Seq<char>, y: Seq<char>|
        has_pair(#[trigger] remove_pair(rel, a, b), x, y) <==> (has_pair(rel, x, y) && (x, y) != (
        a,
        b,
    )) by {
        assert(remove_pair(rel, a, b).contains((x, y)) <==> rel.contains((x, y)) && (|p: PairView|
            p != (a, b))((x, y)));
    }
}

/// Removing an absent pair leaves the relation as it was.
pub proof fn lemma_remove_pair_absent(rel: Seq<PairView>, a: Seq<char>, b: Seq<char>)
    requires
        !has_pair(rel, a, b),
    ensures
        remove_pair(rel, a, b) == rel,
    decreases rel.len(),
{
    reveal_with_fuel(Seq::filter, 2);
    if rel.len() == 0 {
        assert(remove_pair(rel, a, b) =~= rel);
    } else {
        let rest = rel.drop_last();
        assert(!has_pair(rest, a, b)) by {
            if has_pair(rest, a, b) {
                let k = choose|k: int| 0 <= k < rest.len() && rest[k] == (a, b);
                assert(rel[k] == (a, b));
            }
        }
        lemma_remove_pair_absent(rest, a, b);
        assert(rel.last() != (a, b)) by {
            if rel.last() == (a, b) {
                assert(rel[rel.len() - 1] == (a, b));
            }
        }
        assert(remove_pair(rel, a, b) =~= rel);
    }
}

/// Removing a just-pushed pair undoes the push.
pub proof fn lemma_remove_pair_push(rel: Seq<PairView>, a: Seq<char>, b: Seq<char>)
    requires
        !has_pair(rel, a, b),
    ensures
        remove_pair(rel.push((a, b)), a, b) == rel,
{
    reveal_with_fuel(Seq::filter, 2);
    let pushed = rel.push((a, b));
    assert(pushed.drop_last() =~= rel);
    lemma_remove_pair_absent(rel, a, b);
}

/// Every element of a filtered pair sequence is an element of the original.
pub proof fn lemma_filter_pairs_subset(s: Seq<PairView>, pred: spec_fn(PairView) -> bool)
    ensures
        forall|i: int|
            0 <= i < s.filter(pred).len() ==> s.contains(#[trigger] s.filter(pred)[i]) && pred(
                s.filter(pred)[i],
            ),
{
    lemma_filter_pairs_membership(s, pred);
    assert forall|i: int| 0 <= i < s.filter(pred).len() implies s.contains(
        #[trigger] s.filter(pred)[i],
    ) && pred(s.filter(pred)[i]) by {
        assert(s.filter(pred).contains(s.filter(pred)[i]));
    }
}

/// Membership in a relation after appending one pair.
pub proof fn lemma_has_pair_push(rel: Seq<PairView>, p: PairView)
    ensures
        forall|x: Seq<char>, y: Seq<char>|
            has_pair(#[trigger] rel.push(p), x, y) <==> has_pair(rel, x, y) || p == (x, y),
{
    assert forall|x: Seq<char>, y: Seq<char>|
        has_pair(#[trigger] rel.push(p), x, y) <==> has_pair(rel, x, y) || p == (x, y) by {
        if has_pair(rel.push(p), x, y) {
            let k = choose|k: int| 0 <= k < rel.push(p).len() && rel.push(p)[k] == (x, y);
            if k < rel.len() {
                assert(rel[k] == (x, y));
            }
        }
        if has_pair(rel, x, y) {
            let k = choose|k: int| 0 <= k < rel.len() && rel[k] == (x, y);
            assert(rel.push(p)[k] == (x, y));
        }
        if p == (x, y) {
            assert(rel.push(p)[rel.len() as int] == (x, y));
        }
    }
}

/// Removing a pair keeps the remaining pairs distinct.
pub proof fn lemma_remove_pair_no_dup(rel: Seq<PairView>, a: Seq<char>, b: Seq<char>)
    requires
        rel_no_dup(rel),
    ensures
        rel_no_dup(remove_pair(rel, a, b)),
{
    lemma_filter_pairs_no_dup(rel, |p: PairView| p != (a, b));
}

/// Every pair left after a removal is a pair of the original relation, and
/// differs from the removed one.
pub proof fn lemma_remove_pair_subset(rel: Seq<PairView>, a: Seq<char>, b: Seq<char>)
    ensures
        forall|i: int|
            0 <= i < remove_pair(rel, a, b).len() ==> rel.contains(
                #[trigger] remove_pair(rel, a, b)[i],
            ) && remove_pair(rel, a, b)[i] != (a, b),
{
    lemma_filter_pairs_subset(rel, |p: PairView| p != (a, b));
}

/// The in-memory database behind the store interface.
pub struct InMemoryDatabase {
    users: Vec<UserPartial>,
    friendships: Vec<(UserId, UserId)>,
    friend_requests: Vec<(UserId, UserId)>,
    user_blocks: Vec<(UserId, UserId)>,
    next_user_id: u64,
}

impl View for InMemoryDatabase {
    type V = StoreView;

    closed spec fn view(&self) -> StoreView {
        StoreView {
            users: self.users@.map_values(|u: UserPartial| u@),
            friendships: pairs_view(self.friendships@),
            requests: pairs_view(self.friend_requests@),
            blocks: pairs_view(self.user_blocks@),
            next_id: self.next_user_id as nat,
        }
    }
}

/// The store interface: the operations the relationship service needs from
/// a backend.  The in-memory database below implements it; another backend
/// can be plugged in by meeting the same contracts.
pub trait Database: View<V = StoreView> + Sized {
    /// A fresh, empty store for the given connection string.
    fn new(_connection_string: &str) -> (r: Self)
        ensures
            r@.users == Seq::<UserView>::empty(),
            r@.friendships == Seq::<PairView>::empty(),
            r@.requests == Seq::<PairView>::empty(),
            r@.blocks == Seq::<PairView>::empty(),
            r@.next_id == 0,
            store_wf(r@),
    ;

    /// Whether a user with this id is registered.
    fn user_exists(&self, user_id: UserId) -> (r: bool)
        ensures
            r == has_user(self@.users, user_id@),
    ;

    /// Inserts a new user, assigning the next id from the counter and
    /// storing lowercased duplicates of the names for lookup.
    fn users_insert(&mut self, user: UserRegistration) -> (r: UserId)
        requires
            store_wf(old(self)@),
            old(self)@.next_id < u64::MAX,
        ensures
            r@ == dec_str(old(self)@.next_id),
            final(self)@.users == old(self)@.users.push(
                UserView {
                    id: dec_str(old(self)@.next_id),
                    display_name_lower: lower_of(user.display_name@),
                    display_name: user.display_name@,
                    account_name_lower: Some(lower_of(user.account_name@)),
                    account_name: Some(user.account_name@),
                    email: Some(user.email@),
                    language: user.language,
                },
            ),
            final(self)@.friendships == old(self)@.friendships,
            final(self)@.requests == old(self)@.requests,
            final(self)@.blocks == old(self)@.blocks,
            final(self)@.next_id == old(self)@.next_id + 1,
            store_wf(final(self)@),
    ;

    /// Looks a user up by id.
    fn users_get(&self, user_id: UserId) -> (r: Option<UserPartial>)
        requires
            unique_user_ids(self@.users),
        ensures
            r is Some <==> has_user(self@.users, user_id@),
            r matches Some(u) ==> u@ == user_view_of(self@.users, user_id@) && u@.id == user_id@,
    ;

    /// Looks a user up by exact account name.
    fn users_get_by_account_name(&self, account_name: &str) -> (r: Option<UserPartial>)
        ensures
            r is Some <==> account_name_taken(self@.users, account_name@),
            r matches Some(u) ==> exists|i: int|
                0 <= i < self@.users.len() && (#[trigger] self@.users[i]) == u@
                    && u@.account_name == Some(account_name@),
    ;

    /// Whether some user already holds this lowercased account name.
    fn account_name_lower_exists(&self, lower: &str) -> (r: bool)
        ensures
            r == account_name_lower_taken(self@.users, lower@),
    ;

    /// Looks a user up by exact email.
    fn users_get_by_email(&self, email: &str) -> (r: Option<UserPartial>)
        ensures
            r is Some <==> email_taken(self@.users, email@),
            r matches Some(u) ==> exists|i: int|
                0 <= i < self@.users.len() && (#[trigger] self@.users[i]) == u@ && u@.email == Some(
                    email@,
                ),
    ;

    /// Records a block of `blocked_id` by `user_id`.
    fn user_blocks_insert(&mut self, user_id: UserId, blocked_id: UserId)
        ensures
            final(self)@.blocks == old(self)@.blocks.push((user_id@, blocked_id@)),
            final(self)@.users == old(self)@.users,
            final(self)@.friendships == old(self)@.friendships,
            final(self)@.requests == old(self)@.requests,
            final(self)@.next_id == old(self)@.next_id,
    ;

    /// Removes a block of `blocked_id` by `user_id`.
    fn user_blocks_remove(&mut self, user_id: UserId, blocked_id: UserId)
        ensures
            final(self)@.blocks == remove_pair(old(self)@.blocks, user_id@, blocked_id@),
            final(self)@.users == old(self)@.users,
            final(self)@.friendships == old(self)@.friendships,
            final(self)@.requests == old(self)@.requests,
            final(self)@.next_id == old(self)@.next_id,
    ;

    /// The users `user_id` has blocked, as `Blocked` friends-view entries.
    fn user_blocks_get_blocks_for_user(&self, user_id: UserId) -> (r: Vec<Friend>)
        requires
            unique_user_ids(self@.users),
        ensures
            r.deep_view() == entries_from(
                self@.users,
                self@.blocks,
                user_id@,
                FriendStatus::Blocked,
            ),
    ;

    /// Whether `user_id` has blocked `blocked_id`.
    fn user_is_blocked(&self, user_id: UserId, blocked_id: UserId) -> (r: bool)
        ensures
            r == has_pair(self@.blocks, user_id@, blocked_id@),
    ;

    /// Records a friend request from `user_id` to `friend_id`.
    fn friend_requests_insert(&mut self, user_id: UserId, friend_id: UserId)
        ensures
            final(self)@.requests == old(self)@.requests.push((user_id@, friend_id@)),
            final(self)@.users == old(self)@.users,
            final(self)@.friendships == old(self)@.friendships,
            final(self)@.blocks == old(self)@.blocks,
            final(self)@.next_id == old(self)@.next_id,
    ;

    /// Removes the friend request from `user_id` to `friend_id`.
    fn friend_requests_remove(&mut self, user_id: UserId, friend_id: UserId)
        ensures
            final(self)@.requests == remove_pair(old(self)@.requests, user_id@, friend_id@),
            final(self)@.users == old(self)@.users,
            final(self)@.friendships == old(self)@.friendships,
            final(self)@.blocks == old(self)@.blocks,
            final(self)@.next_id == old(self)@.next_id,
    ;

    /// The senders of requests to `user_id`, as `FriendRequestReceived`
    /// friends-view entries.
    fn user_get_pending_friend_requests_for_user(&self, user_id: UserId) -> (r: Vec<Friend>)
        requires
            unique_user_ids(self@.users),
        ensures
            r.deep_view() == entries_to(
                self@.users,
                self@.requests,
                user_id@,
                FriendStatus::FriendRequestReceived,
            ),
    ;

    /// The recipients of requests from `user_id`, as `FriendRequestSent`
    /// friends-view entries.
    fn user_get_friend_request_invites_sent_for_user(&self, user_id: UserId) -> (r: Vec<
        Friend,
    >)
        requires
            unique_user_ids(self@.users),
        ensures
            r.deep_view() == entries_from(
                self@.users,
                self@.requests,
                user_id@,
                FriendStatus::FriendRequestSent,
            ),
    ;

    /// Records the single direction `(user_id, friend_id)` of a friendship.
    /// The relationship service inserts both directions.
    fn friends_add(&mut self, user_id: UserId, friend_id: UserId)
        ensures
            final(self)@.friendships == old(self)@.friendships.push((user_id@, friend_id@)),
            final(self)@.users == old(self)@.users,
            final(self)@.requests == old(self)@.requests,
            final(self)@.blocks == old(self)@.blocks,
            final(self)@.next_id == old(self)@.next_id,
    ;

    /// Removes the single direction `(user_id, friend_id)` of a friendship.
    fn friends_remove(&mut self, user_id: UserId, friend_id: UserId)
        ensures
            final(self)@.friendships == remove_pair(old(self)@.friendships, user_id@, friend_id@),
            final(self)@.users == old(self)@.users,
            final(self)@.requests == old(self)@.requests,
            final(self)@.blocks == old(self)@.blocks,
            final(self)@.next_id == old(self)@.next_id,
    ;

    /// Whether the single direction `(a, b)` of a friendship is recorded.
    fn friendship_exists(&self, a: &UserId, b: &UserId) -> (r: bool)
        ensures
            r == has_pair(self@.friendships, a@, b@),
    ;

    /// Whether a friend request from `a` to `b` is recorded.
    fn friend_request_exists(&self, a: &UserId, b: &UserId) -> (r: bool)
        ensures
            r == has_pair(self@.requests, a@, b@),
    ;

    /// The friends of `user_id`, as friends-view entries whose status
    /// defaults to `Offline`; presence is the caller's concern.
    fn friends_get(&self, user_id: UserId) -> (r: Vec<Friend>)
        requires
            unique_user_ids(self@.users),
        ensures
            r.deep_view() == entries_from(
                self@.users,
                self@.friendships,
                user_id@,
                FriendStatus::Offline,
            ),
    ;
}

impl Database for InMemoryDatabase {

    fn new(_connection_string: &str) -> (r: Self)
    {
        let r = InMemoryDatabase {
            users: Vec::new(),
            friendships: Vec::new(),
            friend_requests: Vec::new(),
            user_blocks: Vec::new(),
            next_user_id: 0,
        };
        proof {
            assert(r@.users =~= Seq::<UserView>::empty());
            assert(r@.friendships =~= Seq::<PairView>::empty());
            assert(r@.requests =~= Seq::<PairView>::empty());
            assert(r@.blocks =~= Seq::<PairView>::empty());
        }
        r
    }

    fn user_exists(&self, user_id: UserId) -> (r: bool)
    {
        let n: usize = self.users.len();
        let mut i: usize = 0;
        while i < n
            invariant
                n == self.users@.len(),
                0 <= i <= n,
                forall|j: int| 0 <= j < i ==> (#[trigger] self@.users[j].id) != user_id@,
            decreases n - i,
        {
            if string_eq(&self.users[i].id, &user_id) {
                assert(self@.users[i as int].id == user_id@);
                return true;
            }
            i += 1;
        }
        false
    }

    fn users_insert(&mut self, user: UserRegistration) -> (r: UserId)
    {
        let new_user_id = u64_to_dec_string(self.next_user_id);
        self.next_user_id = self.next_user_id + 1;
        let record = UserPartial {
            id: new_user_id.clone(),
            language: user.language,
            display_name_lower: lowercase(user.display_name.as_str()),
            display_name: user.display_name,
            account_name_lower: Some(lowercase(user.account_name.as_str())),
            account_name: Some(user.account_name),
            email: Some(user.email),
        };
        self.users.push(record);
        proof {
            assert(self@.users =~= old(self)@.users.push(
                UserView {
                    id: dec_str(old(self)@.next_id),
                    display_name_lower: lower_of(user.display_name@),
                    display_name: user.display_name@,
                    account_name_lower: Some(lower_of(user.account_name@)),
                    account_name: Some(user.account_name@),
                    email: Some(user.email@),
                    language: user.language,
                },
            ));
        }
        new_user_id
    }

    fn users_get(&self, user_id: UserId) -> (r: Option<UserPartial>)
    {
        match find_user(&self.users, &user_id) {
            Some(u) => Some(u.clone()),
            None => None,
        }
    }

    fn users_get_by_account_name(&self, account_name: &str) -> (r: Option<UserPartial>)
    {
        let n: usize = self.users.len();
        let mut i: usize = 0;
        while i < n
            invariant
                n == self.users@.len(),
                0 <= i <= n,
                forall|j: int|
                    0 <= j < i ==> (#[trigger] self@.users[j].account_name) != Some(account_name@),
            decreases n - i,
        {
            let candidate = &self.users[i];
            match &candidate.account_name {
                Some(an) => {
                    if str_eq(an.as_str(), account_name) {
                        assert(self@.users[i as int].account_name == Some(account_name@));
                        return Some(candidate.clone());
                    }
                },
                None => {},
            }
            i += 1;
        }
        None
    }

    fn account_name_lower_exists(&self, lower: &str) -> (r: bool)
    {
        let n: usize = self.users.len();
        let mut i: usize = 0;
        while i < n
            invariant
                n == self.users@.len(),
                0 <= i <= n,
                forall|j: int|
                    0 <= j < i ==> (#[trigger] self@.users[j].account_name_lower) != Some(lower@),
            decreases n - i,
        {
            match &self.users[i].account_name_lower {
                Some(al) => {
                    if str_eq(al.as_str(), lower) {
                        assert(self@.users[i as int].account_name_lower == Some(lower@));
                        return true;
                    }
                },
                None => {},
            }
            i += 1;
        }
        false
    }

    fn users_get_by_email(&self, email: &str) -> (r: Option<UserPartial>)
    {
        let n: usize = self.users.len();
        let mut i: usize = 0;
        while i < n
            invariant
                n == self.users@.len(),
                0 <= i <= n,
                forall|j: int| 0 <= j < i ==> (#[trigger] self@.users[j].email) != Some(email@),
            decreases n - i,
        {
            let candidate = &self.users[i];
            match &candidate.email {
                Some(em) => {
                    if str_eq(em.as_str(), email) {
                        assert(self@.users[i as int].email == Some(email@));
                        return Some(candidate.clone());
                    }
                },
                None => {},
            }
            i += 1;
        }
        None
    }

    fn user_blocks_insert(&mut self, user_id: UserId, blocked_id: UserId)
    {
        self.user_blocks.push((user_id, blocked_id));
        proof {
            assert(self@.blocks =~= old(self)@.blocks.push(
                (self.user_blocks@.last().0@, self.user_blocks@.last().1@),
            ));
        }
    }

    fn user_blocks_remove(&mut self, user_id: UserId, blocked_id: UserId)
    {
        retain_not_pair(&mut self.user_blocks, &user_id, &blocked_id);
    }

    fn user_blocks_get_blocks_for_user(&self, user_id: UserId) -> (r: Vec<Friend>)
    {
        relation_entries(&self.users, &self.user_blocks, true, &user_id, FriendStatus::Blocked)
    }

    fn user_is_blocked(&self, user_id: UserId, blocked_id: UserId) -> (r: bool)
    {
        contains_pair(&self.user_blocks, &user_id, &blocked_id)
    }

    fn friend_requests_insert(&mut self, user_id: UserId, friend_id: UserId)
    {
        self.friend_requests.push((user_id, friend_id));
        proof {
            assert(self@.requests =~= old(self)@.requests.push(
                (self.friend_requests@.last().0@, self.friend_requests@.last().1@),
            ));
        }
    }

    fn friend_requests_remove(&mut self, user_id: UserId, friend_id: UserId)
    {
        retain_not_pair(&mut self.friend_requests, &user_id, &friend_id);
    }

    fn user_get_pending_friend_requests_for_user(&self, user_id: UserId) -> (r: Vec<Friend>)
    {
        relation_entries(
            &self.users,
            &self.friend_requests,
            false,
            &user_id,
            FriendStatus::FriendRequestReceived,
        )
    }

    fn user_get_friend_request_invites_sent_for_user(&self, user_id: UserId) -> (r: Vec<
        Friend,
    >)
    {
        relation_entries(
            &self.users,
            &self.friend_requests,
            true,
            &user_id,
            FriendStatus::FriendRequestSent,
        )
    }

    fn friends_add(&mut self, user_id: UserId, friend_id: UserId)
    {
        self.friendships.push((user_id, friend_id));
        proof {
            assert(self@.friendships =~= old(self)@.friendships.push(
                (self.friendships@.last().0@, self.friendships@.last().1@),
            ));
        }
    }

    fn friends_remove(&mut self, user_id: UserId, friend_id: UserId)
    {
        retain_not_pair(&mut self.friendships, &user_id, &friend_id);
    }

    fn friendship_exists(&self, a: &UserId, b: &UserId) -> (r: bool)
    {
        contains_pair(&self.friendships, a, b)
    }

    fn friend_request_exists(&self, a: &UserId, b: &UserId) -> (r: bool)
    {
        contains_pair(&self.friend_requests, a, b)
    }

    fn friends_get(&self, user_id: UserId) -> (r: Vec<Friend>)
    {
        relation_entries(&self.users, &self.friendships, true, &user_id, FriendStatus::Offline)
    }
}

/// Finds the user record carrying an id.
fn find_user<'a>(users: &'a Vec<UserPartial>, user_id: &UserId) -> (r: Option<&'a UserPartial>)
    requires
        unique_user_ids(users@.map_values(|u: UserPartial| u@)),
    ensures
        r is Some <==> has_user(users@.map_values(|u: UserPartial| u@), user_id@),
        r matches Some(u) ==> u@ == user_view_of(users@.map_values(|u: UserPartial| u@), user_id@)
            && u@.id == user_id@,
{
    let ghost usersv = users@.map_values(|u: UserPartial| u@);
    let n: usize = users.len();
    let mut i: usize = 0;
    while i < n
        invariant
            n == users@.len(),
            usersv == users@.map_values(|u: UserPartial| u@),
            unique_user_ids(usersv),
            0 <= i <= n,
            forall|j: int| 0 <= j < i ==> (#[trigger] usersv[j].id) != user_id@,
        decreases n - i,
    {
        if string_eq(&users[i].id, user_id) {
            proof {
                lemma_user_at(usersv, i as int);
            }
            return Some(&users[i]);
        }
        i += 1;
    }
    None
}

/// Collects the friends-view entries a relation contributes for a user,
/// matching on the left side when `from_side` is set, else on the right.
fn relation_entries(
    users: &Vec<UserPartial>,
    rel: &Vec<(UserId, UserId)>,
    from_side: bool,
    u: &UserId,
    st: FriendStatus,
) -> (r: Vec<Friend>)
    requires
        unique_user_ids(users@.map_values(|x: UserPartial| x@)),
    ensures
        from_side ==> r.deep_view() == entries_from(
            users@.map_values(|x: UserPartial| x@),
            pairs_view(rel@),
            u@,
            st,
        ),
        !from_side ==> r.deep_view() == entries_to(
            users@.map_values(|x: UserPartial| x@),
            pairs_view(rel@),
            u@,
            st,
        ),
{
    let ghost usersv = users@.map_values(|x: UserPartial| x@);
    let n: usize = rel.len();
    let mut r: Vec<Friend> = Vec::new();
    let mut i: usize = 0;
    while i < n
        invariant
            n == rel@.len(),
            usersv == users@.map_values(|x: UserPartial| x@),
            unique_user_ids(usersv),
            0 <= i <= n,
            from_side ==> r.deep_view() == entries_from(
                usersv,
                pairs_view(rel@.subrange(0, i as int)),
                u@,
                st,
            ),
            !from_side ==> r.deep_view() == entries_to(
                usersv,
                pairs_view(rel@.subrange(0, i as int)),
                u@,
                st,
            ),
        decreases n - i,
    {
        let pair = &rel[i];
        let matches_side = if from_side {
            string_eq(&pair.0, u)
        } else {
            string_eq(&pair.1, u)
        };
        let ghost prev = r.deep_view();
        if matches_side {
            let partner = if from_side {
                &pair.1
            } else {
                &pair.0
            };
            match find_user(users, partner) {
                Some(record) => {
                    r.push(
                        Friend {
                            id: partner.clone(),
                            display_name: record.display_name.clone(),
                            status: st,
                        },
                    );
                    proof {
                        assert(r.deep_view() =~= prev.push(
                            FriendView {
                                id: partner@,
                                display_name: user_view_of(usersv, partner@).display_name,
                                status: st,
                            },
                        ));
                    }
                },
                None => {},
            }
        }
        proof {
            let sub1 = pairs_view(rel@.subrange(0, i + 1));
            assert(sub1.drop_last() =~= pairs_view(rel@.subrange(0, i as int)));
            assert(sub1.last() == (rel@[i as int].0@, rel@[i as int].1@));
        }
        i += 1;
    }
    proof {
        assert(rel@.subrange(0, rel@.len() as int) == rel@);
    }
    r
}

/// Keeps every pair of the vector except the given one.
fn retain_not_pair(v: &mut Vec<(UserId, UserId)>, a: &UserId, b: &UserId)
    ensures
        pairs_view(final(v)@) == remove_pair(pairs_view(old(v)@), a@, b@),
{
    let n: usize = v.len();
    let mut kept: Vec<(UserId, UserId)> = Vec::new();
    let mut i: usize = 0;
    while i < n
        invariant
            n == v@.len(),
            v@ == old(v)@,
            0 <= i <= n,
            pairs_view(kept@) == remove_pair(pairs_view(v@.subrange(0, i as int)), a@, b@),
        decreases n - i,
    {
        let keep = !(string_eq(&v[i].0, a) && string_eq(&v[i].1, b));
        let ghost prev = pairs_view(kept@);
        if keep {
            let first = v[i].0.clone();
            let second = v[i].1.clone();
            kept.push((first, second));
            proof {
                assert(pairs_view(kept@) =~= prev.push((v@[i as int].0@, v@[i as int].1@)));
            }
        }
        proof {
            let pred = |p: PairView| p != (a@, b@);
            let sub1 = pairs_view(v@.subrange(0, i + 1));
            assert(sub1.drop_last() =~= pairs_view(v@.subrange(0, i as int)));
            assert(sub1.last() == (v@[i as int].0@, v@[i as int].1@));
            reveal_with_fuel(Seq::filter, 2);
            assert(pairs_view(kept@) == sub1.filter(pred));
        }
        i += 1;
    }
    proof {
        assert(v@.subrange(0, v@.len() as int) == v@);
    }
    *v = kept;
}

/// Looks for an ordered pair in a pair vector.
fn contains_pair(v: &Vec<(UserId, UserId)>, a: &UserId, b: &UserId) -> (r: bool)
    ensures
        r == has_pair(pairs_view(v@), a@, b@),
{
    let n: usize = v.len();
    let mut i: usize = 0;
    while i < n
        invariant
            n == v@.len(),
            0 <= i <= n,
            forall|j: int| 0 <= j < i ==> (#[trigger] pairs_view(v@)[j]) != (a@, b@),
        decreases n - i,
    {
        if string_eq(&v[i].0, a) && string_eq(&v[i].1, b) {
            assert(pairs_view(v@)[i as int] == (a@, b@));
            return true;
        }
        i += 1;
    }
    false
}

} // verus!
