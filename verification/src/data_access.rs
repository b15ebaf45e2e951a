//! A high-level interface over the store: composite operations that keep
//! related tables in step (removing a friendship also removes the matching
//! request; blocking tears both down in both directions).

use vstd::prelude::*;

use crate::protocol::{Friend, FriendStatus, FriendView, UserId, UserPartial, UserRegistration, UserView};
use crate::ids::dec_str;
use crate::store::{
    account_name_lower_taken, account_name_taken, email_taken, entries_from, entries_to, has_pair,
    has_user, remove_pair, store_wf, unique_user_ids, user_view_of, Database, StoreView,
};
use crate::text::lower_of;

verus! {

/// All entries of a user's combined relationship view, before presence is
/// applied: friends, then incoming requests, then outgoing requests, then
/// blocked users.
pub open spec fn combined_entries(s: StoreView, u: Seq<char>) -> Seq<FriendView> {
    entries_from(s.users, s.friendships, u, FriendStatus::Offline) + entries_to(
        s.users,
        s.requests,
        u,
        FriendStatus::FriendRequestReceived,
    ) + entries_from(s.users, s.requests, u, FriendStatus::FriendRequestSent) + entries_from(
        s.users,
        s.blocks,
        u,
        FriendStatus::Blocked,
    )
}

/// A high-level handle on the database.
pub struct DataAccess<T: Database> {
    database: T,
}

impl<T: Database> View for DataAccess<T> {
    type V = StoreView;

    closed spec fn view(&self) -> StoreView {
        self.database@
    }
}

impl<T: Database> DataAccess<T> {
    /// Wraps a database.
    pub fn new(database: T) -> (r: Self)
        ensures
            r@ == database@,
    {
        DataAccess { database }
    }

    /// Whether a user with this id is registered.
    pub fn user_exists(&self, user_id: UserId) -> (r: bool)
        ensures
            r == has_user(self@.users, user_id@),
    {
        self.database.user_exists(user_id)
    }

    /// Inserts a new user; see [`InMemoryDatabase::users_insert`].
    pub fn users_insert(&mut self, user: UserRegistration) -> (r: UserId)
        requires
            store_wf(old(self)@),
            old(self)@.next_id < u64::MAX,
        ensures
            r@ == dec_str(old(self)@.next_id),
            final(self)@.users == old(self)@.users.push(
                UserView {
                    id: dec_str(old(self)@.next_id),
                    display_name_lower: lower_of(user.display_name@),
                    display_name: user.display_name@,
                    account_name_lower: Some(lower_of(user.account_name@)),
                    account_name: Some(user.account_name@),
                    email: Some(user.email@),
                    language: user.language,
                },
            ),
            final(self)@.friendships == old(self)@.friendships,
            final(self)@.requests == old(self)@.requests,
            final(self)@.blocks == old(self)@.blocks,
            final(self)@.next_id == old(self)@.next_id + 1,
            store_wf(final(self)@),
    {
        self.database.users_insert(user)
    }

    /// The senders of requests to `user_id`.
    pub fn user_get_pending_friend_requests_for_user(&self, user_id: UserId) -> (r: Vec<Friend>)
        requires
            unique_user_ids(self@.users),
        ensures
            r.deep_view() == entries_to(
                self@.users,
                self@.requests,
                user_id@,
                FriendStatus::FriendRequestReceived,
            ),
    {
        self.database.user_get_pending_friend_requests_for_user(user_id)
    }

    /// A user's combined relationship view: friends (offline by default),
    /// incoming and outgoing requests, and blocked users.
    pub fn friends_get(&self, user_id: UserId) -> (r: Vec<Friend>)
        requires
            unique_user_ids(self@.users),
        ensures
            r.deep_view() == combined_entries(self@, user_id@),
    {
        let mut r = self.database.friends_get(user_id.clone());
        let mut pending = self.database.user_get_pending_friend_requests_for_user(user_id.clone());
        let mut invites = self.database.user_get_friend_request_invites_sent_for_user(
            user_id.clone(),
        );
        let mut blocks = self.database.user_blocks_get_blocks_for_user(user_id);
        let ghost parts = (r.deep_view(), pending.deep_view(), invites.deep_view(),
        blocks.deep_view());
        r.append(&mut pending);
        r.append(&mut invites);
        r.append(&mut blocks);
        proof {
            assert(r.deep_view() =~= parts.0 + parts.1 + parts.2 + parts.3);
        }
        r
    }

    /// Records one direction of a friendship.
    pub fn friends_add(&mut self, user_id: UserId, friend_id: UserId)
        ensures
            final(self)@.friendships == old(self)@.friendships.push((user_id@, friend_id@)),
            final(self)@.users == old(self)@.users,
            final(self)@.requests == old(self)@.requests,
            final(self)@.blocks == old(self)@.blocks,
            final(self)@.next_id == old(self)@.next_id,
    {
        self.database.friends_add(user_id, friend_id);
    }

    /// Removes one direction of a friendship together with the friend
    /// request of the same direction.
    pub fn friends_remove(&mut self, user_id: UserId, friend_id: UserId)
        ensures
            final(self)@.friendships == remove_pair(old(self)@.friendships, user_id@, friend_id@),
            final(self)@.requests == remove_pair(old(self)@.requests, user_id@, friend_id@),
            final(self)@.users == old(self)@.users,
            final(self)@.blocks == old(self)@.blocks,
            final(self)@.next_id == old(self)@.next_id,
    {
        self.database.friends_remove(user_id.clone(), friend_id.clone());
        self.friend_requests_remove(user_id, friend_id);
    }

    /// Records a friend request.
    pub fn friend_requests_insert(&mut self, user_id: UserId, friend_id: UserId)
        ensures
            final(self)@.requests == old(self)@.requests.push((user_id@, friend_id@)),
            final(self)@.users == old(self)@.users,
            final(self)@.friendships == old(self)@.friendships,
            final(self)@.blocks == old(self)@.blocks,
            final(self)@.next_id == old(self)@.next_id,
    {
        self.database.friend_requests_insert(user_id, friend_id);
    }

    /// Removes a friend request.
    pub fn friend_requests_remove(&mut self, user_id: UserId, friend_id: UserId)
        ensures
            final(self)@.requests == remove_pair(old(self)@.requests, user_id@, friend_id@),
            final(self)@.users == old(self)@.users,
            final(self)@.friendships == old(self)@.friendships,
            final(self)@.blocks == old(self)@.blocks,
            final(self)@.next_id == old(self)@.next_id,
    {
        self.database.friend_requests_remove(user_id, friend_id);
    }

    /// Looks a user up by id.
    pub fn users_get(&self, user_id: UserId) -> (r: Option<UserPartial>)
        requires
            unique_user_ids(self@.users),
        ensures
            r is Some <==> has_user(self@.users, user_id@),
            r matches Some(u) ==> u@ == user_view_of(self@.users, user_id@) && u@.id == user_id@,
    {
        self.database.users_get(user_id)
    }

    /// Looks a user up by exact account name.
    pub fn users_get_by_account_name(&self, account_name: &str) -> (r: Option<UserPartial>)
        ensures
            r is Some <==> account_name_taken(self@.users, account_name@),
            r matches Some(u) ==> exists|i: int|
                0 <= i < self@.users.len() && (#[trigger] self@.users[i]) == u@
                    && u@.account_name == Some(account_name@),
    {
        let r = self.database.users_get_by_account_name(account_name);
        proof {
            match &r {
                Some(u) => {
                    let i = choose|i: int|
                        0 <= i < self.database@.users.len() && (
                        #[trigger] self.database@.users[i]) == u@ && u@.account_name == Some(
                            account_name@,
                        );
                    assert(self@.users[i] == u@);
                },
                None => {},
            }
        }
        r
    }

    /// Whether some user already holds this lowercased account name.
    pub fn account_name_lower_exists(&self, lower: &str) -> (r: bool)
        ensures
            r == account_name_lower_taken(self@.users, lower@),
    {
        self.database.account_name_lower_exists(lower)
    }

    /// Looks a user up by exact email.
    pub fn users_get_by_email(&self, email: &str) -> (r: Option<UserPartial>)
        ensures
            r is Some <==> email_taken(self@.users, email@),
            r matches Some(u) ==> exists|i: int|
                0 <= i < self@.users.len() && (#[trigger] self@.users[i]) == u@ && u@.email == Some(
                    email@,
                ),
    {
        let r = self.database.users_get_by_email(email);
        proof {
            match &r {
                Some(u) => {
                    let i = choose|i: int|
                        0 <= i < self.database@.users.len() && (
                        #[trigger] self.database@.users[i]) == u@ && u@.email == Some(email@);
                    assert(self@.users[i] == u@);
                },
                None => {},
            }
        }
        r
    }

    /// Records a block and tears down the friendship and the requests
    /// between the two users, in both directions.
    pub fn user_blocks_insert(&mut self, user_id: UserId, blocked_id: UserId)
        ensures
            final(self)@.blocks == old(self)@.blocks.push((user_id@, blocked_id@)),
            final(self)@.friendships == remove_pair(
                remove_pair(old(self)@.friendships, user_id@, blocked_id@),
                blocked_id@,
                user_id@,
            ),
            final(self)@.requests == remove_pair(
                remove_pair(old(self)@.requests, user_id@, blocked_id@),
                blocked_id@,
                user_id@,
            ),
            final(self)@.users == old(self)@.users,
            final(self)@.next_id == old(self)@.next_id,
    {
        self.database.user_blocks_insert(user_id.clone(), blocked_id.clone());
        self.friends_remove(user_id.clone(), blocked_id.clone());
        self.friends_remove(blocked_id, user_id);
    }

    /// Removes a block.
    pub fn user_blocks_remove(&mut self, user_id: UserId, blocked_id: UserId)
        ensures
            final(self)@.blocks == remove_pair(old(self)@.blocks, user_id@, blocked_id@),
            final(self)@.users == old(self)@.users,
            final(self)@.friendships == old(self)@.friendships,
            final(self)@.requests == old(self)@.requests,
            final(self)@.next_id == old(self)@.next_id,
    {
        self.database.user_blocks_remove(user_id, blocked_id);
    }

    /// Whether the single direction `(a, b)` of a friendship is recorded.
    pub fn friendship_exists(&self, a: &UserId, b: &UserId) -> (r: bool)
        ensures
            r == has_pair(self@.friendships, a@, b@),
    {
        self.database.friendship_exists(a, b)
    }

    /// Whether a friend request from `a` to `b` is recorded.
    pub fn friend_request_exists(&self, a: &UserId, b: &UserId) -> (r: bool)
        ensures
            r == has_pair(self@.requests, a@, b@),
    {
        self.database.friend_request_exists(a, b)
    }

    /// Whether `user_id` has blocked `blocked_id`.
    pub fn user_is_blocked(&self, user_id: UserId, blocked_id: UserId) -> (r: bool)
        ensures
            r == has_pair(self@.blocks, user_id@, blocked_id@),
    {
        self.database.user_is_blocked(user_id, blocked_id)
    }
}

} // verus!
