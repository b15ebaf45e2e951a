//! The wire-level value types that clients and the server exchange, together
//! with their mathematical views.

use vstd::prelude::*;
use vstd::string::StrSliceExecFns;

verus! {

/// Identifier of a registered user, assigned by the store at registration.
pub type UserId = String;

/// Identifier of a chat room.
pub type RoomId = String;

/// Longest permitted account name, in bytes.
pub const ACCOUNT_NAME_MAX_LENGTH: usize = 20;

/// Shortest permitted account name, in bytes.
pub const ACCOUNT_NAME_MIN_LENGTH: usize = 3;

/// Longest permitted display name, in bytes.
pub const DISPLAY_NAME_MAX_LENGTH: usize = 20;

/// Shortest permitted display name, in bytes.
pub const DISPLAY_NAME_MIN_LENGTH: usize = 3;

/// Shortest permitted password, in bytes.
pub const PASSWORD_MIN_LENGTH: usize = 8;

/// The languages the server can answer in.
#[derive(Clone, Copy, Debug, PartialEq, Eq, Structural)]
pub enum Language {
    English,
    Spanish,
    French,
}

/// A user as other parts of the system see it: sensitive information such as
/// the password is never part of this record.
pub struct UserPartial {
    pub id: UserId,
    pub display_name_lower: String,
    pub display_name: String,
    pub account_name_lower: Option<String>,
    pub account_name: Option<String>,
    pub email: Option<String>,
    pub language: Language,
}

/// Mathematical view of a [`UserPartial`].
pub struct UserView {
    pub id: Seq<char>,
    pub display_name_lower: Seq<char>,
    pub display_name: Seq<char>,
    pub account_name_lower: Option<Seq<char>>,
    pub account_name: Option<Seq<char>>,
    pub email: Option<Seq<char>>,
    pub language: Language,
}

impl View for UserPartial {
    type V = UserView;

    open spec fn view(&self) -> UserView {
        UserView {
            id: self.id@,
            display_name_lower: self.display_name_lower@,
            display_name: self.display_name@,
            account_name_lower: match self.account_name_lower {
                Some(s) => Some(s@),
                None => None,
            },
            account_name: match self.account_name {
                Some(s) => Some(s@),
                None => None,
            },
            email: match self.email {
                Some(s) => Some(s@),
                None => None,
            },
            language: self.language,
        }
    }
}

impl Clone for UserPartial {
    fn clone(&self) -> (r: Self)
        ensures
            r == *self,
    {
        UserPartial {
            id: self.id.clone(),
            display_name_lower: self.display_name_lower.clone(),
            display_name: self.display_name.clone(),
            account_name_lower: self.account_name_lower.clone(),
            account_name: self.account_name.clone(),
            email: self.email.clone(),
            language: self.language,
        }
    }
}

/// A user may log in with either their account name or their email address.
pub enum LoginUserIdentity {
    AccountName(String),
    Email(String),
}

/// Request to log a user in.
pub struct UserLogin {
    pub language: Language,
    pub identity: LoginUserIdentity,
    pub password: String,
}

/// Request to register a new user.
pub struct UserRegistration {
    pub language: Language,
    pub account_name: String,
    pub email: String,
    pub display_name: String,
    pub password: String,
}

/// An error answer carried back to the requesting client.
pub struct RequestError(pub String);

/// The status a user can have in another user's friends view.
#[derive(Clone, Copy, Debug, PartialEq, Eq, Structural)]
pub enum FriendStatus {
    Online,
    Offline,
    FriendRequestSent,
    FriendRequestReceived,
    Blocked,
}

impl FriendStatus {
    /// A fixed human-readable label for the status.
    pub fn label(&self) -> (r: &'static str)
        ensures
            r@ == status_label(*self),
    {
        match self {
            FriendStatus::Online => "Online",
            FriendStatus::Offline => "Offline",
            FriendStatus::FriendRequestSent => "Friend Request Sent",
            FriendStatus::FriendRequestReceived => "Friend Request Received",
            FriendStatus::Blocked => "Blocked",
        }
    }
}

/// The label that [`FriendStatus::label`] returns for each status.
pub open spec fn status_label(s: FriendStatus) -> Seq<char> {
    match s {
        FriendStatus::Online => "Online"@,
        FriendStatus::Offline => "Offline"@,
        FriendStatus::FriendRequestSent => "Friend Request Sent"@,
        FriendStatus::FriendRequestReceived => "Friend Request Received"@,
        FriendStatus::Blocked => "Blocked"@,
    }
}

/// One entry of a friends view: another user together with the status they
/// have relative to the viewer.
#[derive(Debug)]
pub struct Friend {
    pub id: String,
    pub display_name: String,
    pub status: FriendStatus,
}

/// Mathematical view of a [`Friend`].
pub struct FriendView {
    pub id: Seq<char>,
    pub display_name: Seq<char>,
    pub status: FriendStatus,
}

impl View for Friend {
    type V = FriendView;

    open spec fn view(&self) -> FriendView {
        FriendView { id: self.id@, display_name: self.display_name@, status: self.status }
    }
}

impl DeepView for Friend {
    type V = FriendView;

    open spec fn deep_view(&self) -> FriendView {
        self@
    }
}

impl Clone for Friend {
    fn clone(&self) -> (r: Self)
        ensures
            r == *self,
    {
        Friend {
            id: self.id.clone(),
            display_name: self.display_name.clone(),
            status: self.status,
        }
    }
}

/// Request to send a friend request to another user.
pub struct FriendRequest {
    pub language: Language,
    pub friend_id: UserId,
}

/// Request to accept a pending friend request.
pub struct AcceptFriendRequest {
    pub language: Language,
    pub friend_id: UserId,
}

/// Request to reject a pending friend request.
pub struct RejectFriendRequest {
    pub language: Language,
    pub friend_id: UserId,
}

/// Notification that a friend request was accepted.
pub struct FriendRequestAccepted {
    pub friend: Friend,
}

/// Request to remove a friend.
pub struct RemoveFriendRequest {
    pub language: Language,
    pub friend_id: UserId,
}

/// Request to block a user.
pub struct BlockUserRequest {
    pub language: Language,
    pub user_id: UserId,
}

/// Request to unblock a user.
pub struct UnblockUserRequest {
    pub language: Language,
    pub user_id: UserId,
}

/// A chat channel is either a named room or a private message to one user.
#[derive(Debug)]
pub enum ChatChannel {
    Room(RoomId),
    PrivateMessage(UserId),
}

/// Mathematical view of a [`ChatChannel`].
pub enum ChatChannelView {
    Room(Seq<char>),
    PrivateMessage(Seq<char>),
}

impl View for ChatChannel {
    type V = ChatChannelView;

    open spec fn view(&self) -> ChatChannelView {
        match self {
            ChatChannel::Room(r) => ChatChannelView::Room(r@),
            ChatChannel::PrivateMessage(u) => ChatChannelView::PrivateMessage(u@),
        }
    }
}

impl Clone for ChatChannel {
    fn clone(&self) -> (r: Self)
        ensures
            r == *self,
    {
        match self {
            ChatChannel::Room(room) => ChatChannel::Room(room.clone()),
            ChatChannel::PrivateMessage(u) => ChatChannel::PrivateMessage(u.clone()),
        }
    }
}

/// Request to send a chat message into a channel.
pub struct SendChatMessage {
    pub language: Language,
    pub channel: ChatChannel,
    pub message: String,
}

/// A chat message as it is delivered to recipients.
#[derive(Debug)]
pub struct ChatMessage {
    pub display_name: String,
    pub channel: ChatChannel,
    pub message: String,
    pub time: u32,
}

/// Mathematical view of a [`ChatMessage`].
pub struct ChatMessageView {
    pub display_name: Seq<char>,
    pub channel: ChatChannelView,
    pub message: Seq<char>,
    pub time: u32,
}

impl View for ChatMessage {
    type V = ChatMessageView;

    open spec fn view(&self) -> ChatMessageView {
        ChatMessageView {
            display_name: self.display_name@,
            channel: self.channel@,
            message: self.message@,
            time: self.time,
        }
    }
}

impl Clone for ChatMessage {
    fn clone(&self) -> (r: Self)
        ensures
            r == *self,
    {
        ChatMessage {
            display_name: self.display_name.clone(),
            channel: self.channel.clone(),
            message: self.message.clone(),
            time: self.time,
        }
    }
}

/// How a login identity entered as a single string is to be read.
#[derive(Clone, Copy, Debug, PartialEq, Eq, Structural)]
pub enum UserLoginType {
    AccountName,
    Email,
}

/// Classifies a login identity: anything containing `'@'` is an email.
pub fn is_username_or_email(username: &str) -> (r: UserLoginType)
    ensures
        r == (if username@.contains('@') {
            UserLoginType::Email
        } else {
            UserLoginType::AccountName
        }),
{
    let n: usize = username.unicode_len();
    let mut i: usize = 0;
    while i < n
        invariant
            n == username@.len(),
            0 <= i <= n,
            forall|j: int| 0 <= j < i ==> username@[j] != '@',
        decreases n - i,
    {
        if username.get_char(i) == '@' {
            assert(username@.contains('@'));
            return UserLoginType::Email;
        }
        i += 1;
    }
    assert(!username@.contains('@'));
    UserLoginType::AccountName
}

/// An event a client observes after it has been decoded from the wire.
pub enum WarhorseEvent {
    Hello,
    LoggedIn,
    Error(String),
    FriendsList(Vec<Friend>),
    FriendRequestReceived(Friend),
    FriendRequestAccepted(Friend),
    ChatMessage(ChatMessage),
}

/// Splits a flat friends list into groups that share a status.  Statuses
/// appear in order of their first occurrence; each group keeps the input
/// order of its members.
pub fn categorize_friends(friends: Vec<Friend>) -> (r: Vec<(FriendStatus, Vec<Friend>)>)
    ensures
        r@.map_values(|g: (FriendStatus, Vec<Friend>)| g.0) == statuses_in_order(friends@),
        forall|k: int|
            0 <= k < r@.len() ==> r@[k].1@ == friends@.filter(
                |f: Friend| f.status == r@[k].0,
            ),
{
    let mut statuses: Vec<FriendStatus> = Vec::new();
    let mut i: usize = 0;
    while i < friends.len()
        invariant
            0 <= i <= friends@.len(),
            statuses@ == statuses_in_order(friends@.subrange(0, i as int)),
        decreases friends@.len() - i,
    {
        proof {
            assert(friends@.subrange(0, i + 1).drop_last() == friends@.subrange(0, i as int));
        }
        let st = friends[i].status;
        if !contains_status(&statuses, st) {
            statuses.push(st);
        }
        i += 1;
    }
    proof {
        assert(friends@.subrange(0, friends@.len() as int) == friends@);
    }
    let mut r: Vec<(FriendStatus, Vec<Friend>)> = Vec::new();
    let mut k: usize = 0;
    while k < statuses.len()
        invariant
            0 <= k <= statuses@.len(),
            r@.len() == k,
            forall|j: int| 0 <= j < k ==> (#[trigger] r@[j]).0 == statuses@[j],
            forall|j: int|
                0 <= j < k ==> (#[trigger] r@[j]).1@ == friends@.filter(
                    |f: Friend| f.status == r@[j].0,
                ),
        decreases statuses@.len() - k,
    {
        let st = statuses[k];
        let group = friends_with_status(&friends, st);
        r.push((st, group));
        k += 1;
    }
    proof {
        assert(r@.map_values(|g: (FriendStatus, Vec<Friend>)| g.0) =~= statuses@);
    }
    r
}

/// The distinct statuses of a friends list, in order of first occurrence.
pub open spec fn statuses_in_order(fs: Seq<Friend>) -> Seq<FriendStatus>
    decreases fs.len(),
{
    if fs.len() == 0 {
        Seq::empty()
    } else {
        let prefix = statuses_in_order(fs.drop_last());
        if prefix.contains(fs.last().status) {
            prefix
        } else {
            prefix.push(fs.last().status)
        }
    }
}

/// Whether a status already occurs in a list of statuses.
fn contains_status(statuses: &Vec<FriendStatus>, st: FriendStatus) -> (r: bool)
    ensures
        r == statuses@.contains(st),
{
    let mut i: usize = 0;
    while i < statuses.len()
        invariant
            0 <= i <= statuses@.len(),
            forall|j: int| 0 <= j < i ==> statuses@[j] != st,
        decreases statuses@.len() - i,
    {
        if statuses[i] == st {
            assert(statuses@.contains(st));
            return true;
        }
        i += 1;
    }
    false
}

/// The members of a friends list that carry a given status, in input order.
fn friends_with_status(friends: &Vec<Friend>, st: FriendStatus) -> (r: Vec<Friend>)
    ensures
        r@ == friends@.filter(|f: Friend| f.status == st),
{
    let mut r: Vec<Friend> = Vec::new();
    let mut i: usize = 0;
    while i < friends.len()
        invariant
            0 <= i <= friends@.len(),
            r@ == friends@.subrange(0, i as int).filter(|f: Friend| f.status == st),
        decreases friends@.len() - i,
    {
        if friends[i].status == st {
            r.push(friends[i].clone());
        }
        proof {
            let pred = |f: Friend| f.status == st;
            let sub1 = friends@.subrange(0, i + 1);
            assert(sub1.drop_last() == friends@.subrange(0, i as int));
            assert(sub1.last() == friends@[i as int]);
            reveal_with_fuel(Seq::filter, 2);
            assert(r@ == sub1.filter(pred));
        }
        i += 1;
    }
    proof {
        assert(friends@.subrange(0, friends@.len() as int) == friends@);
    }
    r
}

} // verus!
