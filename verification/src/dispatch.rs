//! The event dispatcher: binds decoded inbound events to engine commands,
//! resolves each planned user to their session, and produces the ordered
//! list of outbound events.
//!
//! Within one inbound command the outbound events are ordered: direct
//! acceptance notifications first, then request-list refreshes, then
//! friends-list refreshes, then the error, if any.

use vstd::prelude::*;

use crate::i18n;

use crate::protocol::{
    AcceptFriendRequest, BlockUserRequest, ChatMessage, ChatMessageView, Friend, FriendRequest,
    FriendRequestAccepted, FriendStatus, FriendView, Language, RejectFriendRequest,
    RemoveFriendRequest, SendChatMessage, UnblockUserRequest, UserLogin, UserRegistration,
};
use crate::server::{
    accept_friend_request_outcome, bind_view, block_user_outcome, chat_outcome,
    friends_list_view, register_outcome, reject_friend_request_outcome, remove_friend_outcome,
    send_friend_request_outcome, server_inv, unblock_user_outcome, DeliveryPlanView, RefreshPlan,
    RefreshPlanView, ServerView, WarhorseServer,
};
use crate::session::{session_bound, session_of_user, user_bound, user_of_session, SessionId};
use crate::store::{entries_to, has_user};

verus! {

/// A decoded inbound event, ready for dispatch.
pub enum InboundEvent {
    Login(UserLogin),
    Register(UserRegistration),
    FriendRequest(FriendRequest),
    AcceptFriendRequest(AcceptFriendRequest),
    RejectFriendRequest(RejectFriendRequest),
    RemoveFriend(RemoveFriendRequest),
    BlockUser(BlockUserRequest),
    UnblockUser(UnblockUserRequest),
    ChatSend(SendChatMessage),
}

/// An outbound event, ready for encoding.
pub enum OutboundEvent {
    Hello(String),
    LoggedIn,
    Error(String),
    FriendsList(Vec<Friend>),
    FriendRequests(Vec<Friend>),
    FriendRequestAccepted(FriendRequestAccepted),
    ChatMessage(ChatMessage),
}

/// Mathematical view of an [`OutboundEvent`].
pub enum OutboundEventView {
    Hello(Seq<char>),
    LoggedIn,
    Error(Seq<char>),
    FriendsList(Seq<FriendView>),
    FriendRequests(Seq<FriendView>),
    FriendRequestAccepted(FriendView),
    ChatMessage(ChatMessageView),
}

impl View for OutboundEvent {
    type V = OutboundEventView;

    open spec fn view(&self) -> OutboundEventView {
        match self {
            OutboundEvent::Hello(s) => OutboundEventView::Hello(s@),
            OutboundEvent::LoggedIn => OutboundEventView::LoggedIn,
            OutboundEvent::Error(s) => OutboundEventView::Error(s@),
            OutboundEvent::FriendsList(v) => OutboundEventView::FriendsList(v.deep_view()),
            OutboundEvent::FriendRequests(v) => OutboundEventView::FriendRequests(v.deep_view()),
            OutboundEvent::FriendRequestAccepted(a) => OutboundEventView::FriendRequestAccepted(
                a.friend@,
            ),
            OutboundEvent::ChatMessage(m) => OutboundEventView::ChatMessage(m@),
        }
    }
}

/// An outbound event addressed to one session.
pub struct OutboundMessage {
    pub session_id: SessionId,
    pub event: OutboundEvent,
}

/// Mathematical view of an [`OutboundMessage`].
pub struct OutboundMessageView {
    pub session_id: Seq<char>,
    pub event: OutboundEventView,
}

impl View for OutboundMessage {
    type V = OutboundMessageView;

    open spec fn view(&self) -> OutboundMessageView {
        OutboundMessageView { session_id: self.session_id@, event: self.event@ }
    }
}

impl DeepView for OutboundMessage {
    type V = OutboundMessageView;

    open spec fn deep_view(&self) -> OutboundMessageView {
        self@
    }
}

/// The incoming-request view a user is sent on a `FriendRequests` refresh.
pub open spec fn pending_view(s: ServerView, u: Seq<char>) -> Seq<FriendView> {
    entries_to(s.store.users, s.store.requests, u, FriendStatus::FriendRequestReceived)
}

/// The acceptance notifications of a plan, resolved to sessions; a user
/// without a session is dropped.
pub open spec fn accepted_events(s: ServerView, accepted: Option<(Seq<char>, FriendView)>) -> Seq<
    OutboundMessageView,
> {
    match accepted {
        None => Seq::empty(),
        Some((u, f)) => if user_bound(s.sessions, u) {
            seq![
                OutboundMessageView {
                    session_id: session_of_user(s.sessions, u),
                    event: OutboundEventView::FriendRequestAccepted(f),
                },
            ]
        } else {
            Seq::empty()
        },
    }
}

/// The `FriendRequests` refreshes of a plan, resolved to sessions.
pub open spec fn request_refresh_events(s: ServerView, users: Seq<Seq<char>>) -> Seq<
    OutboundMessageView,
>
    decreases users.len(),
{
    if users.len() == 0 {
        Seq::empty()
    } else {
        let rest = request_refresh_events(s, users.drop_last());
        let u = users.last();
        if user_bound(s.sessions, u) {
            rest.push(
                OutboundMessageView {
                    session_id: session_of_user(s.sessions, u),
                    event: OutboundEventView::FriendRequests(pending_view(s, u)),
                },
            )
        } else {
            rest
        }
    }
}

/// The `Friends` refreshes of a plan, resolved to sessions.
pub open spec fn friends_refresh_events(s: ServerView, users: Seq<Seq<char>>) -> Seq<
    OutboundMessageView,
>
    decreases users.len(),
{
    if users.len() == 0 {
        Seq::empty()
    } else {
        let rest = friends_refresh_events(s, users.drop_last());
        let u = users.last();
        if user_bound(s.sessions, u) {
            rest.push(
                OutboundMessageView {
                    session_id: session_of_user(s.sessions, u),
                    event: OutboundEventView::FriendsList(friends_list_view(s, u)),
                },
            )
        } else {
            rest
        }
    }
}

/// All events of a refresh plan, in emission order.
pub open spec fn events_of_plan(s: ServerView, p: RefreshPlanView) -> Seq<OutboundMessageView> {
    accepted_events(s, p.accepted) + request_refresh_events(s, p.friend_requests)
        + friends_refresh_events(s, p.friends)
}

/// The events a command's result produces: the plan's events on success,
/// one error event to the origin on failure.
pub open spec fn command_events(
    s: ServerView,
    sid: Seq<char>,
    o: Result<RefreshPlanView, Seq<char>>,
) -> Seq<OutboundMessageView> {
    match o {
        Ok(p) => events_of_plan(s, p),
        Err(t) => seq![
            OutboundMessageView { session_id: sid, event: OutboundEventView::Error(t) },
        ],
    }
}

/// The events sent to a freshly authenticated session: its request list,
/// its friends list, then the login acknowledgement.
pub open spec fn post_login_events(s: ServerView, u: Seq<char>, sid: Seq<char>) -> Seq<
    OutboundMessageView,
> {
    seq![
        OutboundMessageView {
            session_id: sid,
            event: OutboundEventView::FriendRequests(pending_view(s, u)),
        },
        OutboundMessageView {
            session_id: sid,
            event: OutboundEventView::FriendsList(friends_list_view(s, u)),
        },
        OutboundMessageView { session_id: sid, event: OutboundEventView::LoggedIn },
    ]
}

/// The fan-out of a chat delivery: the composed message to each recipient
/// session, in order.
pub open spec fn chat_events(dp: DeliveryPlanView) -> Seq<OutboundMessageView> {
    Seq::new(
        dp.recipients.len(),
        |i: int|
            OutboundMessageView {
                session_id: dp.recipients[i],
                event: OutboundEventView::ChatMessage(dp.message),
            },
    )
}

impl<T: crate::store::Database> WarhorseServer<T> {
    /// Greets a newly connected session with the localized welcome text
    /// (English before any login states a language).
    pub fn handle_connection(&self, session_id: &SessionId) -> (r: Vec<OutboundMessage>)
        ensures
            r.deep_view() == seq![
                OutboundMessageView {
                    session_id: session_id@,
                    event: OutboundEventView::Hello(i18n::hello_message_text(Language::English)),
                },
            ],
    {
        let mut r: Vec<OutboundMessage> = Vec::new();
        r.push(
            OutboundMessage {
                session_id: session_id.clone(),
                event: OutboundEvent::Hello(i18n::hello_message(Language::English)),
            },
        );
        proof {
            assert(r.deep_view().len() == 1);
            assert(r.deep_view()[0] == r@[0]@);
            assert(r.deep_view() =~= seq![r@[0]@]);
        }
        r
    }

    /// Turns a refresh plan into addressed events: acceptance notices, then
    /// request refreshes, then friends refreshes.  Users without a session
    /// are dropped.
    pub fn plan_to_events(&self, plan: &RefreshPlan) -> (r: Vec<OutboundMessage>)
        requires
            server_inv(self@),
        ensures
            r.deep_view() == events_of_plan(self@, plan@),
    {
        let mut r: Vec<OutboundMessage> = Vec::new();
        match &plan.accepted {
            Some(notice) => {
                match self.session_of_user_exec(&notice.user) {
                    Some(sid) => {
                        r.push(
                            OutboundMessage {
                                session_id: sid,
                                event: OutboundEvent::FriendRequestAccepted(
                                    FriendRequestAccepted { friend: notice.friend.clone() },
                                ),
                            },
                        );
                        proof {
                            assert(r.deep_view().len() == 1);
                            assert(r.deep_view()[0] == r@[0]@);
                            assert(r.deep_view() =~= accepted_events(self@, plan@.accepted));
                        }
                    },
                    None => {
                        proof {
                            assert(r.deep_view() =~= accepted_events(self@, plan@.accepted));
                        }
                    },
                }
            },
            None => {
                proof {
                    assert(r.deep_view() =~= accepted_events(self@, plan@.accepted));
                }
            },
        }
        let ghost phase1 = r.deep_view();
        let n1: usize = plan.friend_requests.len();
        let mut i: usize = 0;
        while i < n1
            invariant
                server_inv(self@),
                n1 == plan.friend_requests@.len(),
                0 <= i <= n1,
                phase1 == accepted_events(self@, plan@.accepted),
                r.deep_view() =~= phase1 + request_refresh_events(
                    self@,
                    plan.friend_requests.deep_view().subrange(0, i as int),
                ),
            decreases n1 - i,
        {
            let u = &plan.friend_requests[i];
            let ghost prev = r.deep_view();
            let ghost uv = plan.friend_requests.deep_view()[i as int];
            proof {
                assert(uv == u@);
            }
            match self.session_of_user_exec(u) {
                Some(sid) => {
                    let pending = self.get_pending_friend_requests(u.clone());
                    r.push(
                        OutboundMessage {
                            session_id: sid,
                            event: OutboundEvent::FriendRequests(pending),
                        },
                    );
                    proof {
                        assert(r@.len() == prev.len() + 1);
                        assert(r.deep_view()[prev.len() as int] == r@[prev.len() as int]@);
                        assert(r.deep_view() =~= prev.push(
                            OutboundMessageView {
                                session_id: session_of_user(self@.sessions, uv),
                                event: OutboundEventView::FriendRequests(pending_view(self@, uv)),
                            },
                        ));
                    }
                },
                None => {},
            }
            proof {
                let sub1 = plan.friend_requests.deep_view().subrange(0, i + 1);
                assert(sub1.drop_last() =~= plan.friend_requests.deep_view().subrange(
                    0,
                    i as int,
                ));
                assert(sub1.last() == uv);
                assert(r.deep_view() =~= phase1 + request_refresh_events(self@, sub1));
            }
            i += 1;
        }
        proof {
            assert(plan.friend_requests.deep_view().subrange(
                0,
                plan.friend_requests.deep_view().len() as int,
            ) == plan.friend_requests.deep_view());
        }
        let ghost phase2 = r.deep_view();
        let n2: usize = plan.friends.len();
        let mut j: usize = 0;
        while j < n2
            invariant
                server_inv(self@),
                n2 == plan.friends@.len(),
                0 <= j <= n2,
                phase2 == accepted_events(self@, plan@.accepted) + request_refresh_events(
                    self@,
                    plan@.friend_requests,
                ),
                r.deep_view() =~= phase2 + friends_refresh_events(
                    self@,
                    plan.friends.deep_view().subrange(0, j as int),
                ),
            decreases n2 - j,
        {
            let u = &plan.friends[j];
            let ghost prev = r.deep_view();
            let ghost uv = plan.friends.deep_view()[j as int];
            proof {
                assert(uv == u@);
            }
            match self.session_of_user_exec(u) {
                Some(sid) => {
                    let listing = self.get_friends_list(u.clone());
                    r.push(
                        OutboundMessage {
                            session_id: sid,
                            event: OutboundEvent::FriendsList(listing),
                        },
                    );
                    proof {
                        assert(r@.len() == prev.len() + 1);
                        assert(r.deep_view()[prev.len() as int] == r@[prev.len() as int]@);
                        assert(r.deep_view() =~= prev.push(
                            OutboundMessageView {
                                session_id: session_of_user(self@.sessions, uv),
                                event: OutboundEventView::FriendsList(
                                    friends_list_view(self@, uv),
                                ),
                            },
                        ));
                    }
                },
                None => {},
            }
            proof {
                let sub1 = plan.friends.deep_view().subrange(0, j + 1);
                assert(sub1.drop_last() =~= plan.friends.deep_view().subrange(0, j as int));
                assert(sub1.last() == uv);
                assert(r.deep_view() =~= phase2 + friends_refresh_events(self@, sub1));
            }
            j += 1;
        }
        proof {
            assert(plan.friends.deep_view().subrange(0, plan.friends.deep_view().len() as int)
                == plan.friends.deep_view());
            assert(r.deep_view() =~= events_of_plan(self@, plan@));
        }
        r
    }

    /// The session a user is bound to, cloned.
    fn session_of_user_exec(&self, user_id: &crate::protocol::UserId) -> (r: Option<SessionId>)
        requires
            crate::session::registry_wf(self@.sessions),
        ensures
            r is Some <==> user_bound(self@.sessions, user_id@),
            r matches Some(s) ==> s@ == session_of_user(self@.sessions, user_id@),
    {
        match self.session_of(user_id) {
            Some(s) => Some(s.clone()),
            None => None,
        }
    }
}


/// Whether a command's dispatch left the server in the outcome's state and
/// produced exactly the outcome's events.
pub open spec fn dispatched(
    post: ServerView,
    sid: Seq<char>,
    out: Seq<OutboundMessageView>,
    o: crate::server::CommandOutcome,
) -> bool {
    post == o.post && out == command_events(o.post, sid, o.result)
}

/// No events.
fn no_events() -> (r: Vec<OutboundMessage>)
    ensures
        r.deep_view() == Seq::<OutboundMessageView>::empty(),
{
    let r: Vec<OutboundMessage> = Vec::new();
    proof {
        assert(r.deep_view() =~= Seq::<OutboundMessageView>::empty());
    }
    r
}

/// One error event to the originating session.
fn error_event(session_id: &SessionId, e: crate::error::ServerError) -> (r: Vec<OutboundMessage>)
    ensures
        r.deep_view() == seq![
            OutboundMessageView { session_id: session_id@, event: OutboundEventView::Error(e.0@) },
        ],
{
    let ghost msg = e.0@;
    let mut r: Vec<OutboundMessage> = Vec::new();
    r.push(OutboundMessage { session_id: session_id.clone(), event: OutboundEvent::Error(e.0) });
    proof {
        assert(r.deep_view().len() == 1);
        assert(r.deep_view()[0] == r@[0]@);
        assert(r.deep_view() =~= seq![
            OutboundMessageView { session_id: session_id@, event: OutboundEventView::Error(msg) },
        ]);
    }
    r
}

impl<T: crate::store::Database> WarhorseServer<T> {
    /// The events sent to a session right after it authenticates.
    fn post_login(&self, user_id: crate::protocol::UserId, session_id: &SessionId) -> (r: Vec<
        OutboundMessage,
    >)
        requires
            server_inv(self@),
        ensures
            r.deep_view() == post_login_events(self@, user_id@, session_id@),
    {
        let mut r: Vec<OutboundMessage> = Vec::new();
        let pending = self.get_pending_friend_requests(user_id.clone());
        r.push(
            OutboundMessage {
                session_id: session_id.clone(),
                event: OutboundEvent::FriendRequests(pending),
            },
        );
        let listing = self.get_friends_list(user_id);
        r.push(
            OutboundMessage {
                session_id: session_id.clone(),
                event: OutboundEvent::FriendsList(listing),
            },
        );
        r.push(
            OutboundMessage { session_id: session_id.clone(), event: OutboundEvent::LoggedIn },
        );
        proof {
            assert(r.deep_view().len() == 3);
            assert(r.deep_view()[0] == r@[0]@);
            assert(r.deep_view()[1] == r@[1]@);
            assert(r.deep_view()[2] == r@[2]@);
            assert(r.deep_view() =~= post_login_events(self@, user_id@, session_id@));
        }
        r
    }

    /// Dispatches one decoded inbound event from a session: resolves the
    /// authenticated user, runs the command, and renders its refresh plan
    /// or failure as addressed outbound events.  Commands that need an
    /// authenticated user are ignored for anonymous sessions.  `now` stamps
    /// any chat message sent.
    pub fn handle_event(&mut self, session_id: &SessionId, event: InboundEvent, now: u32) -> (r:
        Vec<OutboundMessage>)
        requires
            server_inv(old(self)@),
            old(self)@.store.next_id < u64::MAX,
        ensures
            server_inv(final(self)@),
            (match event {
                InboundEvent::Login(req) => (match req.identity {
                    crate::protocol::LoginUserIdentity::AccountName(name) => ({
                        let users = old(self)@.store.users;
                        if crate::store::account_name_taken(users, name@) {
                            exists|i: int|
                                0 <= i < users.len() && (#[trigger] users[i]).account_name
                                    == Some(name@) && final(self)@.store == old(self)@.store
                                    && final(self)@.sessions == bind_view(
                                    old(self)@.sessions,
                                    users[i].id,
                                    session_id@,
                                ) && r.deep_view() == post_login_events(
                                    final(self)@,
                                    users[i].id,
                                    session_id@,
                                )
                        } else {
                            final(self)@ == old(self)@ && r.deep_view() == seq![
                                OutboundMessageView {
                                    session_id: session_id@,
                                    event: OutboundEventView::Error(
                                        i18n::invalid_login_text(req.language),
                                    ),
                                },
                            ]
                        }
                    }),
                    crate::protocol::LoginUserIdentity::Email(email) => ({
                        let users = old(self)@.store.users;
                        if crate::store::email_taken(users, email@) {
                            exists|i: int|
                                0 <= i < users.len() && (#[trigger] users[i]).email == Some(
                                    email@,
                                ) && final(self)@.store == old(self)@.store && final(self)@.sessions == bind_view(
                                    old(self)@.sessions,
                                    users[i].id,
                                    session_id@,
                                ) && r.deep_view() == post_login_events(
                                    final(self)@,
                                    users[i].id,
                                    session_id@,
                                )
                        } else {
                            final(self)@ == old(self)@ && r.deep_view() == seq![
                                OutboundMessageView {
                                    session_id: session_id@,
                                    event: OutboundEventView::Error(
                                        i18n::invalid_login_text(req.language),
                                    ),
                                },
                            ]
                        }
                    }),
                }),
                InboundEvent::Register(req) => ({
                    let o = register_outcome(
                        old(self)@,
                        req.account_name@,
                        req.email@,
                        req.display_name@,
                        req.password@,
                        req.language,
                        Some(session_id@),
                    );
                    final(self)@ == o.post && (match o.result {
                        Ok(id) => r.deep_view() == post_login_events(o.post, id, session_id@),
                        Err(t) => r.deep_view() == seq![
                            OutboundMessageView {
                                session_id: session_id@,
                                event: OutboundEventView::Error(t),
                            },
                        ],
                    })
                }),
                InboundEvent::FriendRequest(req) => if session_bound(
                    old(self)@.sessions,
                    session_id@,
                ) {
                    dispatched(
                        final(self)@,
                        session_id@,
                        r.deep_view(),
                        send_friend_request_outcome(
                            old(self)@,
                            user_of_session(old(self)@.sessions, session_id@),
                            req.friend_id@,
                            req.language,
                        ),
                    )
                } else {
                    final(self)@ == old(self)@ && r.deep_view() == Seq::<
                        OutboundMessageView,
                    >::empty()
                },
                InboundEvent::AcceptFriendRequest(req) => if session_bound(
                    old(self)@.sessions,
                    session_id@,
                ) {
                    dispatched(
                        final(self)@,
                        session_id@,
                        r.deep_view(),
                        accept_friend_request_outcome(
                            old(self)@,
                            user_of_session(old(self)@.sessions, session_id@),
                            req.friend_id@,
                            req.language,
                        ),
                    )
                } else {
                    final(self)@ == old(self)@ && r.deep_view() == Seq::<
                        OutboundMessageView,
                    >::empty()
                },
                InboundEvent::RejectFriendRequest(req) => if session_bound(
                    old(self)@.sessions,
                    session_id@,
                ) {
                    dispatched(
                        final(self)@,
                        session_id@,
                        r.deep_view(),
                        reject_friend_request_outcome(
                            old(self)@,
                            user_of_session(old(self)@.sessions, session_id@),
                            req.friend_id@,
                        ),
                    )
                } else {
                    final(self)@ == old(self)@ && r.deep_view() == Seq::<
                        OutboundMessageView,
                    >::empty()
                },
                InboundEvent::RemoveFriend(req) => if session_bound(
                    old(self)@.sessions,
                    session_id@,
                ) {
                    dispatched(
                        final(self)@,
                        session_id@,
                        r.deep_view(),
                        remove_friend_outcome(
                            old(self)@,
                            user_of_session(old(self)@.sessions, session_id@),
                            req.friend_id@,
                        ),
                    )
                } else {
                    final(self)@ == old(self)@ && r.deep_view() == Seq::<
                        OutboundMessageView,
                    >::empty()
                },
                InboundEvent::BlockUser(req) => if session_bound(
                    old(self)@.sessions,
                    session_id@,
                ) {
                    dispatched(
                        final(self)@,
                        session_id@,
                        r.deep_view(),
                        block_user_outcome(
                            old(self)@,
                            user_of_session(old(self)@.sessions, session_id@),
                            req.user_id@,
                            req.language,
                        ),
                    )
                } else {
                    final(self)@ == old(self)@ && r.deep_view() == Seq::<
                        OutboundMessageView,
                    >::empty()
                },
                InboundEvent::UnblockUser(req) => if session_bound(
                    old(self)@.sessions,
                    session_id@,
                ) {
                    dispatched(
                        final(self)@,
                        session_id@,
                        r.deep_view(),
                        unblock_user_outcome(
                            old(self)@,
                            user_of_session(old(self)@.sessions, session_id@),
                            req.user_id@,
                        ),
                    )
                } else {
                    final(self)@ == old(self)@ && r.deep_view() == Seq::<
                        OutboundMessageView,
                    >::empty()
                },
                InboundEvent::ChatSend(msg) => final(self)@ == old(self)@ && (if session_bound(
                    old(self)@.sessions,
                    session_id@,
                ) {
                    match chat_outcome(
                        old(self)@,
                        user_of_session(old(self)@.sessions, session_id@),
                        msg.channel@,
                        msg.message@,
                        msg.language,
                        now,
                    ) {
                        Ok(dp) => r.deep_view() == chat_events(dp),
                        Err(t) => r.deep_view() == seq![
                            OutboundMessageView {
                                session_id: session_id@,
                                event: OutboundEventView::Error(t),
                            },
                        ],
                    }
                } else {
                    r.deep_view() == Seq::<OutboundMessageView>::empty()
                }),
            }),
    {
        match event {
            InboundEvent::Login(req) => {
                match self.login_user(req, session_id.clone()) {
                    Ok(user_id) => {
                        proof {
                            let users = old(self)@.store.users;
                            let i = choose|i: int|
                                0 <= i < users.len() && (#[trigger] users[i]).id == user_id@;
                        }
                        self.post_login(user_id, session_id)
                    },
                    Err(e) => error_event(session_id, e),
                }
            },
            InboundEvent::Register(req) => {
                match self.register_user(req, Some(session_id.clone())) {
                    Ok(user_id) => self.post_login(user_id, session_id),
                    Err(e) => error_event(session_id, e),
                }
            },
            InboundEvent::FriendRequest(req) => {
                match self.resolve_session_user(session_id) {
                    Some(user_id) => {
                        match self.send_friend_request(user_id, req) {
                            Ok(plan) => self.plan_to_events(&plan),
                            Err(e) => error_event(session_id, e),
                        }
                    },
                    None => no_events(),
                }
            },
            InboundEvent::AcceptFriendRequest(req) => {
                match self.resolve_session_user(session_id) {
                    Some(user_id) => {
                        match self.accept_friend_request(user_id, req) {
                            Ok(plan) => self.plan_to_events(&plan),
                            Err(e) => error_event(session_id, e),
                        }
                    },
                    None => no_events(),
                }
            },
            InboundEvent::RejectFriendRequest(req) => {
                match self.resolve_session_user(session_id) {
                    Some(user_id) => {
                        match self.reject_friend_request(user_id, req) {
                            Ok(plan) => self.plan_to_events(&plan),
                            Err(e) => error_event(session_id, e),
                        }
                    },
                    None => no_events(),
                }
            },
            InboundEvent::RemoveFriend(req) => {
                match self.resolve_session_user(session_id) {
                    Some(user_id) => {
                        match self.remove_friend(user_id, req) {
                            Ok(plan) => self.plan_to_events(&plan),
                            Err(e) => error_event(session_id, e),
                        }
                    },
                    None => no_events(),
                }
            },
            InboundEvent::BlockUser(req) => {
                match self.resolve_session_user(session_id) {
                    Some(user_id) => {
                        match self.block_user(user_id, req) {
                            Ok(plan) => self.plan_to_events(&plan),
                            Err(e) => error_event(session_id, e),
                        }
                    },
                    None => no_events(),
                }
            },
            InboundEvent::UnblockUser(req) => {
                match self.resolve_session_user(session_id) {
                    Some(user_id) => {
                        match self.unblock_user(user_id, req) {
                            Ok(plan) => self.plan_to_events(&plan),
                            Err(e) => error_event(session_id, e),
                        }
                    },
                    None => no_events(),
                }
            },
            InboundEvent::ChatSend(msg) => {
                match self.resolve_session_user(session_id) {
                    Some(user_id) => {
                        match self.send_chat_message_at(user_id, msg, now) {
                            Ok(delivery) => chat_fanout(&delivery),
                            Err(e) => error_event(session_id, e),
                        }
                    },
                    None => no_events(),
                }
            },
        }
    }

    /// The authenticated user of a session, shown to exist in the store.
    fn resolve_session_user(&self, session_id: &SessionId) -> (r: Option<
        crate::protocol::UserId,
    >)
        requires
            server_inv(self@),
        ensures
            r is Some <==> session_bound(self@.sessions, session_id@),
            r matches Some(u) ==> u@ == user_of_session(self@.sessions, session_id@) && has_user(
                self@.store.users,
                u@,
            ),
    {
        let r = self.get_logged_in_user_id(session_id);
        proof {
            match &r {
                Some(u) => {
                    let b = self@.sessions;
                    let k = choose|k: int| 0 <= k < b.len() && (#[trigger] b[k]).1 == session_id@;
                    crate::session::lemma_binding_at(b, k);
                    assert(has_user(self@.store.users, b[k].0));
                },
                None => {},
            }
        }
        r
    }
}

/// The composed chat message addressed to each recipient session.
fn chat_fanout(delivery: &crate::server::DeliveryPlan) -> (r: Vec<OutboundMessage>)
    ensures
        r.deep_view() == chat_events(delivery@),
{
    let n: usize = delivery.recipients.len();
    let mut r: Vec<OutboundMessage> = Vec::new();
    let mut i: usize = 0;
    while i < n
        invariant
            n == delivery.recipients@.len(),
            0 <= i <= n,
            r.deep_view().len() == i,
            forall|j: int|
                0 <= j < i ==> #[trigger] r.deep_view()[j] == (OutboundMessageView {
                    session_id: delivery@.recipients[j],
                    event: OutboundEventView::ChatMessage(delivery@.message),
                }),
        decreases n - i,
    {
        proof {
            assert(r@.len() == i);
        }
        let ghost prev = r.deep_view();
        r.push(
            OutboundMessage {
                session_id: delivery.recipients[i].clone(),
                event: OutboundEvent::ChatMessage(delivery.message.clone()),
            },
        );
        proof {
            assert(r@.len() == i + 1);
            assert(r.deep_view()[i as int] == r@[i as int]@);
            assert(delivery@.recipients[i as int] == delivery.recipients@[i as int]@);
            assert forall|j: int|
                0 <= j < i + 1 implies #[trigger] r.deep_view()[j] == (OutboundMessageView {
                session_id: delivery@.recipients[j],
                event: OutboundEventView::ChatMessage(delivery@.message),
            }) by {
                assert(r.deep_view()[j] == r@[j]@);
                if j < i {
                    assert(prev[j] == r@[j]@);
                } else {
                    assert(r@[j].session_id@ == delivery@.recipients[j]);
                    assert(r@[j].event@ == OutboundEventView::ChatMessage(delivery@.message));
                }
            }
        }
        i += 1;
    }
    proof {
        assert(r.deep_view() =~= chat_events(delivery@));
    }
    r
}

} // verus!
