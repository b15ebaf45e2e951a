use warhorse::dispatch::{InboundEvent, OutboundEvent, OutboundMessage};
use warhorse::i18n;
use warhorse::protocol::{
    AcceptFriendRequest, BlockUserRequest, ChatChannel, FriendRequest, FriendStatus, Language,
    LoginUserIdentity, SendChatMessage, UnblockUserRequest, UserLogin, UserRegistration,
};
use warhorse::server::WarhorseServer;
use warhorse::store::InMemoryDatabase;

fn registration(name: &str, email: &str, display: &str) -> UserRegistration {
    UserRegistration {
        language: Language::English,
        account_name: name.to_string(),
        email: email.to_string(),
        display_name: display.to_string(),
        password: "password".to_string(),
    }
}

fn register(server: &mut WarhorseServer<InMemoryDatabase>, name: &str, email: &str, display: &str) -> String {
    server
        .register_user(registration(name, email, display), None)
        .expect("registration should succeed")
}

fn friends_of(server: &WarhorseServer<InMemoryDatabase>, user: &str) -> Vec<(String, FriendStatus)> {
    server
        .get_friends_list(user.to_string())
        .into_iter()
        .map(|f| (f.id, f.status))
        .collect()
}

#[test]
fn register_then_login_binds_the_session() {
    let mut server = WarhorseServer::<InMemoryDatabase>::new("");
    let alice = register(&mut server, "alice", "a@x.io", "Alice");
    assert_eq!(alice, "0");
    let outcome = server.login_user(
        UserLogin {
            language: Language::English,
            identity: LoginUserIdentity::AccountName("alice".to_string()),
            password: "password".to_string(),
        },
        "sess-1".to_string(),
    );
    assert_eq!(outcome.unwrap(), "0");
    assert_eq!(server.session_of(&alice).unwrap().as_str(), "sess-1");
    // the freshly registered user has an empty friends view
    assert!(friends_of(&server, &alice).is_empty());
}

#[test]
fn login_with_unknown_identity_fails() {
    let mut server = WarhorseServer::<InMemoryDatabase>::new("");
    let e = server
        .login_user(
            UserLogin {
                language: Language::English,
                identity: LoginUserIdentity::Email("nobody@x.io".to_string()),
                password: "password".to_string(),
            },
            "sess-1".to_string(),
        )
        .unwrap_err();
    assert_eq!(e.0, "Invalid login, please ensure the information is correct");
}

#[test]
fn duplicate_registration_is_rejected() {
    let mut server = WarhorseServer::<InMemoryDatabase>::new("");
    register(&mut server, "alice", "a@x.io", "Alice");
    let e = server
        .register_user(registration("alice", "other@x.io", "Alice Two"), None)
        .unwrap_err();
    assert_eq!(e.0, "Account name already exists");
    let e = server
        .register_user(registration("allie", "a@x.io", "Allie"), None)
        .unwrap_err();
    assert_eq!(e.0, "Email already exists");
}

#[test]
fn account_names_collide_case_insensitively() {
    let mut server = WarhorseServer::<InMemoryDatabase>::new("");
    register(&mut server, "Alice", "a@x.io", "Alice");
    // the lowercased duplicate makes ALICE collide with Alice
    let e = server
        .register_user(registration("ALICE", "other@x.io", "Shouty"), None)
        .unwrap_err();
    assert_eq!(e.0, "Account name already exists");
}

#[test]
fn friend_request_then_accept_creates_the_friendship() {
    let mut server = WarhorseServer::<InMemoryDatabase>::new("");
    let alice = register(&mut server, "alice", "a@x.io", "Alice");
    let bob = register(&mut server, "bob", "b@x.io", "Bob");
    let plan = server
        .send_friend_request(
            alice.clone(),
            FriendRequest { language: Language::English, friend_id: bob.clone() },
        )
        .unwrap();
    assert!(plan.accepted.is_none());
    assert_eq!(plan.friend_requests, vec![bob.clone()]);
    assert_eq!(plan.friends, vec![alice.clone(), bob.clone()]);
    // alice sees the outgoing request, bob the incoming one
    assert_eq!(
        friends_of(&server, &alice),
        vec![(bob.clone(), FriendStatus::FriendRequestSent)]
    );
    assert_eq!(
        friends_of(&server, &bob),
        vec![(alice.clone(), FriendStatus::FriendRequestReceived)]
    );
    let plan = server
        .accept_friend_request(
            bob.clone(),
            AcceptFriendRequest { language: Language::English, friend_id: alice.clone() },
        )
        .unwrap();
    let notice = plan.accepted.expect("acceptance carries a notice");
    assert_eq!(notice.user, bob);
    assert_eq!(notice.friend.id, alice);
    // both offline, so the friendship shows as Offline on both sides
    assert_eq!(friends_of(&server, &alice), vec![(bob.clone(), FriendStatus::Offline)]);
    assert_eq!(friends_of(&server, &bob), vec![(alice.clone(), FriendStatus::Offline)]);
}

#[test]
fn crossed_requests_auto_accept() {
    let mut server = WarhorseServer::<InMemoryDatabase>::new("");
    let alice = register(&mut server, "alice", "a@x.io", "Alice");
    let bob = register(&mut server, "bob", "b@x.io", "Bob");
    server
        .send_friend_request(
            alice.clone(),
            FriendRequest { language: Language::English, friend_id: bob.clone() },
        )
        .unwrap();
    // bob answers with his own request before accepting: the pair become
    // friends at once and bob is notified directly
    let plan = server
        .send_friend_request(
            bob.clone(),
            FriendRequest { language: Language::English, friend_id: alice.clone() },
        )
        .unwrap();
    let notice = plan.accepted.expect("auto-accept notifies the second sender");
    assert_eq!(notice.user, bob);
    assert_eq!(notice.friend.id, alice);
    assert_eq!(plan.friend_requests, vec![bob.clone()]);
    assert_eq!(friends_of(&server, &alice), vec![(bob.clone(), FriendStatus::Offline)]);
    assert_eq!(friends_of(&server, &bob), vec![(alice.clone(), FriendStatus::Offline)]);
    // bob's pending list is empty again
    assert!(server.get_pending_friend_requests(bob.clone()).is_empty());
}

#[test]
fn repeated_friend_request_is_a_quiet_no_op() {
    let mut server = WarhorseServer::<InMemoryDatabase>::new("");
    let alice = register(&mut server, "alice", "a@x.io", "Alice");
    let bob = register(&mut server, "bob", "b@x.io", "Bob");
    let req = || FriendRequest { language: Language::English, friend_id: bob.clone() };
    server.send_friend_request(alice.clone(), req()).unwrap();
    let plan = server.send_friend_request(alice.clone(), req()).unwrap();
    assert!(plan.accepted.is_none());
    assert!(plan.friend_requests.is_empty());
    assert!(plan.friends.is_empty());
    // the state is untouched: bob still sees exactly one incoming request
    assert_eq!(server.get_pending_friend_requests(bob.clone()).len(), 1);
}

#[test]
fn request_between_friends_or_blocked_pairs_fails() {
    let mut server = WarhorseServer::<InMemoryDatabase>::new("");
    let alice = register(&mut server, "alice", "a@x.io", "Alice");
    let bob = register(&mut server, "bob", "b@x.io", "Bob");
    let carol = register(&mut server, "carol", "c@x.io", "Carol");
    server
        .send_friend_request(
            alice.clone(),
            FriendRequest { language: Language::English, friend_id: bob.clone() },
        )
        .unwrap();
    server
        .accept_friend_request(
            bob.clone(),
            AcceptFriendRequest { language: Language::English, friend_id: alice.clone() },
        )
        .unwrap();
    let e = server
        .send_friend_request(
            alice.clone(),
            FriendRequest { language: Language::English, friend_id: bob.clone() },
        )
        .unwrap_err();
    assert_eq!(e.0, "You are already friends with this user");
    server
        .block_user(
            alice.clone(),
            BlockUserRequest { language: Language::English, user_id: carol.clone() },
        )
        .unwrap();
    let e = server
        .send_friend_request(
            alice.clone(),
            FriendRequest { language: Language::English, friend_id: carol.clone() },
        )
        .unwrap_err();
    assert_eq!(e.0, "This user is blocked");
    // the block works in the other direction too
    let e = server
        .send_friend_request(
            carol.clone(),
            FriendRequest { language: Language::English, friend_id: alice.clone() },
        )
        .unwrap_err();
    assert_eq!(e.0, "This user is blocked");
    let e = server
        .send_friend_request(
            alice.clone(),
            FriendRequest { language: Language::English, friend_id: "99".to_string() },
        )
        .unwrap_err();
    assert_eq!(e.0, "Unknown user");
}

#[test]
fn blocking_tears_down_the_relationship() {
    let mut server = WarhorseServer::<InMemoryDatabase>::new("");
    let alice = register(&mut server, "alice", "a@x.io", "Alice");
    let bob = register(&mut server, "bob", "b@x.io", "Bob");
    server
        .send_friend_request(
            alice.clone(),
            FriendRequest { language: Language::English, friend_id: bob.clone() },
        )
        .unwrap();
    server
        .accept_friend_request(
            bob.clone(),
            AcceptFriendRequest { language: Language::English, friend_id: alice.clone() },
        )
        .unwrap();
    server
        .block_user(
            bob.clone(),
            BlockUserRequest { language: Language::English, user_id: alice.clone() },
        )
        .unwrap();
    // bob sees alice as blocked; alice no longer sees bob at all
    assert_eq!(friends_of(&server, &bob), vec![(alice.clone(), FriendStatus::Blocked)]);
    assert!(friends_of(&server, &alice).is_empty());
    // a whisper retried after the block is refused: the friendship is gone
    let e = server
        .send_chat_message_at(
            alice.clone(),
            SendChatMessage {
                language: Language::English,
                channel: ChatChannel::PrivateMessage(bob.clone()),
                message: "hello?".to_string(),
            },
            7,
        )
        .unwrap_err();
    assert_eq!(e.0, "You are not friends with this user");
    // unblocking removes the block but does not restore the friendship
    server
        .unblock_user(
            bob.clone(),
            UnblockUserRequest { language: Language::English, user_id: alice.clone() },
        )
        .unwrap();
    assert!(friends_of(&server, &bob).is_empty());
    assert!(friends_of(&server, &alice).is_empty());
}

#[test]
fn self_friend_request_is_silently_ignored() {
    let mut server = WarhorseServer::<InMemoryDatabase>::new("");
    let alice = register(&mut server, "alice", "a@x.io", "Alice");
    let plan = server
        .send_friend_request(
            alice.clone(),
            FriendRequest { language: Language::English, friend_id: alice.clone() },
        )
        .unwrap();
    assert!(plan.accepted.is_none());
    assert!(plan.friend_requests.is_empty());
    assert!(plan.friends.is_empty());
    assert!(friends_of(&server, &alice).is_empty());
    assert!(server.get_pending_friend_requests(alice.clone()).is_empty());
}

#[test]
fn login_works_by_email_too() {
    let mut server = WarhorseServer::<InMemoryDatabase>::new("");
    let alice = register(&mut server, "alice", "a@x.io", "Alice");
    let id = server
        .login_user(
            UserLogin {
                language: Language::English,
                identity: LoginUserIdentity::Email("a@x.io".to_string()),
                password: "whatever-goes".to_string(),
            },
            "sess-1".to_string(),
        )
        .unwrap();
    assert_eq!(id, alice);
}

#[test]
fn self_block_is_rejected() {
    let mut server = WarhorseServer::<InMemoryDatabase>::new("");
    let alice = register(&mut server, "alice", "a@x.io", "Alice");
    let e = server
        .block_user(
            alice.clone(),
            BlockUserRequest { language: Language::English, user_id: alice.clone() },
        )
        .unwrap_err();
    assert_eq!(e.0, "You cannot target yourself");
}

#[test]
fn whisper_requires_friendship_and_reaches_the_session() {
    let mut server = WarhorseServer::<InMemoryDatabase>::new("");
    let alice = register(&mut server, "alice", "a@x.io", "Alice");
    let bob = register(&mut server, "bob", "b@x.io", "Bob");
    // not friends yet: the whisper is refused
    let e = server
        .send_chat_message_at(
            alice.clone(),
            SendChatMessage {
                language: Language::English,
                channel: ChatChannel::PrivateMessage(bob.clone()),
                message: "hi".to_string(),
            },
            7,
        )
        .unwrap_err();
    assert_eq!(e.0, "You are not friends with this user");
    server
        .send_friend_request(
            alice.clone(),
            FriendRequest { language: Language::English, friend_id: bob.clone() },
        )
        .unwrap();
    server
        .accept_friend_request(
            bob.clone(),
            AcceptFriendRequest { language: Language::English, friend_id: alice.clone() },
        )
        .unwrap();
    // bob is offline: the whisper is composed but delivered to nobody
    let plan = server
        .send_chat_message_at(
            alice.clone(),
            SendChatMessage {
                language: Language::English,
                channel: ChatChannel::PrivateMessage(bob.clone()),
                message: "hi".to_string(),
            },
            7,
        )
        .unwrap();
    assert!(plan.recipients.is_empty());
    // once bob has a session the whisper reaches exactly it
    server
        .login_user(
            UserLogin {
                language: Language::English,
                identity: LoginUserIdentity::AccountName("bob".to_string()),
                password: "password".to_string(),
            },
            "sess-bob".to_string(),
        )
        .unwrap();
    let plan = server
        .send_chat_message_at(
            alice.clone(),
            SendChatMessage {
                language: Language::English,
                channel: ChatChannel::PrivateMessage(bob.clone()),
                message: "hi".to_string(),
            },
            42,
        )
        .unwrap();
    assert_eq!(plan.recipients, vec!["sess-bob".to_string()]);
    assert_eq!(plan.message.display_name, "Alice");
    assert_eq!(plan.message.message, "hi");
    assert_eq!(plan.message.time, 42);
}

#[test]
fn room_messages_fan_out_to_every_bound_session() {
    let mut server = WarhorseServer::<InMemoryDatabase>::new("");
    let alice = register(&mut server, "alice", "a@x.io", "Alice");
    register(&mut server, "carol", "c@x.io", "Carol");
    // an anonymous server has no members in the room
    let e = server
        .send_chat_message_at(
            alice.clone(),
            SendChatMessage {
                language: Language::English,
                channel: ChatChannel::Room("general".to_string()),
                message: "hello".to_string(),
            },
            7,
        )
        .unwrap_err();
    assert_eq!(e.0, "You are not in this room");
    server
        .login_user(
            UserLogin {
                language: Language::English,
                identity: LoginUserIdentity::AccountName("alice".to_string()),
                password: "password".to_string(),
            },
            "sess-alice".to_string(),
        )
        .unwrap();
    server
        .login_user(
            UserLogin {
                language: Language::English,
                identity: LoginUserIdentity::AccountName("carol".to_string()),
                password: "password".to_string(),
            },
            "sess-carol".to_string(),
        )
        .unwrap();
    assert!(server.room_exists("general"));
    assert!(!server.room_exists("lobby"));
    let plan = server
        .send_chat_message_at(
            alice.clone(),
            SendChatMessage {
                language: Language::English,
                channel: ChatChannel::Room("general".to_string()),
                message: "hello".to_string(),
            },
            7,
        )
        .unwrap();
    // uniform fan-out: the sender's own session joins the recipients
    assert_eq!(plan.recipients, vec!["sess-alice".to_string(), "sess-carol".to_string()]);
    // only the ambient room exists
    let e = server
        .send_chat_message_at(
            alice.clone(),
            SendChatMessage {
                language: Language::English,
                channel: ChatChannel::Room("lobby".to_string()),
                message: "hello".to_string(),
            },
            7,
        )
        .unwrap_err();
    assert_eq!(e.0, "You are not in this room");
}

#[test]
fn disconnect_clears_presence_in_the_friends_view() {
    let mut server = WarhorseServer::<InMemoryDatabase>::new("");
    let alice = register(&mut server, "alice", "a@x.io", "Alice");
    let bob = register(&mut server, "bob", "b@x.io", "Bob");
    server
        .send_friend_request(
            alice.clone(),
            FriendRequest { language: Language::English, friend_id: bob.clone() },
        )
        .unwrap();
    server
        .accept_friend_request(
            bob.clone(),
            AcceptFriendRequest { language: Language::English, friend_id: alice.clone() },
        )
        .unwrap();
    server
        .login_user(
            UserLogin {
                language: Language::English,
                identity: LoginUserIdentity::AccountName("alice".to_string()),
                password: "password".to_string(),
            },
            "sess-alice".to_string(),
        )
        .unwrap();
    assert_eq!(friends_of(&server, &bob), vec![(alice.clone(), FriendStatus::Online)]);
    server.handle_disconnect(&"sess-alice".to_string());
    assert_eq!(friends_of(&server, &bob), vec![(alice.clone(), FriendStatus::Offline)]);
    // dropping the binding by user id works the same way
    server
        .login_user(
            UserLogin {
                language: Language::English,
                identity: LoginUserIdentity::AccountName("alice".to_string()),
                password: "password".to_string(),
            },
            "sess-alice-2".to_string(),
        )
        .unwrap();
    assert_eq!(friends_of(&server, &bob), vec![(alice.clone(), FriendStatus::Online)]);
    server.remove_user(&alice);
    assert_eq!(friends_of(&server, &bob), vec![(alice.clone(), FriendStatus::Offline)]);
}

#[test]
fn a_second_login_displaces_the_previous_session() {
    let mut server = WarhorseServer::<InMemoryDatabase>::new("");
    let alice = register(&mut server, "alice", "a@x.io", "Alice");
    let login = |identity: &str| UserLogin {
        language: Language::English,
        identity: LoginUserIdentity::AccountName(identity.to_string()),
        password: "password".to_string(),
    };
    server.login_user(login("alice"), "sess-1".to_string()).unwrap();
    server.login_user(login("alice"), "sess-2".to_string()).unwrap();
    assert_eq!(server.session_of(&alice).unwrap().as_str(), "sess-2");
    assert_eq!(server.get_logged_in_user_id(&"sess-1".to_string()), None);
    assert_eq!(server.get_logged_in_user_id(&"sess-2".to_string()), Some(alice.clone()));
}

#[test]
fn dispatcher_routes_a_full_conversation() {
    let mut server = WarhorseServer::<InMemoryDatabase>::new("");
    // two clients connect; each is greeted
    let hello = server.handle_connection(&"s-alice".to_string());
    assert_eq!(hello.len(), 1);
    match &hello[0].event {
        OutboundEvent::Hello(text) => {
            assert_eq!(text, "You are now connected to the Warhorse server")
        },
        _ => panic!("expected a hello event"),
    }
    // both register through the dispatcher, which binds their sessions
    let out = server.handle_event(
        &"s-alice".to_string(),
        InboundEvent::Register(registration("alice", "a@x.io", "Alice")),
        7,
    );
    assert_eq!(out.len(), 3);
    assert!(matches!(out[0].event, OutboundEvent::FriendRequests(_)));
    assert!(matches!(out[1].event, OutboundEvent::FriendsList(_)));
    assert!(matches!(out[2].event, OutboundEvent::LoggedIn));
    server.handle_event(
        &"s-bob".to_string(),
        InboundEvent::Register(registration("bob", "b@x.io", "Bob")),
        7,
    );
    // alice sends bob a friend request: bob's request list and both
    // friends views refresh, in that order
    let out = server.handle_event(
        &"s-alice".to_string(),
        InboundEvent::FriendRequest(FriendRequest {
            language: Language::English,
            friend_id: "1".to_string(),
        }),
        7,
    );
    let sessions: Vec<&str> = out.iter().map(|m| m.session_id.as_str()).collect();
    assert_eq!(sessions, vec!["s-bob", "s-alice", "s-bob"]);
    match &out[0].event {
        OutboundEvent::FriendRequests(requests) => {
            assert_eq!(requests.len(), 1);
            assert_eq!(requests[0].id, "0");
            assert_eq!(requests[0].display_name, "Alice");
            assert_eq!(requests[0].status, FriendStatus::FriendRequestReceived);
        },
        _ => panic!("expected a friend-requests refresh"),
    }
    assert!(matches!(out[1].event, OutboundEvent::FriendsList(_)));
    assert!(matches!(out[2].event, OutboundEvent::FriendsList(_)));
    // bob accepts: he is notified directly, then both views refresh
    let out = server.handle_event(
        &"s-bob".to_string(),
        InboundEvent::AcceptFriendRequest(AcceptFriendRequest {
            language: Language::English,
            friend_id: "0".to_string(),
        }),
        7,
    );
    assert_eq!(out.len(), 3);
    assert_eq!(out[0].session_id, "s-bob");
    match &out[0].event {
        OutboundEvent::FriendRequestAccepted(accepted) => {
            assert_eq!(accepted.friend.id, "0");
            assert_eq!(accepted.friend.status, FriendStatus::Online);
        },
        _ => panic!("expected an acceptance notification"),
    }
    // both are online now, so each sees the other online: the acceptor's
    // view refreshes first, then the requester's
    assert_eq!(out[1].session_id, "s-bob");
    match &out[1].event {
        OutboundEvent::FriendsList(friends) => {
            assert_eq!(friends.len(), 1);
            assert_eq!(friends[0].id, "0");
            assert_eq!(friends[0].status, FriendStatus::Online);
        },
        _ => panic!("expected a friends list"),
    }
    assert_eq!(out[2].session_id, "s-alice");
    match &out[2].event {
        OutboundEvent::FriendsList(friends) => {
            assert_eq!(friends.len(), 1);
            assert_eq!(friends[0].id, "1");
            assert_eq!(friends[0].status, FriendStatus::Online);
        },
        _ => panic!("expected a friends list"),
    }
    // alice whispers bob through the dispatcher
    let out = server.handle_event(
        &"s-alice".to_string(),
        InboundEvent::ChatSend(SendChatMessage {
            language: Language::English,
            channel: ChatChannel::PrivateMessage("1".to_string()),
            message: "hi".to_string(),
        }),
        99,
    );
    assert_eq!(out.len(), 1);
    assert_eq!(out[0].session_id, "s-bob");
    match &out[0].event {
        OutboundEvent::ChatMessage(m) => {
            assert_eq!(m.display_name, "Alice");
            assert_eq!(m.message, "hi");
            assert_eq!(m.time, 99);
        },
        _ => panic!("expected a chat message"),
    }
    // a command from an anonymous session is ignored
    let out = server.handle_event(
        &"s-nobody".to_string(),
        InboundEvent::FriendRequest(FriendRequest {
            language: Language::English,
            friend_id: "0".to_string(),
        }),
        7,
    );
    assert!(out.is_empty());
    // a failing command surfaces exactly one error event to its origin
    let out = server.handle_event(
        &"s-alice".to_string(),
        InboundEvent::BlockUser(BlockUserRequest {
            language: Language::English,
            user_id: "0".to_string(),
        }),
        7,
    );
    assert_eq!(out.len(), 1);
    assert_eq!(out[0].session_id, "s-alice");
    match &out[0].event {
        OutboundEvent::Error(text) => assert_eq!(text, "You cannot target yourself"),
        _ => panic!("expected an error event"),
    }
}

#[test]
fn remaining_error_kinds_have_localized_texts() {
    // kinds the engine reserves for transport-level failures
    assert_eq!(i18n::not_connected(Language::English).0, "You are not connected");
    assert_eq!(i18n::internal_error(Language::Spanish).0, "Error interno del servidor");
    assert_eq!(i18n::unknown_user(Language::French).0, "Utilisateur inconnu");
    assert_eq!(i18n::self_targeted(Language::English).0, "You cannot target yourself");
}

#[test]
fn rejecting_a_request_removes_it() {
    let mut server = WarhorseServer::<InMemoryDatabase>::new("");
    let alice = register(&mut server, "alice", "a@x.io", "Alice");
    let bob = register(&mut server, "bob", "b@x.io", "Bob");
    server
        .send_friend_request(
            alice.clone(),
            FriendRequest { language: Language::English, friend_id: bob.clone() },
        )
        .unwrap();
    assert_eq!(server.get_pending_friend_requests(bob.clone()).len(), 1);
    let plan = server
        .reject_friend_request(
            bob.clone(),
            warhorse::protocol::RejectFriendRequest {
                language: Language::English,
                friend_id: alice.clone(),
            },
        )
        .unwrap();
    assert_eq!(plan.friend_requests, vec![bob.clone()]);
    assert!(server.get_pending_friend_requests(bob.clone()).is_empty());
    assert!(friends_of(&server, &alice).is_empty());
    assert!(friends_of(&server, &bob).is_empty());
    // rejecting again is a quiet no-op
    let plan = server
        .reject_friend_request(
            bob.clone(),
            warhorse::protocol::RejectFriendRequest {
                language: Language::English,
                friend_id: alice.clone(),
            },
        )
        .unwrap();
    assert!(plan.friends.is_empty());
}

#[test]
fn removing_a_friend_undoes_the_friendship() {
    let mut server = WarhorseServer::<InMemoryDatabase>::new("");
    let alice = register(&mut server, "alice", "a@x.io", "Alice");
    let bob = register(&mut server, "bob", "b@x.io", "Bob");
    server
        .send_friend_request(
            alice.clone(),
            FriendRequest { language: Language::English, friend_id: bob.clone() },
        )
        .unwrap();
    server
        .accept_friend_request(
            bob.clone(),
            AcceptFriendRequest { language: Language::English, friend_id: alice.clone() },
        )
        .unwrap();
    assert!(server.are_friends(&alice, &bob));
    assert!(server.are_friends(&bob, &alice));
    server
        .remove_friend(
            alice.clone(),
            warhorse::protocol::RemoveFriendRequest {
                language: Language::English,
                friend_id: bob.clone(),
            },
        )
        .unwrap();
    assert!(!server.are_friends(&alice, &bob));
    assert!(!server.are_friends(&bob, &alice));
    assert!(friends_of(&server, &alice).is_empty());
    assert!(friends_of(&server, &bob).is_empty());
}

#[test]
fn chat_with_the_wall_clock_composes_the_same_message() {
    let mut server = WarhorseServer::<InMemoryDatabase>::new("");
    let alice = register(&mut server, "alice", "a@x.io", "Alice");
    let bob = register(&mut server, "bob", "b@x.io", "Bob");
    server
        .send_friend_request(
            alice.clone(),
            FriendRequest { language: Language::English, friend_id: bob.clone() },
        )
        .unwrap();
    server
        .accept_friend_request(
            bob.clone(),
            AcceptFriendRequest { language: Language::English, friend_id: alice.clone() },
        )
        .unwrap();
    let plan = server
        .send_chat_message(
            alice.clone(),
            SendChatMessage {
                language: Language::English,
                channel: ChatChannel::PrivateMessage(bob.clone()),
                message: "hi".to_string(),
            },
        )
        .unwrap();
    assert_eq!(plan.message.display_name, "Alice");
    assert_eq!(plan.message.message, "hi");
    // the time stamp comes from the wall clock and is after 2020
    assert!(plan.message.time > 1_577_836_800);
}

#[test]
fn anonymous_sessions_are_ignored() {
    // a command from a session that never logged in resolves to no user
    let mut server = WarhorseServer::<InMemoryDatabase>::new("");
    let out = server.handle_event(
        &"ghost".to_string(),
        InboundEvent::ChatSend(SendChatMessage {
            language: Language::English,
            channel: ChatChannel::Room("general".to_string()),
            message: "anyone?".to_string(),
        }),
        7,
    );
    let empty: Vec<OutboundMessage> = out;
    assert!(empty.is_empty());
}
