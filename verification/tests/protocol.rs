use warhorse::i18n;
use warhorse::ids::u64_to_dec_string;
use warhorse::protocol::{
    categorize_friends, is_username_or_email, Friend, FriendStatus, Language, UserLoginType,
};

#[test]
fn login_identities_are_classified_by_the_at_sign() {
    assert_eq!(is_username_or_email("somebody"), UserLoginType::AccountName);
    assert_eq!(is_username_or_email("somebody@example.com"), UserLoginType::Email);
    assert_eq!(is_username_or_email(""), UserLoginType::AccountName);
    assert_eq!(is_username_or_email("@"), UserLoginType::Email);
}

#[test]
fn counter_values_render_as_decimal_ids() {
    assert_eq!(u64_to_dec_string(0), "0");
    assert_eq!(u64_to_dec_string(7), "7");
    assert_eq!(u64_to_dec_string(10), "10");
    assert_eq!(u64_to_dec_string(409), "409");
    assert_eq!(u64_to_dec_string(u64::MAX), "18446744073709551615");
}

#[test]
fn statuses_have_fixed_labels() {
    assert_eq!(FriendStatus::Online.label(), "Online");
    assert_eq!(FriendStatus::Offline.label(), "Offline");
    assert_eq!(FriendStatus::FriendRequestSent.label(), "Friend Request Sent");
    assert_eq!(FriendStatus::FriendRequestReceived.label(), "Friend Request Received");
    assert_eq!(FriendStatus::Blocked.label(), "Blocked");
}

#[test]
fn hello_message_is_localized() {
    assert_eq!(
        i18n::hello_message(Language::English),
        "You are now connected to the Warhorse server"
    );
    assert_eq!(
        i18n::hello_message(Language::Spanish),
        "Ahora estás conectado al servidor de Warhorse"
    );
    assert_eq!(
        i18n::hello_message(Language::French),
        "Vous êtes maintenant connecté au serveur Warhorse"
    );
}

#[test]
fn friends_are_categorized_by_status_in_first_occurrence_order() {
    let friends = vec![
        Friend { id: "1".to_string(), display_name: "One".to_string(), status: FriendStatus::Online },
        Friend {
            id: "2".to_string(),
            display_name: "Two".to_string(),
            status: FriendStatus::Blocked,
        },
        Friend {
            id: "3".to_string(),
            display_name: "Three".to_string(),
            status: FriendStatus::Online,
        },
    ];
    let grouped = categorize_friends(friends);
    assert_eq!(grouped.len(), 2);
    assert_eq!(grouped[0].0, FriendStatus::Online);
    assert_eq!(grouped[0].1.len(), 2);
    assert_eq!(grouped[0].1[0].id, "1");
    assert_eq!(grouped[0].1[1].id, "3");
    assert_eq!(grouped[1].0, FriendStatus::Blocked);
    assert_eq!(grouped[1].1.len(), 1);
    assert_eq!(grouped[1].1[0].id, "2");
}

#[test]
fn categorize_of_empty_list_is_empty() {
    let grouped = categorize_friends(Vec::new());
    assert!(grouped.is_empty());
}
