use delete_itt::mention::{mention_found, target_me};
use delete_itt::render::{format_vote_button, vote_labels};
use delete_itt::types::Poll;

#[test]
fn button_label_with_zero() {
    assert_eq!(format_vote_button("Yes", 0), "Yes (0)");
}

#[test]
fn button_label_with_several_digits() {
    assert_eq!(format_vote_button("No", 1042), "No (1042)");
}

#[test]
fn button_label_negative_and_extremes() {
    assert_eq!(format_vote_button("x", -7), "x (-7)");
    assert_eq!(format_vote_button("", i64::MAX), " (9223372036854775807)");
    assert_eq!(format_vote_button("m", i64::MIN), "m (-9223372036854775808)");
}

#[test]
fn labels_follow_stored_counts() {
    let p = Poll {
        id: 1,
        chat_id: -100,
        poll_id: 7,
        message_id: 6,
        message_user_id: 42,
        minimum_vote_count: 5,
        vote_count_yes: 3,
        vote_count_no: 1,
    };
    let (yes, no) = vote_labels(&p, "Delete", "Keep");
    assert_eq!(yes, "Delete (3)");
    assert_eq!(no, "Keep (1)");
}

#[test]
fn mention_alone_or_followed_by_blank() {
    assert!(target_me("deleteittbot", Some("@deleteittbot")));
    assert!(target_me("deleteittbot", Some("@deleteittbot please")));
    assert!(target_me("deleteittbot", Some("hey @deleteittbot\nthis one")));
}

#[test]
fn no_mention_of_another_name_or_without_text() {
    assert!(!target_me("deleteittbot", Some("@deleteittbotx")));
    assert!(!target_me("deleteittbot", Some("deleteittbot")));
    assert!(!target_me("deleteittbot", Some("hello there")));
    assert!(!target_me("deleteittbot", None));
}

#[test]
fn malformed_name_addresses_nobody() {
    assert!(!target_me("bad(name", Some("@bad(name now")));
}

#[test]
fn only_a_successful_search_is_a_mention() {
    assert!(mention_found(Some(true)));
    assert!(!mention_found(Some(false)));
    assert!(!mention_found(None));
}
