use delete_itt::engine::{
    cast_vote, check_poll_request, fire_at, get_locale, get_poll_delete_delay, non_duplicate,
    poll_threshold, setup_poll, threshold_reached, OpenError, PollRefusal, TargetAuthor,
    VoteOutcome,
};
use delete_itt::settings::{set_language, set_vote_count, SettingsError};
use delete_itt::store::StoreError;
use delete_itt::store::Database;
use delete_itt::types::{Poll, VoteType, Voter};

const CHAT: i64 = -1001;
const TARGET: i32 = 50;
const POLL_MSG: i32 = 51;
const AUTHOR: i64 = 900;
const NOW: i64 = 1_700_000_000;

const PLAIN: TargetAuthor = TargetAuthor { is_anonymous: false, is_channel: false, is_privileged: false };

fn open_default_poll(db: &mut Database) -> Poll {
    setup_poll(db, CHAT, POLL_MSG, TARGET, AUTHOR, Some(PLAIN)).unwrap()
}

fn vote(db: &mut Database, user: i64, choice: VoteType) -> VoteOutcome {
    cast_vote(db, CHAT, POLL_MSG, user, choice, NOW).unwrap()
}

#[test]
fn four_yes_keep_open_fifth_resolves_delete() {
    let mut db = Database::new();
    let p = open_default_poll(&mut db);
    assert_eq!(p.minimum_vote_count, 5);
    for user in 1..=4 {
        match vote(&mut db, user, VoteType::Yes) {
            VoteOutcome::Counted { poll } => assert_eq!(poll.vote_count_yes, user),
            other => panic!("unexpected {:?}", other),
        }
    }
    let open = db.get_poll(CHAT, POLL_MSG).unwrap();
    assert_eq!((open.vote_count_yes, open.vote_count_no), (4, 0));
    match vote(&mut db, 5, VoteType::Yes) {
        VoteOutcome::Resolved { poll, choice, fire_at } => {
            assert_eq!(choice, VoteType::Yes);
            assert_eq!(poll.message_id, TARGET);
            assert_eq!(poll.vote_count_yes, 5);
            assert_eq!(fire_at, NOW + 5);
        }
        other => panic!("unexpected {:?}", other),
    }
    assert!(db.get_poll(CHAT, POLL_MSG).is_none());
    for user in 1..=5 {
        assert!(db.get_voter(p.id, user).is_none());
    }
    let queued = db.get_pending_messages_to_delete(NOW + 5);
    assert_eq!(queued.len(), 1);
    assert_eq!((queued[0].chat_id, queued[0].message_id, queued[0].timestamp), (CHAT, POLL_MSG, NOW + 5));
    assert!(db.get_pending_messages_to_delete(NOW + 4).is_empty());
}

#[test]
fn five_no_resolve_keep() {
    let mut db = Database::new();
    open_default_poll(&mut db);
    for user in 1..=4 {
        assert!(matches!(vote(&mut db, user, VoteType::No), VoteOutcome::Counted { .. }));
    }
    let open = db.get_poll(CHAT, POLL_MSG).unwrap();
    assert_eq!((open.vote_count_yes, open.vote_count_no), (0, 4));
    match vote(&mut db, 5, VoteType::No) {
        VoteOutcome::Resolved { poll, choice, fire_at } => {
            assert_eq!(choice, VoteType::No);
            assert_eq!(poll.vote_count_no, 5);
            assert_eq!(poll.vote_count_yes, 0);
            assert_eq!(fire_at, NOW + 5);
        }
        other => panic!("unexpected {:?}", other),
    }
    assert!(db.get_poll(CHAT, POLL_MSG).is_none());
    let queued = db.get_pending_messages_to_delete(NOW + 5);
    assert_eq!(queued.len(), 1);
    assert_eq!(queued[0].message_id, POLL_MSG);
    assert!(queued.iter().all(|m| m.message_id != TARGET));
}

#[test]
fn second_vote_is_duplicate_either_side() {
    let mut db = Database::new();
    open_default_poll(&mut db);
    assert!(matches!(vote(&mut db, 7, VoteType::Yes), VoteOutcome::Counted { .. }));
    assert_eq!(vote(&mut db, 7, VoteType::Yes), VoteOutcome::Duplicate);
    assert_eq!(vote(&mut db, 7, VoteType::No), VoteOutcome::Duplicate);
    let p = db.get_poll(CHAT, POLL_MSG).unwrap();
    assert_eq!((p.vote_count_yes, p.vote_count_no), (1, 0));
}

#[test]
fn count_equals_distinct_voters() {
    let mut db = Database::new();
    open_default_poll(&mut db);
    let users = [3, 1, 3, 2, 1, 4];
    let sides = [VoteType::Yes, VoteType::No, VoteType::No, VoteType::No, VoteType::Yes, VoteType::Yes];
    for k in 0..users.len() {
        vote(&mut db, users[k], sides[k]);
    }
    let p = db.get_poll(CHAT, POLL_MSG).unwrap();
    assert_eq!(p.vote_count_yes + p.vote_count_no, 4);
    assert_eq!((p.vote_count_yes, p.vote_count_no), (2, 2));
    for u in 1..=4 {
        assert!(db.get_voter(p.id, u).is_some());
    }
}

#[test]
fn vote_on_unknown_message_finds_no_poll() {
    let mut db = Database::new();
    open_default_poll(&mut db);
    assert_eq!(cast_vote(&mut db, CHAT, POLL_MSG + 1, 1, VoteType::Yes, NOW), Ok(VoteOutcome::NoPoll));
    assert_eq!(cast_vote(&mut db, CHAT + 1, POLL_MSG, 1, VoteType::Yes, NOW), Ok(VoteOutcome::NoPoll));
}

#[test]
fn threshold_fixed_when_poll_opened() {
    let mut db = Database::new();
    open_default_poll(&mut db);
    vote(&mut db, 1, VoteType::Yes);
    vote(&mut db, 2, VoteType::Yes);
    set_vote_count(&mut db, CHAT, 2).unwrap();
    assert!(matches!(vote(&mut db, 3, VoteType::Yes), VoteOutcome::Counted { .. }));
    assert!(matches!(vote(&mut db, 4, VoteType::Yes), VoteOutcome::Counted { .. }));
    assert!(matches!(vote(&mut db, 5, VoteType::Yes), VoteOutcome::Resolved { .. }));
    let next = setup_poll(&mut db, CHAT, POLL_MSG + 10, TARGET + 10, AUTHOR, Some(PLAIN)).unwrap();
    assert_eq!(next.minimum_vote_count, 2);
}

#[test]
fn chat_delay_used_for_poll_message() {
    let mut db = Database::new();
    db.create_chat(CHAT).unwrap();
    db.set_chat_votes(CHAT, 1);
    db.set_chat_poll_delete_delay(CHAT, 60);
    open_default_poll(&mut db);
    match vote(&mut db, 1, VoteType::No) {
        VoteOutcome::Resolved { fire_at, .. } => assert_eq!(fire_at, NOW + 60),
        other => panic!("unexpected {:?}", other),
    }
}

#[test]
fn sweep_removes_due_task_once() {
    let mut db = Database::new();
    db.set_chat_votes(CHAT, 1);
    open_default_poll(&mut db);
    for user in 1..=5 {
        vote(&mut db, user, VoteType::Yes);
    }
    assert!(db.sweep(NOW + 4).is_empty());
    let swept = db.sweep(NOW + 7);
    assert_eq!(swept.len(), 1);
    assert_eq!(swept[0].message_id, POLL_MSG);
    assert!(db.sweep(NOW + 7).is_empty());
    assert!(db.sweep(NOW + 1000).is_empty());
    assert!(db.get_pending_messages_to_delete(i64::MAX).is_empty());
}

#[test]
fn sweep_keeps_tasks_not_yet_due() {
    let mut db = Database::new();
    db.schedule_message_delete(CHAT, 1, 100).unwrap();
    db.schedule_message_delete(CHAT, 2, 300).unwrap();
    db.schedule_message_delete(CHAT, 3, 200).unwrap();
    let swept = db.sweep(200);
    let ids: Vec<i32> = swept.iter().map(|m| m.message_id).collect();
    assert_eq!(ids, vec![1, 3]);
    let left = db.get_pending_messages_to_delete(i64::MAX);
    assert_eq!(left.len(), 1);
    assert_eq!(left[0].message_id, 2);
}

#[test]
fn defaults_without_chat_settings() {
    let db = Database::new();
    assert_eq!(poll_threshold(&db, CHAT), 5);
    assert_eq!(get_poll_delete_delay(&db, CHAT), 5);
    assert_eq!(get_locale(&db, CHAT), "en");
}

#[test]
fn vote_count_validated() {
    let mut db = Database::new();
    assert_eq!(set_vote_count(&mut db, CHAT, 0), Err(SettingsError::CountOutOfRange));
    assert_eq!(set_vote_count(&mut db, CHAT, 11), Err(SettingsError::CountOutOfRange));
    assert_eq!(set_vote_count(&mut db, CHAT, -3), Err(SettingsError::CountOutOfRange));
    assert!(db.get_chat(CHAT).is_none());
    assert_eq!(set_vote_count(&mut db, CHAT, 1), Ok(()));
    assert_eq!(poll_threshold(&db, CHAT), 1);
    assert_eq!(set_vote_count(&mut db, CHAT, 10), Ok(()));
    assert_eq!(poll_threshold(&db, CHAT), 10);
    assert_eq!(get_locale(&db, CHAT), "en");
}

#[test]
fn language_validated_against_offered() {
    let mut db = Database::new();
    let offered = vec!["en".to_string(), "ml".to_string()];
    assert_eq!(set_language(&mut db, CHAT, "xx", &offered), Err(SettingsError::UnknownLocale));
    assert!(db.get_chat(CHAT).is_none());
    assert_eq!(set_language(&mut db, CHAT, "ml", &offered), Ok(()));
    assert_eq!(get_locale(&db, CHAT), "ml");
    assert_eq!(poll_threshold(&db, CHAT), 5);
}

#[test]
fn poll_request_rules() {
    let plain = PLAIN;
    assert_eq!(check_poll_request(Some(plain)), Ok(()));
    assert_eq!(check_poll_request(None), Err(PollRefusal::NoTarget));
    assert_eq!(
        check_poll_request(Some(TargetAuthor { is_anonymous: true, ..plain })),
        Err(PollRefusal::AnonymousAuthor)
    );
    assert_eq!(
        check_poll_request(Some(TargetAuthor { is_channel: true, ..plain })),
        Err(PollRefusal::AnonymousAuthor)
    );
    assert_eq!(
        check_poll_request(Some(TargetAuthor { is_privileged: true, ..plain })),
        Err(PollRefusal::PrivilegedAuthor)
    );
}

#[test]
fn second_poll_on_same_message_refused_by_engine() {
    let mut db = Database::new();
    open_default_poll(&mut db);
    assert_eq!(
        setup_poll(&mut db, CHAT, POLL_MSG, TARGET, AUTHOR, Some(PLAIN)),
        Err(OpenError::Store(StoreError::AlreadyExists))
    );
}

#[test]
fn poll_refused_for_protected_authors_store_unchanged() {
    let mut db = Database::new();
    let cases = [
        (None, PollRefusal::NoTarget),
        (Some(TargetAuthor { is_anonymous: true, ..PLAIN }), PollRefusal::AnonymousAuthor),
        (Some(TargetAuthor { is_channel: true, ..PLAIN }), PollRefusal::AnonymousAuthor),
        (Some(TargetAuthor { is_privileged: true, ..PLAIN }), PollRefusal::PrivilegedAuthor),
    ];
    for (author, why) in cases {
        assert_eq!(
            setup_poll(&mut db, CHAT, POLL_MSG, TARGET, AUTHOR, author),
            Err(OpenError::Refused(why))
        );
        assert!(db.get_poll(CHAT, POLL_MSG).is_none());
    }
    assert_eq!(db.next_id(), 1);
}

#[test]
fn poll_opened_with_author_and_chat_threshold() {
    let mut db = Database::new();
    set_vote_count(&mut db, CHAT, 3).unwrap();
    let p = open_default_poll(&mut db);
    assert_eq!(db.get_poll(CHAT, POLL_MSG), Some(p));
    assert_eq!((p.chat_id, p.poll_id, p.message_id, p.message_user_id), (CHAT, POLL_MSG, TARGET, AUTHOR));
    assert_eq!((p.minimum_vote_count, p.vote_count_yes, p.vote_count_no), (3, 0, 0));
}

#[test]
fn settings_row_created_even_for_default_values() {
    let mut db = Database::new();
    set_vote_count(&mut db, CHAT, 5).unwrap();
    assert_eq!(db.get_chat_votes(CHAT), Some(5));
    let offered = vec!["en".to_string()];
    set_language(&mut db, CHAT + 1, "en", &offered).unwrap();
    assert_eq!(db.get_chat_locale(CHAT + 1), Some("en".to_string()));
}

#[test]
fn small_decisions() {
    let p = Poll {
        id: 1,
        chat_id: CHAT,
        poll_id: POLL_MSG,
        message_id: TARGET,
        message_user_id: AUTHOR,
        minimum_vote_count: 3,
        vote_count_yes: 3,
        vote_count_no: 2,
    };
    assert!(threshold_reached(&p, VoteType::Yes));
    assert!(!threshold_reached(&p, VoteType::No));
    let voter = Voter { id: 2, poll_id: 1, user_id: 5 };
    assert!(non_duplicate(&Some(p), &None));
    assert!(!non_duplicate(&Some(p), &Some(voter)));
    assert!(!non_duplicate(&None, &None));
    assert_eq!(fire_at(100, 5), 105);
    assert_eq!(fire_at(i64::MAX - 1, 5), i64::MAX);
    assert_eq!(fire_at(i64::MIN, -5), i64::MIN);
}
