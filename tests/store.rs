use delete_itt::store::{Database, StoreError};
use delete_itt::types::VoteType;

#[test]
fn poll_created_empty_and_found_by_message() {
    let mut db = Database::new();
    let id = db.create_poll(-100, 11, 10, 42, 5).unwrap();
    let p = db.get_poll(-100, 11).unwrap();
    assert_eq!(p.id, id);
    assert_eq!(p.message_id, 10);
    assert_eq!(p.message_user_id, 42);
    assert_eq!(p.minimum_vote_count, 5);
    assert_eq!((p.vote_count_yes, p.vote_count_no), (0, 0));
    assert!(db.get_poll(-100, 12).is_none());
    assert!(db.get_poll(-101, 11).is_none());
}

#[test]
fn second_poll_on_same_message_refused() {
    let mut db = Database::new();
    db.create_poll(-100, 11, 10, 42, 5).unwrap();
    assert_eq!(db.create_poll(-100, 11, 9, 43, 3), Err(StoreError::AlreadyExists));
}

#[test]
fn register_vote_counts_until_threshold() {
    let mut db = Database::new();
    let id = db.create_poll(-100, 11, 10, 42, 2).unwrap();
    assert!(db.register_vote(id, VoteType::Yes));
    assert!(db.register_vote(id, VoteType::No));
    assert!(db.register_vote(id, VoteType::Yes));
    let p = db.get_poll(-100, 11).unwrap();
    assert_eq!((p.vote_count_yes, p.vote_count_no), (2, 1));
    assert!(!db.register_vote(id, VoteType::No));
    assert!(!db.register_vote(id + 100, VoteType::Yes));
}

#[test]
fn voter_record_is_unique_per_poll_and_user() {
    let mut db = Database::new();
    let id = db.create_poll(-100, 11, 10, 42, 5).unwrap();
    let v = db.create_voter(id, 7).unwrap();
    assert_eq!(db.create_voter(id, 7), Err(StoreError::AlreadyExists));
    assert!(db.create_voter(id, 8).is_ok());
    let found = db.get_voter(id, 7).unwrap();
    assert_eq!((found.id, found.poll_id, found.user_id), (v, id, 7));
    assert!(db.get_voter(id, 9).is_none());
    assert!(db.remove_voter(v));
    assert!(!db.remove_voter(v));
    assert!(db.get_voter(id, 7).is_none());
}

#[test]
fn remove_voters_clears_one_poll_only() {
    let mut db = Database::new();
    let a = db.create_poll(-100, 11, 10, 42, 5).unwrap();
    let b = db.create_poll(-100, 21, 20, 43, 5).unwrap();
    db.create_voter(a, 1).unwrap();
    db.create_voter(a, 2).unwrap();
    db.create_voter(b, 1).unwrap();
    assert!(db.remove_voters(a));
    assert!(!db.remove_voters(a));
    assert!(db.get_voter(a, 1).is_none());
    assert!(db.get_voter(a, 2).is_none());
    assert!(db.get_voter(b, 1).is_some());
}

#[test]
fn remove_poll_by_id() {
    let mut db = Database::new();
    let a = db.create_poll(-100, 11, 10, 42, 5).unwrap();
    assert!(db.remove_poll(a));
    assert!(!db.remove_poll(a));
    assert!(db.get_poll(-100, 11).is_none());
}

#[test]
fn chat_settings_start_at_defaults() {
    let mut db = Database::new();
    assert_eq!(db.get_chat_votes(-100), None);
    assert!(!db.set_chat_votes(-100, 3));
    db.create_chat(-100).unwrap();
    assert_eq!(db.create_chat(-100), Err(StoreError::AlreadyExists));
    let c = db.get_chat(-100).unwrap();
    assert_eq!(c.chat_id, -100);
    assert_eq!(c.minimum_vote_count, 5);
    assert_eq!(c.locale, "en");
    assert_eq!(c.poll_delete_delay, 5);
    assert!(db.set_chat_votes(-100, 3));
    assert!(db.set_chat_locale(-100, "de"));
    assert!(db.set_chat_poll_delete_delay(-100, 30));
    assert_eq!(db.get_chat_votes(-100), Some(3));
    assert_eq!(db.get_chat_locale(-100), Some("de".to_string()));
    assert_eq!(db.get_chat_poll_delete_delay(-100), Some(30));
    assert!(db.remove_chat(-100));
    assert!(!db.remove_chat(-100));
    assert!(db.get_chat(-100).is_none());
}

#[test]
fn scheduled_deletions_due_by_time() {
    let mut db = Database::new();
    let a = db.schedule_message_delete(-100, 11, 1000).unwrap();
    let b = db.schedule_message_delete(-100, 12, 2000).unwrap();
    let due = db.get_pending_messages_to_delete(1500);
    assert_eq!(due.len(), 1);
    assert_eq!((due[0].id, due[0].message_id, due[0].timestamp), (a, 11, 1000));
    assert_eq!(db.get_pending_messages_to_delete(2000).len(), 2);
    assert!(db.remove_from_scheduled_delete(b));
    assert!(!db.remove_from_scheduled_delete(b));
    assert_eq!(db.get_pending_messages_to_delete(5000).len(), 1);
}

#[test]
fn ids_are_never_reused() {
    let mut db = Database::new();
    let a = db.create_poll(-100, 11, 10, 42, 5).unwrap();
    db.remove_poll(a);
    let b = db.create_poll(-100, 11, 10, 42, 5).unwrap();
    assert!(b > a);
    assert_eq!(db.next_id(), b + 1);
}

#[test]
fn fresh_store_starts_ids_at_one() {
    let mut db = Database::new();
    assert_eq!(db.next_id(), 1);
    assert_eq!(db.create_chat(-5), Ok(1));
}
