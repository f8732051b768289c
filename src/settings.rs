//! Changing chat settings.

use vstd::prelude::*;

use crate::engine::{delay_of, locale_of, tallies_match, threshold_of};
use crate::store::{default_locale, Database, DbView, StoreError};
use crate::types::{ChatView, DEFAULT_DELETE_DELAY, DEFAULT_MIN_VOTES, MAX_THRESHOLD, MIN_THRESHOLD};

verus! {

/// Why a change of a chat's settings was turned down.
#[derive(Clone, Copy, Debug, PartialEq, Eq, Structural)]
pub enum SettingsError {
    /// A threshold outside one to ten.
    CountOutOfRange,
    /// A locale that is not among those offered.
    UnknownLocale,
    /// The store turned the write down.
    Store(StoreError),
}

/// `w` differs from `v` in the settings of chat `chat_id` alone.
pub open spec fn only_chat_changed(v: DbView, w: DbView, chat_id: i64) -> bool {
    &&& w.polls == v.polls
    &&& w.voters == v.voters
    &&& w.scheduled == v.scheduled
    &&& forall|c: i64| c != chat_id ==> #[trigger] w.chat_at(c) == v.chat_at(c)
}

/// Replacing the settings of one chat leaves every other chat's as they were.
proof fn lemma_with_chat_others(v: DbView, chat_id: i64, c: ChatView)
    requires
        v.wf(),
        v.has_chat(chat_id),
        c.chat_id == chat_id,
    ensures
        forall|o: i64| o != chat_id ==> #[trigger] v.with_chat(chat_id, c).chat_at(o) == v.chat_at(o),
        v.with_chat(chat_id, c).chat_at(chat_id) == Some(c),
{
    let w = v.with_chat(chat_id, c);
    let i = v.chat_index(chat_id);
    assert(w.chats[i].chat_id == chat_id);
    let j = w.chat_index(chat_id);
    if j != i {
        assert(v.chats[j].chat_id != v.chats[i].chat_id);
    }
    assert forall|o: i64| o != chat_id implies #[trigger] w.chat_at(o) == v.chat_at(o) by {
        if v.has_chat(o) {
            let k = v.chat_index(o);
            assert(k != i);
            assert(w.chats[k].chat_id == o);
            let m = w.chat_index(o);
            if m != k {
                assert(v.chats[m].chat_id != v.chats[k].chat_id);
            }
        } else {
            if w.has_chat(o) {
                let m = w.chat_index(o);
                assert(m != i);
                assert(v.chats[m].chat_id == o);
            }
        }
    }
}

/// Adding the settings of a new chat leaves every other chat's as they were.
proof fn lemma_push_chat_others(v: DbView, w: DbView, c: ChatView)
    requires
        v.wf(),
        !v.has_chat(c.chat_id),
        w.chats == v.chats.push(c),
    ensures
        forall|o: i64| o != c.chat_id ==> #[trigger] w.chat_at(o) == v.chat_at(o),
        w.chat_at(c.chat_id) == Some(c),
{
    let n = v.chats.len() as int;
    assert(w.chats[n] == c);
    let j = w.chat_index(c.chat_id);
    if j != n {
        assert(v.chats[j].chat_id == c.chat_id);
    }
    assert forall|o: i64| o != c.chat_id implies #[trigger] w.chat_at(o) == v.chat_at(o) by {
        if v.has_chat(o) {
            let k = v.chat_index(o);
            assert(w.chats[k].chat_id == o);
            let m = w.chat_index(o);
            if m != k {
                if m < n {
                    assert(v.chats[m].chat_id != v.chats[k].chat_id);
                }
            }
        } else {
            if w.has_chat(o) {
                let m = w.chat_index(o);
                if m < n {
                    assert(v.chats[m].chat_id == o);
                }
            }
        }
    }
}

/// Makes sure chat `chat_id` has settings, adding the defaults where it has none.
fn ensure_chat(db: &mut Database, chat_id: i64) -> (r: Result<(), StoreError>)
    requires
        old(db)@.wf(),
    ensures
        final(db)@.wf(),
        r is Ok <==> old(db)@.has_chat(chat_id) || old(db)@.next_id < i64::MAX,
        r is Err ==> r == Err::<(), StoreError>(StoreError::IdsExhausted) && final(db)@ == old(
            db,
        )@,
        r is Ok ==> {
            &&& final(db)@.has_chat(chat_id)
            &&& only_chat_changed(old(db)@, final(db)@, chat_id)
            &&& final(db)@.next_id == if old(db)@.has_chat(chat_id) {
                old(db)@.next_id
            } else {
                (old(db)@.next_id + 1) as i64
            }
            &&& threshold_of(final(db)@, chat_id) == threshold_of(old(db)@, chat_id)
            &&& locale_of(final(db)@, chat_id) == locale_of(old(db)@, chat_id)
            &&& delay_of(final(db)@, chat_id) == delay_of(old(db)@, chat_id)
        },
{
    match db.get_chat_votes(chat_id) {
        Some(_) => {
            proof {
                assert(0 <= db@.chat_index(chat_id) < db@.chats.len());
            }
            Ok(())
        },
        None => {
            let ghost v = db@;
            match db.create_chat(chat_id) {
                Ok(_) => {
                    proof {
                        let c = ChatView {
                            id: v.next_id,
                            chat_id,
                            minimum_vote_count: DEFAULT_MIN_VOTES,
                            locale: default_locale(),
                            poll_delete_delay: DEFAULT_DELETE_DELAY,
                        };
                        lemma_push_chat_others(v, db@, c);
                    }
                    Ok(())
                },
                Err(e) => Err(e),
            }
        },
    }
}

/// Sets the threshold of chat `chat_id` to `count`, adding settings for the
/// chat where it has none. A count outside one to ten is turned down before
/// anything changes. Polls already open keep the threshold they were opened with.
pub fn set_vote_count(db: &mut Database, chat_id: i64, count: i64) -> (r: Result<(), SettingsError>)
    requires
        old(db)@.wf(),
        tallies_match(old(db)@),
    ensures
        final(db)@.wf(),
        tallies_match(final(db)@),
        !(MIN_THRESHOLD <= count <= MAX_THRESHOLD) ==> r == Err::<(), SettingsError>(
            SettingsError::CountOutOfRange,
        ),
        MIN_THRESHOLD <= count <= MAX_THRESHOLD && !old(db)@.has_chat(chat_id) && old(db)@.next_id
            == i64::MAX ==> r == Err::<(), SettingsError>(
            SettingsError::Store(StoreError::IdsExhausted),
        ),
        r is Ok <==> MIN_THRESHOLD <= count <= MAX_THRESHOLD && (old(db)@.has_chat(chat_id) || old(
            db,
        )@.next_id < i64::MAX),
        r is Err ==> final(db)@ == old(db)@,
        r is Ok ==> {
            &&& final(db)@.has_chat(chat_id)
            &&& only_chat_changed(old(db)@, final(db)@, chat_id)
            &&& final(db)@.next_id == if old(db)@.has_chat(chat_id) {
                old(db)@.next_id
            } else {
                (old(db)@.next_id + 1) as i64
            }
            &&& threshold_of(final(db)@, chat_id) == count
            &&& locale_of(final(db)@, chat_id) == locale_of(old(db)@, chat_id)
            &&& delay_of(final(db)@, chat_id) == delay_of(old(db)@, chat_id)
        },
{
    if count < MIN_THRESHOLD || count > MAX_THRESHOLD {
        return Err(SettingsError::CountOutOfRange);
    }
    match ensure_chat(db, chat_id) {
        Err(e) => Err(SettingsError::Store(e)),
        Ok(()) => {
            let ghost v = db@;
            db.set_chat_votes(chat_id, count);
            proof {
                let c = ChatView { minimum_vote_count: count, ..v.chats[v.chat_index(chat_id)] };
                lemma_with_chat_others(v, chat_id, c);
            }
            Ok(())
        },
    }
}

/// Whether `lang` is among `locales`.
fn is_offered(lang: &str, locales: &Vec<String>) -> (r: bool)
    ensures
        r == exists|i: int| 0 <= i < locales@.len() && (#[trigger] locales@[i])@ == lang@,
{
    let wanted = String::from_str(lang);
    let mut i: usize = 0;
    while i < locales.len()
        invariant
            i <= locales@.len(),
            wanted@ == lang@,
            forall|k: int| 0 <= k < i ==> (#[trigger] locales@[k])@ != lang@,
        decreases locales@.len() - i,
    {
        if locales[i].eq(&wanted) {
            return true;
        }
        i = i + 1;
    }
    false
}

/// Sets the locale of chat `chat_id` to `lang`, adding settings for the chat
/// where it has none. A locale that is not among `locales` is turned down
/// before anything changes.
pub fn set_language(db: &mut Database, chat_id: i64, lang: &str, locales: &Vec<String>) -> (r:
    Result<(), SettingsError>)
    requires
        old(db)@.wf(),
        tallies_match(old(db)@),
    ensures
        final(db)@.wf(),
        tallies_match(final(db)@),
        !(exists|i: int| 0 <= i < locales@.len() && (#[trigger] locales@[i])@ == lang@) ==> r
            == Err::<(), SettingsError>(SettingsError::UnknownLocale),
        (exists|i: int| 0 <= i < locales@.len() && (#[trigger] locales@[i])@ == lang@)
            && !old(db)@.has_chat(chat_id) && old(db)@.next_id == i64::MAX ==> r == Err::<
            (),
            SettingsError,
        >(SettingsError::Store(StoreError::IdsExhausted)),
        r is Ok <==> (exists|i: int| 0 <= i < locales@.len() && (#[trigger] locales@[i])@ == lang@)
            && (old(db)@.has_chat(chat_id) || old(db)@.next_id < i64::MAX),
        r is Err ==> final(db)@ == old(db)@,
        r is Ok ==> {
            &&& final(db)@.has_chat(chat_id)
            &&& only_chat_changed(old(db)@, final(db)@, chat_id)
            &&& final(db)@.next_id == if old(db)@.has_chat(chat_id) {
                old(db)@.next_id
            } else {
                (old(db)@.next_id + 1) as i64
            }
            &&& locale_of(final(db)@, chat_id) == lang@
            &&& threshold_of(final(db)@, chat_id) == threshold_of(old(db)@, chat_id)
            &&& delay_of(final(db)@, chat_id) == delay_of(old(db)@, chat_id)
        },
{
    if !is_offered(lang, locales) {
        return Err(SettingsError::UnknownLocale);
    }
    match ensure_chat(db, chat_id) {
        Err(e) => Err(SettingsError::Store(e)),
        Ok(()) => {
            let ghost v = db@;
            db.set_chat_locale(chat_id, lang);
            proof {
                let c = ChatView { locale: lang@, ..v.chats[v.chat_index(chat_id)] };
                lemma_with_chat_others(v, chat_id, c);
            }
            Ok(())
        },
    }
}

} // verus!
