//! The vote protocol: counting, the duplicate guard, the threshold check and
//! resolution, and the defaults read from chat settings.

use vstd::prelude::*;

use crate::store::{
    lemma_filter_distinct, lemma_voters_on_push, lemma_voters_on_without, voters_on, Database, DbView, StoreError,
};
use crate::types::{
    MessageToDelete, Poll, VoteType, Voter, DEFAULT_DELETE_DELAY, DEFAULT_MIN_VOTES,
    MAX_THRESHOLD, MIN_THRESHOLD,
};

verus! {

broadcast use vstd::seq_lib::group_seq_properties;

/// What casting one vote came to.
#[derive(Clone, Copy, Debug, PartialEq, Eq, Structural)]
pub enum VoteOutcome {
    /// No poll is shown by that message.
    NoPoll,
    /// The user has voted on this poll already: nothing changed.
    Duplicate,
    /// The vote was counted and the poll stays open, now as `poll`.
    Counted { poll: Poll },
    /// The vote brought side `choice` to the threshold. The poll, last as
    /// `poll`, is gone with its voter records, and its message is queued for
    /// deletion at `fire_at`.
    Resolved { poll: Poll, choice: VoteType, fire_at: i64 },
}

/// Whether side `choice` of `p` has reached the threshold.
pub open spec fn reached(p: Poll, choice: VoteType) -> bool {
    choice.count_of(p) >= p.minimum_vote_count
}

/// `now + delay`, held within the range of `i64`.
pub open spec fn deadline(now: i64, delay: i64) -> i64 {
    let t = now + delay;
    if t > i64::MAX {
        i64::MAX
    } else if t < i64::MIN {
        i64::MIN
    } else {
        t as i64
    }
}

/// The threshold a new poll of chat `chat_id` gets: the chat's own, else five.
pub open spec fn threshold_of(v: DbView, chat_id: i64) -> i64 {
    match v.chat_at(chat_id) {
        Some(c) => c.minimum_vote_count,
        None => DEFAULT_MIN_VOTES,
    }
}

/// The seconds a resolved poll of chat `chat_id` stays up: the chat's own, else five.
pub open spec fn delay_of(v: DbView, chat_id: i64) -> i64 {
    match v.chat_at(chat_id) {
        Some(c) => c.poll_delete_delay,
        None => DEFAULT_DELETE_DELAY,
    }
}

/// The locale of chat `chat_id`: the chat's own, else `en`.
pub open spec fn locale_of(v: DbView, chat_id: i64) -> Seq<char> {
    match v.chat_at(chat_id) {
        Some(c) => c.locale,
        None => "en"@,
    }
}

/// Every stored poll is open, its two counts add up to the number of voter
/// records on it, and every voter record belongs to a stored poll.
pub open spec fn tallies_match(v: DbView) -> bool {
    &&& forall|i: int|
        0 <= i < v.polls.len() ==> {
            &&& (#[trigger] v.polls[i]).is_open()
            &&& v.polls[i].vote_count_yes + v.polls[i].vote_count_no == voters_on(
                v.voters,
                v.polls[i].id,
            ).len()
        }
    &&& forall|k: int| 0 <= k < v.voters.len() ==> v.has_poll_id(#[trigger] v.voters[k].poll_id)
}

/// Whether a vote on the poll shown by message `poll_id` of chat `chat_id`,
/// from a user who has not voted on it, would resolve it.
pub open spec fn vote_resolves(v: DbView, chat_id: i64, poll_id: i32, choice: VoteType) -> bool {
    match v.poll_at(chat_id, poll_id) {
        Some(p) => reached(p.with_vote(choice), choice),
        None => false,
    }
}

/// What a vote by `user_id` on side `choice` of the poll shown by message
/// `poll_id` of chat `chat_id`, cast at `now`, does to the store, and what it
/// comes to. A vote is counted and recorded together; where it brings its side
/// to the threshold, the poll and its records go and its message is queued for
/// deletion after the chat's delay.
pub open spec fn vote_step(
    v: DbView,
    chat_id: i64,
    poll_id: i32,
    user_id: i64,
    choice: VoteType,
    now: i64,
) -> (DbView, VoteOutcome) {
    match v.poll_at(chat_id, poll_id) {
        None => (v, VoteOutcome::NoPoll),
        Some(p) => if v.has_voter(p.id, user_id) {
            (v, VoteOutcome::Duplicate)
        } else {
            let q = p.with_vote(choice);
            let i = v.poll_index(p.id);
            if reached(q, choice) {
                let at = deadline(now, delay_of(v, chat_id));
                (
                    DbView {
                        polls: v.polls.remove(i),
                        voters: v.voters.filter(|w: Voter| w.poll_id != p.id),
                        scheduled: v.scheduled.push(
                            MessageToDelete {
                                id: (v.next_id + 1) as i64,
                                chat_id,
                                message_id: poll_id,
                                timestamp: at,
                            },
                        ),
                        next_id: (v.next_id + 2) as i64,
                        ..v
                    },
                    VoteOutcome::Resolved { poll: q, choice, fire_at: at },
                )
            } else {
                (
                    DbView {
                        polls: v.polls.update(i, q),
                        voters: v.voters.push(Voter { id: v.next_id, poll_id: p.id, user_id }),
                        next_id: (v.next_id + 1) as i64,
                        ..v
                    },
                    VoteOutcome::Counted { poll: q },
                )
            }
        },
    }
}

/// Whether the vote would need two more row ids than the store has left.
pub open spec fn vote_lacks_ids(v: DbView, chat_id: i64, poll_id: i32, user_id: i64) -> bool {
    &&& v.poll_at(chat_id, poll_id) is Some
    &&& !v.has_voter(v.poll_at(chat_id, poll_id)->Some_0.id, user_id)
    &&& v.next_id >= i64::MAX - 1
}

/// The poll found by its key is the one found by its row id.
proof fn lemma_poll_at_index(v: DbView, chat_id: i64, poll_id: i32)
    requires
        v.wf(),
        v.poll_at(chat_id, poll_id) is Some,
    ensures
        v.has_poll_id(v.poll_at(chat_id, poll_id)->Some_0.id),
        0 <= v.poll_index(v.poll_at(chat_id, poll_id)->Some_0.id) < v.polls.len(),
        v.polls[v.poll_index(v.poll_at(chat_id, poll_id)->Some_0.id)] == v.poll_at(
            chat_id,
            poll_id,
        )->Some_0,
{
    let j = choose|j: int|
        0 <= j < v.polls.len() && v.polls[j].chat_id == chat_id && v.polls[j].poll_id == poll_id;
    let p = v.polls[j];
    assert(v.has_poll_id(p.id));
    let k = v.poll_index(p.id);
    if k != j {
        assert(v.polls[k].id != v.polls[j].id);
    }
}

/// Counting a vote keeps every poll's tally equal to its voter records, and
/// the store well formed: no vote is lost and none is counted twice.
pub proof fn lemma_vote_keeps_tallies(
    v: DbView,
    chat_id: i64,
    poll_id: i32,
    user_id: i64,
    choice: VoteType,
    now: i64,
)
    requires
        v.wf(),
        tallies_match(v),
        !vote_lacks_ids(v, chat_id, poll_id, user_id),
    ensures
        vote_step(v, chat_id, poll_id, user_id, choice, now).0.wf(),
        tallies_match(vote_step(v, chat_id, poll_id, user_id, choice, now).0),
{
    let w = vote_step(v, chat_id, poll_id, user_id, choice, now).0;
    if let Some(p) = v.poll_at(chat_id, poll_id) {
        if !v.has_voter(p.id, user_id) {
            lemma_poll_at_index(v, chat_id, poll_id);
            let i = v.poll_index(p.id);
            let q = p.with_vote(choice);
            assert(p.is_open());
            if reached(q, choice) {
                let pred = |x: Voter| x.poll_id != p.id;
                assert forall|k: int| 0 <= k < w.polls.len() implies {
                    &&& (#[trigger] w.polls[k]).is_open()
                    &&& w.polls[k].vote_count_yes + w.polls[k].vote_count_no == voters_on(
                        w.voters,
                        w.polls[k].id,
                    ).len()
                } by {
                    let k2 = if k < i { k } else { k + 1 };
                    assert(w.polls[k] == v.polls[k2]);
                    assert(v.polls[k2].id != v.polls[i].id);
                    lemma_voters_on_without(v.voters, p.id, v.polls[k2].id);
                }
                assert forall|k: int| 0 <= k < w.polls.len() implies {
                    &&& 1 <= #[trigger] w.polls[k].id < w.next_id
                    &&& w.polls[k].counts_valid()
                } by {
                    let k2 = if k < i { k } else { k + 1 };
                    assert(w.polls[k] == v.polls[k2]);
                }
                assert forall|a: int, b: int|
                    #![trigger w.polls[a], w.polls[b]]
                    0 <= a < w.polls.len() && 0 <= b < w.polls.len() && a != b implies {
                        &&& w.polls[a].id != w.polls[b].id
                        &&& (w.polls[a].chat_id != w.polls[b].chat_id || w.polls[a].poll_id
                            != w.polls[b].poll_id)
                    } by {
                        let a2 = if a < i { a } else { a + 1 };
                        let b2 = if b < i { b } else { b + 1 };
                        assert(w.polls[a] == v.polls[a2]);
                        assert(w.polls[b] == v.polls[b2]);
                    }
                lemma_filter_distinct(v.voters, pred);
                assert forall|k: int|
                    #![trigger w.voters[k]]
                    0 <= k < w.voters.len() implies {
                    &&& 1 <= w.voters[k].id < w.next_id
                    &&& w.has_poll_id(w.voters[k].poll_id)
                } by {
                    assert(v.voters.contains(w.voters[k]));
                    let j = choose|j: int| 0 <= j < v.voters.len() && v.voters[j] == w.voters[k];
                    assert(v.has_poll_id(v.voters[j].poll_id));
                    v.voters.lemma_filter_pred(pred, k);
                    let m = choose|m: int|
                        0 <= m < v.polls.len() && v.polls[m].id == v.voters[j].poll_id;
                    assert(m != i);
                    let m2 = if m < i { m } else { m - 1 };
                    assert(w.polls[m2] == v.polls[m]);
                }
                assert forall|k: int| 0 <= k < w.scheduled.len() implies 1
                    <= #[trigger] w.scheduled[k].id < w.next_id by {
                    if k < v.scheduled.len() {
                        assert(w.scheduled[k] == v.scheduled[k]);
                    }
                }
                assert forall|a: int, b: int|
                    #![trigger w.scheduled[a], w.scheduled[b]]
                    0 <= a < w.scheduled.len() && 0 <= b < w.scheduled.len() && a != b
                        implies w.scheduled[a].id != w.scheduled[b].id by {
                    if a < v.scheduled.len() && b < v.scheduled.len() {
                        assert(v.scheduled[a].id != v.scheduled[b].id);
                    } else if a < v.scheduled.len() {
                        assert(v.scheduled[a].id < v.next_id);
                    } else if b < v.scheduled.len() {
                        assert(v.scheduled[b].id < v.next_id);
                    }
                }
                assert forall|k: int| 0 <= k < w.chats.len() implies 1
                    <= #[trigger] w.chats[k].id < w.next_id by {
                    assert(v.chats[k].id < v.next_id);
                }
            } else {
                let nv = Voter { id: v.next_id, poll_id: p.id, user_id };
                assert forall|k: int| 0 <= k < w.polls.len() implies {
                    &&& (#[trigger] w.polls[k]).is_open()
                    &&& w.polls[k].vote_count_yes + w.polls[k].vote_count_no == voters_on(
                        w.voters,
                        w.polls[k].id,
                    ).len()
                    &&& 1 <= w.polls[k].id < w.next_id
                    &&& w.polls[k].counts_valid()
                } by {
                    lemma_voters_on_push(v.voters, nv, v.polls[k].id);
                    if k != i {
                        assert(v.polls[k].id != v.polls[i].id);
                    }
                }
                assert forall|a: int, b: int|
                    #![trigger w.polls[a], w.polls[b]]
                    0 <= a < w.polls.len() && 0 <= b < w.polls.len() && a != b implies {
                        &&& w.polls[a].id != w.polls[b].id
                        &&& (w.polls[a].chat_id != w.polls[b].chat_id || w.polls[a].poll_id
                            != w.polls[b].poll_id)
                    } by {
                        assert(v.polls[a].id != v.polls[b].id);
                    }
                assert forall|k: int|
                    #![trigger w.voters[k]]
                    0 <= k < w.voters.len() implies {
                    &&& 1 <= w.voters[k].id < w.next_id
                    &&& w.has_poll_id(w.voters[k].poll_id)
                } by {
                    if k < v.voters.len() {
                        assert(w.voters[k] == v.voters[k]);
                        assert(v.has_poll_id(v.voters[k].poll_id));
                        let m = choose|m: int|
                            0 <= m < v.polls.len() && v.polls[m].id == v.voters[k].poll_id;
                        assert(w.polls[m].id == v.polls[m].id);
                    } else {
                        assert(w.polls[i].id == p.id);
                    }
                }
                assert forall|a: int, b: int|
                    #![trigger w.voters[a], w.voters[b]]
                    0 <= a < w.voters.len() && 0 <= b < w.voters.len() && a != b implies {
                        &&& w.voters[a].id != w.voters[b].id
                        &&& (w.voters[a].poll_id != w.voters[b].poll_id || w.voters[a].user_id
                            != w.voters[b].user_id)
                    } by {
                        if a < v.voters.len() && b < v.voters.len() {
                            assert(v.voters[a].id != v.voters[b].id);
                        } else if a < v.voters.len() {
                            assert(v.voters[a].id < v.next_id);
                            assert(!(v.voters[a].poll_id == p.id && v.voters[a].user_id == user_id));
                        } else if b < v.voters.len() {
                            assert(v.voters[b].id < v.next_id);
                            assert(!(v.voters[b].poll_id == p.id && v.voters[b].user_id == user_id));
                        }
                    }
                assert forall|k: int| 0 <= k < w.chats.len() implies 1
                    <= #[trigger] w.chats[k].id < w.next_id by {
                    assert(v.chats[k].id < v.next_id);
                }
                assert forall|k: int| 0 <= k < w.scheduled.len() implies 1
                    <= #[trigger] w.scheduled[k].id < w.next_id by {
                    assert(v.scheduled[k].id < v.next_id);
                }
            }
        }
    }
}

/// The threshold a new poll of chat `chat_id` gets: the chat's own, else five.
pub fn poll_threshold(db: &Database, chat_id: i64) -> (r: i64)
    requires
        db@.wf(),
    ensures
        r == threshold_of(db@, chat_id),
        MIN_THRESHOLD <= r <= MAX_THRESHOLD,
{
    match db.get_chat_votes(chat_id) {
        Some(n) => {
            proof {
                let k = db@.chat_index(chat_id);
                assert(0 <= k < db@.chats.len());
                assert(1 <= db@.chats[k].id);
            }
            n
        },
        None => DEFAULT_MIN_VOTES,
    }
}

/// The seconds a resolved poll of chat `chat_id` stays up: the chat's own, else five.
pub fn get_poll_delete_delay(db: &Database, chat_id: i64) -> (r: i64)
    requires
        db@.wf(),
    ensures
        r == delay_of(db@, chat_id),
        0 <= r,
{
    match db.get_chat_poll_delete_delay(chat_id) {
        Some(d) => {
            proof {
                let k = db@.chat_index(chat_id);
                assert(0 <= k < db@.chats.len());
                assert(1 <= db@.chats[k].id);
            }
            d
        },
        None => DEFAULT_DELETE_DELAY,
    }
}

/// The locale of chat `chat_id`: the chat's own, else `en`.
pub fn get_locale(db: &Database, chat_id: i64) -> (r: String)
    requires
        db@.wf(),
    ensures
        r@ == locale_of(db@, chat_id),
{
    match db.get_chat_locale(chat_id) {
        Some(l) => l,
        None => String::from_str("en"),
    }
}

/// Whether side `choice` of `poll` has reached its threshold.
pub fn threshold_reached(poll: &Poll, choice: VoteType) -> (r: bool)
    ensures
        r == reached(*poll, choice),
{
    match choice {
        VoteType::Yes => poll.vote_count_yes >= poll.minimum_vote_count,
        VoteType::No => poll.vote_count_no >= poll.minimum_vote_count,
    }
}

/// The moment `delay` seconds after `now`, held within the range of `i64`.
pub fn fire_at(now: i64, delay: i64) -> (r: i64)
    ensures
        r == deadline(now, delay),
{
    let t: i128 = now as i128 + delay as i128;
    if t > i64::MAX as i128 {
        i64::MAX
    } else if t < i64::MIN as i128 {
        i64::MIN
    } else {
        t as i64
    }
}

/// Whether a vote should go ahead: the message shows a poll, and the user
/// has no voter record on it.
pub fn non_duplicate(poll: &Option<Poll>, voter: &Option<Voter>) -> (r: bool)
    ensures
        r == (poll is Some && voter is None),
{
    poll.is_some() && voter.is_none()
}

/// Casts a vote by `user_id` on side `choice` of the poll shown by message
/// `poll_id` of chat `chat_id`, at `now` (seconds since the epoch).
///
/// The vote is checked against the user's earlier votes, counted, recorded,
/// and the fresh count compared with the threshold fixed when the poll was
/// opened; the outcome and the new store are those of `vote_step`. Refused,
/// with nothing changed, only where the store has no row ids left for it.
pub fn cast_vote(
    db: &mut Database,
    chat_id: i64,
    poll_id: i32,
    user_id: i64,
    choice: VoteType,
    now: i64,
) -> (r: Result<VoteOutcome, StoreError>)
    requires
        old(db)@.wf(),
        tallies_match(old(db)@),
    ensures
        final(db)@.wf(),
        tallies_match(final(db)@),
        vote_lacks_ids(old(db)@, chat_id, poll_id, user_id) ==> r == Err::<
            VoteOutcome,
            StoreError,
        >(StoreError::IdsExhausted) && final(db)@ == old(db)@,
        !vote_lacks_ids(old(db)@, chat_id, poll_id, user_id) ==> {
            &&& r == Ok::<VoteOutcome, StoreError>(
                vote_step(old(db)@, chat_id, poll_id, user_id, choice, now).1,
            )
            &&& final(db)@ == vote_step(old(db)@, chat_id, poll_id, user_id, choice, now).0
        },
{
    let ghost v = db@;
    let p = match db.get_poll(chat_id, poll_id) {
        None => {
            return Ok(VoteOutcome::NoPoll);
        },
        Some(p) => p,
    };
    let voter = db.get_voter(p.id, user_id);
    if !non_duplicate(&Some(p), &voter) {
        return Ok(VoteOutcome::Duplicate);
    }
    if db.next_id() >= i64::MAX - 1 {
        return Err(StoreError::IdsExhausted);
    }
    proof {
        lemma_poll_at_index(v, chat_id, poll_id);
        lemma_vote_keeps_tallies(v, chat_id, poll_id, user_id, choice, now);
    }
    let ghost i = v.poll_index(p.id);
    let ghost q = p.with_vote(choice);
    let counted = db.register_vote(p.id, choice);
    assert(counted);
    let ghost v1 = db@;
    assert(v1.polls[i] == q);
    assert(v1.has_poll_id(p.id));
    let recorded = db.create_voter(p.id, user_id);
    assert(recorded is Ok);
    let ghost v2 = db@;
    assert(v2.polls[i].chat_id == chat_id && v2.polls[i].poll_id == poll_id);
    let fresh = db.get_poll(chat_id, poll_id).unwrap();
    proof {
        let j = choose|j: int|
            0 <= j < v2.polls.len() && v2.polls[j].chat_id == chat_id && v2.polls[j].poll_id
                == poll_id;
        if j != i {
            assert(v2.polls[j].chat_id != v2.polls[i].chat_id || v2.polls[j].poll_id
                != v2.polls[i].poll_id);
        }
        assert(fresh == q);
    }
    if threshold_reached(&fresh, choice) {
        let delay = get_poll_delete_delay(db, chat_id);
        db.remove_voters(p.id);
        let ghost v3 = db@;
        proof {
            let pred = |w: Voter| w.poll_id != p.id;
            v.voters.lemma_filter_push(Voter { id: v.next_id, poll_id: p.id, user_id }, pred);
            assert(v3.voters == v.voters.filter(pred));
            assert(v3.polls[i].id == p.id);
            let k = v3.poll_index(p.id);
            if k != i {
                assert(v3.polls[k].id != v3.polls[i].id);
            }
        }
        db.remove_poll(p.id);
        assert(db@.polls =~= v.polls.remove(i));
        let at = fire_at(now, delay);
        let scheduled = db.schedule_message_delete(chat_id, poll_id, at);
        assert(scheduled is Ok);
        Ok(VoteOutcome::Resolved { poll: fresh, choice, fire_at: at })
    } else {
        Ok(VoteOutcome::Counted { poll: fresh })
    }
}

/// Why no poll is opened on a message.
#[derive(Clone, Copy, Debug, PartialEq, Eq, Structural)]
pub enum PollRefusal {
    /// The request answers no message, or one without a known author.
    NoTarget,
    /// The message was posted anonymously or on behalf of a channel.
    AnonymousAuthor,
    /// The message's author is an owner or administrator of the chat.
    PrivilegedAuthor,
}

/// What is known of the author of a message put up for deletion.
#[derive(Clone, Copy, Debug, PartialEq, Eq, Structural)]
pub struct TargetAuthor {
    pub is_anonymous: bool,
    pub is_channel: bool,
    pub is_privileged: bool,
}

/// Why opening a poll failed.
#[derive(Clone, Copy, Debug, PartialEq, Eq, Structural)]
pub enum OpenError {
    /// The message may not be put to a vote.
    Refused(PollRefusal),
    /// The store turned the new poll down.
    Store(StoreError),
}

/// Why a poll may not be opened on a message whose author is `author`
/// (`None` where there is no such message or author), if it may not.
pub open spec fn refusal_of(author: Option<TargetAuthor>) -> Option<PollRefusal> {
    match author {
        None => Some(PollRefusal::NoTarget),
        Some(a) => if a.is_anonymous || a.is_channel {
            Some(PollRefusal::AnonymousAuthor)
        } else if a.is_privileged {
            Some(PollRefusal::PrivilegedAuthor)
        } else {
            None
        },
    }
}

/// Whether a poll may be opened on a message whose author is `author`
/// (`None` where there is no such message or author). Anonymous and channel
/// posts cannot be put to a vote, nor can those of the chat's owners and
/// administrators.
pub fn check_poll_request(author: Option<TargetAuthor>) -> (r: Result<(), PollRefusal>)
    ensures
        r == match refusal_of(author) {
            Some(e) => Err(e),
            None => Ok(()),
        },
{
    match author {
        None => Err(PollRefusal::NoTarget),
        Some(a) => {
            if a.is_anonymous || a.is_channel {
                Err(PollRefusal::AnonymousAuthor)
            } else if a.is_privileged {
                Err(PollRefusal::PrivilegedAuthor)
            } else {
                Ok(())
            }
        },
    }
}

/// Opens a poll on message `message_id` by `message_user_id` (of whom
/// `author` tells what is known), shown by message `poll_id` of chat
/// `chat_id`, with no votes and the chat's threshold as it stands now, and
/// hands the new poll back.
///
/// Refused, with nothing changed, where the message may not be put to a vote
/// (`check_poll_request`), where that chat's message already shows a poll, or
/// where no row id is left; opened in every other case.
pub fn setup_poll(
    db: &mut Database,
    chat_id: i64,
    poll_id: i32,
    message_id: i32,
    message_user_id: i64,
    author: Option<TargetAuthor>,
) -> (r: Result<Poll, OpenError>)
    requires
        old(db)@.wf(),
        tallies_match(old(db)@),
    ensures
        final(db)@.wf(),
        tallies_match(final(db)@),
        refusal_of(author) is Some ==> r == Err::<Poll, OpenError>(
            OpenError::Refused(refusal_of(author)->Some_0),
        ),
        refusal_of(author) is None && old(db)@.has_poll(chat_id, poll_id) ==> r == Err::<
            Poll,
            OpenError,
        >(OpenError::Store(StoreError::AlreadyExists)),
        refusal_of(author) is None && !old(db)@.has_poll(chat_id, poll_id) && old(db)@.next_id
            == i64::MAX ==> r == Err::<Poll, OpenError>(OpenError::Store(StoreError::IdsExhausted)),
        r is Ok <==> refusal_of(author) is None && !old(db)@.has_poll(chat_id, poll_id) && old(
            db,
        )@.next_id < i64::MAX,
        r is Err ==> final(db)@ == old(db)@,
        r is Ok ==> {
            let p = Poll {
                id: old(db)@.next_id,
                chat_id,
                poll_id,
                message_id,
                message_user_id,
                minimum_vote_count: threshold_of(old(db)@, chat_id),
                vote_count_yes: 0,
                vote_count_no: 0,
            };
            &&& r == Ok::<Poll, OpenError>(p)
            &&& final(db)@ == (DbView {
                polls: old(db)@.polls.push(p),
                next_id: (old(db)@.next_id + 1) as i64,
                ..old(db)@
            })
            &&& final(db)@.poll_at(chat_id, poll_id) == Some(p)
        },
{
    if let Err(e) = check_poll_request(author) {
        return Err(OpenError::Refused(e));
    }
    let threshold = poll_threshold(db, chat_id);
    let ghost v = db@;
    match db.create_poll(chat_id, poll_id, message_id, message_user_id, threshold) {
        Err(e) => Err(OpenError::Store(e)),
        Ok(id) => {
            let p = Poll {
                id,
                chat_id,
                poll_id,
                message_id,
                message_user_id,
                minimum_vote_count: threshold,
                vote_count_yes: 0,
                vote_count_no: 0,
            };
            proof {
                let w = db@;
                let n = v.polls.len() as int;
                assert(w.polls[n] == p);
                assert forall|k: int| 0 <= k < v.voters.len() implies (#[trigger] v.voters[k]).poll_id
                    < v.next_id by {
                    assert(v.has_poll_id(v.voters[k].poll_id));
                    let m = choose|m: int|
                        0 <= m < v.polls.len() && v.polls[m].id == v.voters[k].poll_id;
                    assert(v.polls[m].id < v.next_id);
                }
                lemma_no_voters_on_new(v.voters, v.next_id);
                assert forall|k: int| 0 <= k < w.polls.len() implies {
                    &&& (#[trigger] w.polls[k]).is_open()
                    &&& w.polls[k].vote_count_yes + w.polls[k].vote_count_no == voters_on(
                        w.voters,
                        w.polls[k].id,
                    ).len()
                } by {
                    if k < n {
                        assert(w.polls[k] == v.polls[k]);
                    }
                }
                assert forall|k: int| 0 <= k < w.voters.len() implies w.has_poll_id(
                    #[trigger] w.voters[k].poll_id,
                ) by {
                    assert(v.has_poll_id(v.voters[k].poll_id));
                    let m = choose|m: int|
                        0 <= m < v.polls.len() && v.polls[m].id == v.voters[k].poll_id;
                    assert(w.polls[m] == v.polls[m]);
                }
                let j = choose|j: int|
                    0 <= j < w.polls.len() && w.polls[j].chat_id == chat_id && w.polls[j].poll_id
                        == poll_id;
                if j != n {
                    assert(w.polls[j].chat_id != w.polls[n].chat_id || w.polls[j].poll_id
                        != w.polls[n].poll_id);
                }
            }
            Ok(p)
        },
    }
}

/// No voter record refers to an id that no poll has had yet.
proof fn lemma_no_voters_on_new(s: Seq<Voter>, next_id: i64)
    requires
        forall|i: int| 0 <= i < s.len() ==> (#[trigger] s[i]).poll_id < next_id,
    ensures
        voters_on(s, next_id) == Seq::<i64>::empty(),
    decreases s.len(),
{
    if s.len() > 0 {
        let r = s.drop_last();
        assert forall|i: int| 0 <= i < r.len() implies (#[trigger] r[i]).poll_id < next_id by {
            assert(r[i] == s[i]);
        }
        lemma_no_voters_on_new(r, next_id);
    }
}

} // verus!
