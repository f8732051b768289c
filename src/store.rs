//! The store: polls, voter records, chat settings and the queue of deletions.

use vstd::prelude::*;

use crate::types::{
    Chat, ChatView, MessageToDelete, Poll, VoteType, Voter, DEFAULT_DELETE_DELAY,
    DEFAULT_MIN_VOTES, MAX_THRESHOLD, MIN_THRESHOLD,
};

verus! {

broadcast use vstd::seq_lib::group_seq_properties;

/// Why the store turned a write down.
#[derive(Clone, Copy, Debug, PartialEq, Eq, Structural)]
pub enum StoreError {
    /// A row with the same key is already there.
    AlreadyExists,
    /// Every row id has been handed out.
    IdsExhausted,
}

/// The four record sets of the store: polls, voter records, chat settings and
/// scheduled deletions. Every row id is taken from one counter and never reused.
pub struct Database {
    polls: Vec<Poll>,
    voters: Vec<Voter>,
    chats: Vec<Chat>,
    scheduled: Vec<MessageToDelete>,
    next_id: i64,
}

/// What the store holds, as plain values.
pub ghost struct DbView {
    pub polls: Seq<Poll>,
    pub voters: Seq<Voter>,
    pub chats: Seq<ChatView>,
    pub scheduled: Seq<MessageToDelete>,
    pub next_id: i64,
}

impl View for Database {
    type V = DbView;

    closed spec fn view(&self) -> DbView {
        DbView {
            polls: self.polls@,
            voters: self.voters@,
            chats: self.chats@.map_values(|c: Chat| c@),
            scheduled: self.scheduled@,
            next_id: self.next_id,
        }
    }
}

/// The users recorded as having voted on poll `poll_id`, in the order of the records.
pub open spec fn voters_on(s: Seq<Voter>, poll_id: i64) -> Seq<i64>
    decreases s.len(),
{
    if s.len() == 0 {
        Seq::empty()
    } else {
        let rest = voters_on(s.drop_last(), poll_id);
        if s.last().poll_id == poll_id {
            rest.push(s.last().user_id)
        } else {
            rest
        }
    }
}

/// No two voter records share an id, nor a poll and a user.
pub open spec fn voters_distinct(s: Seq<Voter>) -> bool {
    forall|i: int, j: int|
        #![trigger s[i], s[j]]
        0 <= i < s.len() && 0 <= j < s.len() && i != j ==> {
            &&& s[i].id != s[j].id
            &&& (s[i].poll_id != s[j].poll_id || s[i].user_id != s[j].user_id)
        }
}

/// Dropping records keeps the rest distinct, and drops no record into being.
pub proof fn lemma_filter_distinct(s: Seq<Voter>, pred: spec_fn(Voter) -> bool)
    requires
        voters_distinct(s),
    ensures
        voters_distinct(s.filter(pred)),
        forall|k: int| 0 <= k < s.filter(pred).len() ==> s.contains(#[trigger] s.filter(pred)[k]),
    decreases s.len(),
{
    if s.len() == 0 {
        assert(s.filter(pred) =~= Seq::<Voter>::empty());
    } else {
        let r = s.drop_last();
        let x = s.last();
        assert(voters_distinct(r)) by {
            assert forall|a: int, b: int|
                #![trigger r[a], r[b]]
                0 <= a < r.len() && 0 <= b < r.len() && a != b implies {
                    &&& r[a].id != r[b].id
                    &&& (r[a].poll_id != r[b].poll_id || r[a].user_id != r[b].user_id)
                } by {
                    assert(r[a] == s[a] && r[b] == s[b]);
                }
        }
        lemma_filter_distinct(r, pred);
        assert(s =~= r.push(x));
        r.lemma_filter_push(x, pred);
        let g = r.filter(pred);
        assert forall|k: int| 0 <= k < g.len() implies {
            &&& g[k].id != x.id
            &&& (g[k].poll_id != x.poll_id || g[k].user_id != x.user_id)
        } by {
            assert(r.contains(g[k]));
            let j = choose|j: int| 0 <= j < r.len() && r[j] == g[k];
            assert(s[j] == g[k]);
            assert(s[s.len() - 1] == x);
        }
        if pred(x) {
            let f = g.push(x);
            assert forall|k: int| 0 <= k < f.len() implies s.contains(#[trigger] f[k]) by {
                if k < g.len() {
                    assert(r.contains(g[k]));
                    let j = choose|j: int| 0 <= j < r.len() && r[j] == g[k];
                    assert(s[j] == f[k]);
                } else {
                    assert(s[s.len() - 1] == f[k]);
                }
            }
            assert forall|a: int, b: int|
                #![trigger f[a], f[b]]
                0 <= a < f.len() && 0 <= b < f.len() && a != b implies {
                    &&& f[a].id != f[b].id
                    &&& (f[a].poll_id != f[b].poll_id || f[a].user_id != f[b].user_id)
                } by {
                    if a < g.len() && b < g.len() {
                        assert(f[a] == g[a] && f[b] == g[b]);
                    } else if a < g.len() {
                        assert(f[a] == g[a]);
                    } else {
                        assert(f[b] == g[b]);
                    }
                }
        } else {
            assert forall|k: int| 0 <= k < g.len() implies s.contains(#[trigger] g[k]) by {
                assert(r.contains(g[k]));
                let j = choose|j: int| 0 <= j < r.len() && r[j] == g[k];
                assert(s[j] == g[k]);
            }
        }
    }
}

/// The tasks of `s` that are due at `now`, in order.
pub open spec fn due_at(s: Seq<MessageToDelete>, now: i64) -> Seq<MessageToDelete> {
    s.filter(|m: MessageToDelete| m.timestamp <= now)
}

/// The tasks of `s` that are not yet due at `now`, in order.
pub open spec fn pending_after(s: Seq<MessageToDelete>, now: i64) -> Seq<MessageToDelete> {
    s.filter(|m: MessageToDelete| m.timestamp > now)
}

/// Dropping the records of poll `gone` leaves the voters of every other poll as
/// they were, and none on `gone`.
pub proof fn lemma_voters_on_without(s: Seq<Voter>, gone: i64, poll_id: i64)
    ensures
        voters_on(s.filter(|v: Voter| v.poll_id != gone), poll_id) == if poll_id == gone {
            Seq::<i64>::empty()
        } else {
            voters_on(s, poll_id)
        },
    decreases s.len(),
{
    let pred = |v: Voter| v.poll_id != gone;
    if s.len() > 0 {
        lemma_voters_on_without(s.drop_last(), gone, poll_id);
        assert(s =~= s.drop_last().push(s.last()));
        s.drop_last().lemma_filter_push(s.last(), pred);
        if pred(s.last()) {
            assert(s.filter(pred).drop_last() =~= s.drop_last().filter(pred));
        }
    } else {
        assert(s.filter(pred) =~= Seq::<Voter>::empty());
    }
}

/// A record appended for `v` adds its user to the voters of its poll alone.
pub proof fn lemma_voters_on_push(s: Seq<Voter>, v: Voter, poll_id: i64)
    ensures
        voters_on(s.push(v), poll_id) == if v.poll_id == poll_id {
            voters_on(s, poll_id).push(v.user_id)
        } else {
            voters_on(s, poll_id)
        },
{
    assert(s.push(v).drop_last() =~= s);
}

/// Settings that keep a chat's ids and stay within range keep the store well formed.
proof fn lemma_chat_update_wf(v: DbView, i: int, c: ChatView)
    requires
        v.wf(),
        0 <= i < v.chats.len(),
        c.id == v.chats[i].id,
        c.chat_id == v.chats[i].chat_id,
        MIN_THRESHOLD <= c.minimum_vote_count <= MAX_THRESHOLD,
        0 <= c.poll_delete_delay,
    ensures
        (DbView { chats: v.chats.update(i, c), ..v }).wf(),
{
    let w = DbView { chats: v.chats.update(i, c), ..v };
    assert forall|a: int, b: int|
        #![trigger w.chats[a], w.chats[b]]
        0 <= a < w.chats.len() && 0 <= b < w.chats.len() && a != b implies {
            &&& w.chats[a].id != w.chats[b].id
            &&& w.chats[a].chat_id != w.chats[b].chat_id
        } by {
            assert(v.chats[a].id != v.chats[b].id);
        }
    assert forall|k: int| 0 <= k < w.chats.len() implies {
        &&& 1 <= #[trigger] w.chats[k].id < w.next_id
        &&& MIN_THRESHOLD <= w.chats[k].minimum_vote_count <= MAX_THRESHOLD
        &&& 0 <= w.chats[k].poll_delete_delay
    } by {
        assert(1 <= v.chats[k].id < v.next_id);
    }
}

/// The locale a chat starts with.
pub open spec fn default_locale() -> Seq<char> {
    "en"@
}

impl DbView {
    /// This store with the settings of chat `chat_id` replaced by `c`.
    pub open spec fn with_chat(self, chat_id: i64, c: ChatView) -> DbView {
        DbView { chats: self.chats.update(self.chat_index(chat_id), c), ..self }
    }

    pub open spec fn has_poll(self, chat_id: i64, poll_id: i32) -> bool {
        exists|i: int|
            0 <= i < self.polls.len() && self.polls[i].chat_id == chat_id && self.polls[i].poll_id
                == poll_id
    }

    /// The poll shown by message `poll_id` of chat `chat_id`, if there is one.
    pub open spec fn poll_at(self, chat_id: i64, poll_id: i32) -> Option<Poll> {
        if self.has_poll(chat_id, poll_id) {
            Some(
                self.polls[choose|i: int|
                    0 <= i < self.polls.len() && self.polls[i].chat_id == chat_id
                        && self.polls[i].poll_id == poll_id],
            )
        } else {
            None
        }
    }

    pub open spec fn has_poll_id(self, id: i64) -> bool {
        exists|i: int| 0 <= i < self.polls.len() && self.polls[i].id == id
    }

    /// The position of the poll with row id `id`.
    pub open spec fn poll_index(self, id: i64) -> int {
        choose|i: int| 0 <= i < self.polls.len() && self.polls[i].id == id
    }

    pub open spec fn has_voter(self, poll_id: i64, user_id: i64) -> bool {
        exists|i: int|
            0 <= i < self.voters.len() && self.voters[i].poll_id == poll_id
                && self.voters[i].user_id == user_id
    }

    /// The record that `user_id` voted on poll `poll_id`, if there is one.
    pub open spec fn voter_at(self, poll_id: i64, user_id: i64) -> Option<Voter> {
        if self.has_voter(poll_id, user_id) {
            Some(
                self.voters[choose|i: int|
                    0 <= i < self.voters.len() && self.voters[i].poll_id == poll_id
                        && self.voters[i].user_id == user_id],
            )
        } else {
            None
        }
    }

    pub open spec fn has_chat(self, chat_id: i64) -> bool {
        exists|i: int| 0 <= i < self.chats.len() && self.chats[i].chat_id == chat_id
    }

    /// The position of the settings of chat `chat_id`.
    pub open spec fn chat_index(self, chat_id: i64) -> int {
        choose|i: int| 0 <= i < self.chats.len() && self.chats[i].chat_id == chat_id
    }

    /// The settings of chat `chat_id`, if it has any.
    pub open spec fn chat_at(self, chat_id: i64) -> Option<ChatView> {
        if self.has_chat(chat_id) {
            Some(self.chats[self.chat_index(chat_id)])
        } else {
            None
        }
    }

    pub open spec fn has_task(self, id: i64) -> bool {
        exists|i: int| 0 <= i < self.scheduled.len() && self.scheduled[i].id == id
    }

    /// The store's invariant: keys are unique, ids lie below the counter, every
    /// poll's counts are within its threshold, and every chat's settings are
    /// within range.
    pub open spec fn wf(self) -> bool {
        &&& 1 <= self.next_id
        &&& forall|i: int|
            0 <= i < self.polls.len() ==> {
                &&& 1 <= #[trigger] self.polls[i].id < self.next_id
                &&& self.polls[i].counts_valid()
            }
        &&& forall|i: int, j: int|
            #![trigger self.polls[i], self.polls[j]]
            0 <= i < self.polls.len() && 0 <= j < self.polls.len() && i != j ==> {
                &&& self.polls[i].id != self.polls[j].id
                &&& (self.polls[i].chat_id != self.polls[j].chat_id || self.polls[i].poll_id
                    != self.polls[j].poll_id)
            }
        &&& forall|i: int|
            0 <= i < self.voters.len() ==> {
                &&& 1 <= #[trigger] self.voters[i].id < self.next_id
            }
        &&& voters_distinct(self.voters)
        &&& forall|i: int|
            0 <= i < self.chats.len() ==> {
                &&& 1 <= #[trigger] self.chats[i].id < self.next_id
                &&& MIN_THRESHOLD <= self.chats[i].minimum_vote_count <= MAX_THRESHOLD
                &&& 0 <= self.chats[i].poll_delete_delay
            }
        &&& forall|i: int, j: int|
            #![trigger self.chats[i], self.chats[j]]
            0 <= i < self.chats.len() && 0 <= j < self.chats.len() && i != j ==> {
                &&& self.chats[i].id != self.chats[j].id
                &&& self.chats[i].chat_id != self.chats[j].chat_id
            }
        &&& forall|i: int|
            0 <= i < self.scheduled.len() ==> 1 <= #[trigger] self.scheduled[i].id < self.next_id
        &&& forall|i: int, j: int|
            #![trigger self.scheduled[i], self.scheduled[j]]
            0 <= i < self.scheduled.len() && 0 <= j < self.scheduled.len() && i != j
                ==> self.scheduled[i].id != self.scheduled[j].id
    }
}

impl Database {
    /// An empty store.
    pub fn new() -> (r: Database)
        ensures
            r@.wf(),
            r@.next_id == 1,
            r@.polls.len() == 0,
            r@.voters.len() == 0,
            r@.chats.len() == 0,
            r@.scheduled.len() == 0,
    {
        let r = Database {
            polls: Vec::new(),
            voters: Vec::new(),
            chats: Vec::new(),
            scheduled: Vec::new(),
            next_id: 1,
        };
        assert(r@.chats =~= Seq::<ChatView>::empty());
        r
    }

    fn find_poll(&self, chat_id: i64, poll_id: i32) -> (r: Option<usize>)
        ensures
            match r {
                Some(i) => i < self.polls@.len() && self.polls@[i as int].chat_id == chat_id
                    && self.polls@[i as int].poll_id == poll_id,
                None => !self@.has_poll(chat_id, poll_id),
            },
    {
        let mut i: usize = 0;
        while i < self.polls.len()
            invariant
                i <= self.polls@.len(),
                forall|k: int|
                    0 <= k < i ==> !(#[trigger] self.polls@[k].chat_id == chat_id
                        && self.polls@[k].poll_id == poll_id),
            decreases self.polls@.len() - i,
        {
            if self.polls[i].chat_id == chat_id && self.polls[i].poll_id == poll_id {
                return Some(i);
            }
            i = i + 1;
        }
        None
    }

    fn find_poll_id(&self, id: i64) -> (r: Option<usize>)
        ensures
            match r {
                Some(i) => i < self.polls@.len() && self.polls@[i as int].id == id,
                None => !self@.has_poll_id(id),
            },
    {
        let mut i: usize = 0;
        while i < self.polls.len()
            invariant
                i <= self.polls@.len(),
                forall|k: int| 0 <= k < i ==> #[trigger] self.polls@[k].id != id,
            decreases self.polls@.len() - i,
        {
            if self.polls[i].id == id {
                return Some(i);
            }
            i = i + 1;
        }
        None
    }

    /// Adds an open poll with no votes, shown by message `poll_id` of chat
    /// `chat_id` and deciding on message `message_id` by `message_user_id`.
    /// Refused where that chat's message already shows a poll, or where no id is left.
    pub fn create_poll(
        &mut self,
        chat_id: i64,
        poll_id: i32,
        message_id: i32,
        message_user_id: i64,
        minimum_vote_count: i64,
    ) -> (r: Result<i64, StoreError>)
        requires
            old(self)@.wf(),
            MIN_THRESHOLD <= minimum_vote_count <= MAX_THRESHOLD,
        ensures
            final(self)@.wf(),
            old(self)@.has_poll(chat_id, poll_id) ==> r == Err::<i64, StoreError>(
                StoreError::AlreadyExists,
            ),
            !old(self)@.has_poll(chat_id, poll_id) && old(self)@.next_id == i64::MAX ==> r == Err::<
                i64,
                StoreError,
            >(StoreError::IdsExhausted),
            r is Ok <==> !old(self)@.has_poll(chat_id, poll_id) && old(self)@.next_id < i64::MAX,
            r is Err ==> final(self)@ == old(self)@,
            r is Ok ==> {
                &&& !old(self)@.has_poll(chat_id, poll_id)
                &&& r == Ok::<i64, StoreError>(old(self)@.next_id)
                &&& final(self)@ == (DbView {
                    polls: old(self)@.polls.push(
                        Poll {
                            id: old(self)@.next_id,
                            chat_id,
                            poll_id,
                            message_id,
                            message_user_id,
                            minimum_vote_count,
                            vote_count_yes: 0,
                            vote_count_no: 0,
                        },
                    ),
                    next_id: (old(self)@.next_id + 1) as i64,
                    ..old(self)@
                })
            },
    {
        if self.find_poll(chat_id, poll_id).is_some() {
            return Err(StoreError::AlreadyExists);
        }
        if self.next_id == i64::MAX {
            return Err(StoreError::IdsExhausted);
        }
        let id = self.next_id;
        self.polls.push(
            Poll {
                id,
                chat_id,
                poll_id,
                message_id,
                message_user_id,
                minimum_vote_count,
                vote_count_yes: 0,
                vote_count_no: 0,
            },
        );
        self.next_id = id + 1;
        Ok(id)
    }

    /// The poll shown by message `poll_id` of chat `chat_id`.
    pub fn get_poll(&self, chat_id: i64, poll_id: i32) -> (r: Option<Poll>)
        requires
            self@.wf(),
        ensures
            r == self@.poll_at(chat_id, poll_id),
    {
        match self.find_poll(chat_id, poll_id) {
            Some(i) => {
                proof {
                    let j = choose|j: int|
                        0 <= j < self@.polls.len() && self@.polls[j].chat_id == chat_id
                            && self@.polls[j].poll_id == poll_id;
                    assert(self@.polls[j] == self@.polls[i as int]);
                }
                Some(self.polls[i])
            },
            None => None,
        }
    }

    /// Counts one more vote on side `v` of the poll with row id `poll_id`, as
    /// one step, where that poll exists and is still open. Tells whether it did.
    pub fn register_vote(&mut self, poll_id: i64, v: VoteType) -> (r: bool)
        requires
            old(self)@.wf(),
        ensures
            final(self)@.wf(),
            r == (old(self)@.has_poll_id(poll_id) && old(self)@.polls[old(self)@.poll_index(
                poll_id,
            )].is_open()),
            r ==> final(self)@ == (DbView {
                polls: old(self)@.polls.update(
                    old(self)@.poll_index(poll_id),
                    old(self)@.polls[old(self)@.poll_index(poll_id)].with_vote(v),
                ),
                ..old(self)@
            }),
            !r ==> final(self)@ == old(self)@,
    {
        match self.find_poll_id(poll_id) {
            None => false,
            Some(i) => {
                let p = self.polls[i];
                assert(old(self)@.poll_index(poll_id) == i as int);
                if p.vote_count_yes < p.minimum_vote_count && p.vote_count_no < p.minimum_vote_count {
                    let q = match v {
                        VoteType::Yes => Poll { vote_count_yes: p.vote_count_yes + 1, ..p },
                        VoteType::No => Poll { vote_count_no: p.vote_count_no + 1, ..p },
                    };
                    self.polls.set(i, q);
                    assert(q.counts_valid());
                    assert(forall|k: int|
                        0 <= k < self@.polls.len() && k != i ==> self@.polls[k] == old(self)@.polls[k]);
                    assert(self@.polls =~= old(self)@.polls.update(i as int, p.with_vote(v)));
                    true
                } else {
                    false
                }
            },
        }
    }

    fn find_voter(&self, poll_id: i64, user_id: i64) -> (r: Option<usize>)
        ensures
            match r {
                Some(i) => i < self.voters@.len() && self.voters@[i as int].poll_id == poll_id
                    && self.voters@[i as int].user_id == user_id,
                None => !self@.has_voter(poll_id, user_id),
            },
    {
        let mut i: usize = 0;
        while i < self.voters.len()
            invariant
                i <= self.voters@.len(),
                forall|k: int|
                    0 <= k < i ==> !(#[trigger] self.voters@[k].poll_id == poll_id
                        && self.voters@[k].user_id == user_id),
            decreases self.voters@.len() - i,
        {
            if self.voters[i].poll_id == poll_id && self.voters[i].user_id == user_id {
                return Some(i);
            }
            i = i + 1;
        }
        None
    }

    /// Records that `user_id` voted on the poll with row id `poll_id`, at most
    /// once per pair: a second record for the same pair is refused.
    pub fn create_voter(&mut self, poll_id: i64, user_id: i64) -> (r: Result<i64, StoreError>)
        requires
            old(self)@.wf(),
            old(self)@.next_id < i64::MAX,
        ensures
            final(self)@.wf(),
            r is Ok <==> !old(self)@.has_voter(poll_id, user_id),
            r is Err ==> r == Err::<i64, StoreError>(StoreError::AlreadyExists) && final(self)@
                == old(self)@,
            r is Ok ==> {
                &&& r == Ok::<i64, StoreError>(old(self)@.next_id)
                &&& final(self)@ == (DbView {
                    voters: old(self)@.voters.push(
                        Voter { id: old(self)@.next_id, poll_id, user_id },
                    ),
                    next_id: (old(self)@.next_id + 1) as i64,
                    ..old(self)@
                })
            },
    {
        if self.find_voter(poll_id, user_id).is_some() {
            return Err(StoreError::AlreadyExists);
        }
        let id = self.next_id;
        self.voters.push(Voter { id, poll_id, user_id });
        self.next_id = id + 1;
        Ok(id)
    }

    /// The record that `user_id` voted on the poll with row id `poll_id`.
    pub fn get_voter(&self, poll_id: i64, user_id: i64) -> (r: Option<Voter>)
        requires
            self@.wf(),
        ensures
            r == self@.voter_at(poll_id, user_id),
    {
        match self.find_voter(poll_id, user_id) {
            Some(i) => {
                proof {
                    let j = choose|j: int|
                        0 <= j < self@.voters.len() && self@.voters[j].poll_id == poll_id
                            && self@.voters[j].user_id == user_id;
                    assert(self@.voters[j] == self@.voters[i as int]);
                }
                Some(self.voters[i])
            },
            None => None,
        }
    }

    /// Removes the voter record with row id `voter_id`. Tells whether there was one.
    pub fn remove_voter(&mut self, voter_id: i64) -> (r: bool)
        requires
            old(self)@.wf(),
        ensures
            final(self)@.wf(),
            r == exists|i: int|
                0 <= i < old(self)@.voters.len() && old(self)@.voters[i].id == voter_id,
            r ==> exists|i: int|
                0 <= i < old(self)@.voters.len() && old(self)@.voters[i].id == voter_id
                    && final(self)@ == (DbView { voters: old(self)@.voters.remove(i), ..old(self)@ }),
            !r ==> final(self)@ == old(self)@,
    {
        let mut i: usize = 0;
        while i < self.voters.len()
            invariant
                self == old(self),
                old(self)@.wf(),
                i <= self.voters@.len(),
                forall|k: int| 0 <= k < i ==> #[trigger] self.voters@[k].id != voter_id,
            decreases self.voters@.len() - i,
        {
            if self.voters[i].id == voter_id {
                self.voters.remove(i);
                assert(self@ == (DbView { voters: old(self)@.voters.remove(i as int), ..old(self)@ }));
                assert forall|a: int, b: int|
                    #![trigger self@.voters[a], self@.voters[b]]
                    0 <= a < self@.voters.len() && 0 <= b < self@.voters.len() && a != b implies {
                        &&& self@.voters[a].id != self@.voters[b].id
                        &&& (self@.voters[a].poll_id != self@.voters[b].poll_id
                            || self@.voters[a].user_id != self@.voters[b].user_id)
                    } by {
                        let a2 = if a < i { a } else { a + 1 };
                        let b2 = if b < i { b } else { b + 1 };
                        assert(self@.voters[a] == old(self)@.voters[a2]);
                        assert(self@.voters[b] == old(self)@.voters[b2]);
                        assert(old(self)@.voters[a2].id != old(self)@.voters[b2].id);
                    }
                assert forall|k: int| 0 <= k < self@.voters.len() implies 1 <= #[trigger] self@.voters[k].id
                    < self@.next_id by {
                    let k2 = if k < i { k } else { k + 1 };
                    assert(self@.voters[k] == old(self)@.voters[k2]);
                }
                return true;
            }
            i = i + 1;
        }
        false
    }

    /// Removes every voter record of the poll with row id `poll_id`. Tells
    /// whether there was any.
    pub fn remove_voters(&mut self, poll_id: i64) -> (r: bool)
        requires
            old(self)@.wf(),
        ensures
            final(self)@.wf(),
            r == exists|i: int|
                0 <= i < old(self)@.voters.len() && old(self)@.voters[i].poll_id == poll_id,
            final(self)@ == (DbView {
                voters: old(self)@.voters.filter(|v: Voter| v.poll_id != poll_id),
                ..old(self)@
            }),
    {
        let ghost pred = |v: Voter| v.poll_id != poll_id;
        let ghost before = self.voters@;
        let mut kept: Vec<Voter> = Vec::new();
        let mut any = false;
        let mut i: usize = 0;
        while i < self.voters.len()
            invariant
                self == old(self),
                before == self.voters@,
                pred == (|v: Voter| v.poll_id != poll_id),
                old(self)@.wf(),
                i <= before.len(),
                kept@ == before.take(i as int).filter(pred),
                forall|k: int|
                    0 <= k < kept@.len() ==> exists|j: int|
                        0 <= j < i && #[trigger] kept@[k] == before[j],
                forall|a: int, b: int|
                    #![trigger kept@[a], kept@[b]]
                    0 <= a < kept@.len() && 0 <= b < kept@.len() && a != b ==> {
                        &&& kept@[a].id != kept@[b].id
                        &&& (kept@[a].poll_id != kept@[b].poll_id || kept@[a].user_id
                            != kept@[b].user_id)
                    },
                any == exists|j: int| 0 <= j < i && before[j].poll_id == poll_id,
            decreases before.len() - i,
        {
            let v = self.voters[i];
            proof {
                assert(before.take(i + 1) =~= before.take(i as int).push(v));
                before.take(i as int).lemma_filter_push(v, pred);
            }
            if v.poll_id != poll_id {
                proof {
                    assert forall|k: int| 0 <= k < kept@.len() implies {
                        &&& kept@[k].id != v.id
                        &&& (kept@[k].poll_id != v.poll_id || kept@[k].user_id != v.user_id)
                    } by {
                        let j = choose|j: int| 0 <= j < i && kept@[k] == before[j];
                        assert(old(self)@.voters =~= before);
                        assert(old(self)@.voters[j].id != old(self)@.voters[i as int].id);
                    }
                }
                kept.push(v);
                assert(pred(v));
                assert(kept@ =~= before.take(i + 1).filter(pred));
            } else {
                any = true;
                assert(!pred(v));
                assert(kept@ =~= before.take(i + 1).filter(pred));
            }
            i = i + 1;
        }
        assert(before.take(before.len() as int) =~= before);
        self.voters = kept;
        any
    }

    fn find_chat(&self, chat_id: i64) -> (r: Option<usize>)
        requires
            self@.wf(),
        ensures
            match r {
                Some(i) => i < self.chats@.len() && self@.has_chat(chat_id) && self@.chat_index(
                    chat_id,
                ) == i as int,
                None => !self@.has_chat(chat_id),
            },
    {
        let mut i: usize = 0;
        while i < self.chats.len()
            invariant
                self@.wf(),
                i <= self.chats@.len(),
                forall|k: int| 0 <= k < i ==> #[trigger] self@.chats[k].chat_id != chat_id,
            decreases self.chats@.len() - i,
        {
            if self.chats[i].chat_id == chat_id {
                proof {
                    assert(self@.chats[i as int].chat_id == chat_id);
                    assert(self@.has_chat(chat_id));
                    let j = self@.chat_index(chat_id);
                    if j != i as int {
                        assert(self@.chats[j].chat_id != self@.chats[i as int].chat_id);
                    }
                }
                return Some(i);
            }
            i = i + 1;
        }
        None
    }

    /// Adds settings for chat `chat_id` with the defaults: five votes, the
    /// locale `en` and a delay of five seconds. Refused where the chat has
    /// settings already, or where no id is left.
    pub fn create_chat(&mut self, chat_id: i64) -> (r: Result<i64, StoreError>)
        requires
            old(self)@.wf(),
        ensures
            final(self)@.wf(),
            old(self)@.has_chat(chat_id) ==> r == Err::<i64, StoreError>(StoreError::AlreadyExists),
            !old(self)@.has_chat(chat_id) && old(self)@.next_id == i64::MAX ==> r == Err::<
                i64,
                StoreError,
            >(StoreError::IdsExhausted),
            r is Ok <==> !old(self)@.has_chat(chat_id) && old(self)@.next_id < i64::MAX,
            r is Err ==> final(self)@ == old(self)@,
            r is Ok ==> {
                &&& !old(self)@.has_chat(chat_id)
                &&& r == Ok::<i64, StoreError>(old(self)@.next_id)
                &&& final(self)@ == (DbView {
                    chats: old(self)@.chats.push(
                        ChatView {
                            id: old(self)@.next_id,
                            chat_id,
                            minimum_vote_count: DEFAULT_MIN_VOTES,
                            locale: default_locale(),
                            poll_delete_delay: DEFAULT_DELETE_DELAY,
                        },
                    ),
                    next_id: (old(self)@.next_id + 1) as i64,
                    ..old(self)@
                })
            },
    {
        if self.find_chat(chat_id).is_some() {
            return Err(StoreError::AlreadyExists);
        }
        if self.next_id == i64::MAX {
            return Err(StoreError::IdsExhausted);
        }
        let id = self.next_id;
        let c = Chat {
            id,
            chat_id,
            minimum_vote_count: DEFAULT_MIN_VOTES,
            locale: String::from_str("en"),
            poll_delete_delay: DEFAULT_DELETE_DELAY,
        };
        self.chats.push(c);
        self.next_id = id + 1;
        assert(self@.chats =~= old(self)@.chats.push(c@));
        Ok(id)
    }

    /// The settings of chat `chat_id`.
    pub fn get_chat(&self, chat_id: i64) -> (r: Option<Chat>)
        requires
            self@.wf(),
        ensures
            match r {
                Some(c) => self@.chat_at(chat_id) == Some(c@),
                None => self@.chat_at(chat_id) is None,
            },
    {
        match self.find_chat(chat_id) {
            Some(i) => {
                let c = &self.chats[i];
                Some(
                    Chat {
                        id: c.id,
                        chat_id: c.chat_id,
                        minimum_vote_count: c.minimum_vote_count,
                        locale: c.locale.clone(),
                        poll_delete_delay: c.poll_delete_delay,
                    },
                )
            },
            None => None,
        }
    }

    /// The threshold that chat `chat_id` has chosen, if it has settings.
    pub fn get_chat_votes(&self, chat_id: i64) -> (r: Option<i64>)
        requires
            self@.wf(),
        ensures
            r == match self@.chat_at(chat_id) {
                Some(c) => Some(c.minimum_vote_count),
                None => None::<i64>,
            },
    {
        match self.find_chat(chat_id) {
            Some(i) => Some(self.chats[i].minimum_vote_count),
            None => None,
        }
    }

    /// Sets the threshold of chat `chat_id`, where it has settings. Tells whether it had.
    pub fn set_chat_votes(&mut self, chat_id: i64, votes_count: i64) -> (r: bool)
        requires
            old(self)@.wf(),
            MIN_THRESHOLD <= votes_count <= MAX_THRESHOLD,
        ensures
            final(self)@.wf(),
            r == old(self)@.has_chat(chat_id),
            r ==> final(self)@ == old(self)@.with_chat(
                chat_id,
                ChatView {
                    minimum_vote_count: votes_count,
                    ..old(self)@.chats[old(self)@.chat_index(chat_id)]
                },
            ),
            !r ==> final(self)@ == old(self)@,
    {
        match self.find_chat(chat_id) {
            None => false,
            Some(i) => {
                let c = Chat {
                    id: self.chats[i].id,
                    chat_id: self.chats[i].chat_id,
                    minimum_vote_count: votes_count,
                    locale: self.chats[i].locale.clone(),
                    poll_delete_delay: self.chats[i].poll_delete_delay,
                };
                self.chats.set(i, c);
                assert(self@.chats =~= old(self)@.chats.update(i as int, c@));
                proof {
                    lemma_chat_update_wf(old(self)@, i as int, c@);
                }
                true
            },
        }
    }

    /// The locale of chat `chat_id`, if it has settings.
    pub fn get_chat_locale(&self, chat_id: i64) -> (r: Option<String>)
        requires
            self@.wf(),
        ensures
            match r {
                Some(l) => self@.chat_at(chat_id) is Some && l@ == self@.chat_at(
                    chat_id,
                )->Some_0.locale,
                None => self@.chat_at(chat_id) is None,
            },
    {
        match self.find_chat(chat_id) {
            Some(i) => Some(self.chats[i].locale.clone()),
            None => None,
        }
    }

    /// Sets the locale of chat `chat_id`, where it has settings. Tells whether it had.
    pub fn set_chat_locale(&mut self, chat_id: i64, locale: &str) -> (r: bool)
        requires
            old(self)@.wf(),
        ensures
            final(self)@.wf(),
            r == old(self)@.has_chat(chat_id),
            r ==> final(self)@ == old(self)@.with_chat(
                chat_id,
                ChatView { locale: locale@, ..old(self)@.chats[old(self)@.chat_index(chat_id)] },
            ),
            !r ==> final(self)@ == old(self)@,
    {
        match self.find_chat(chat_id) {
            None => false,
            Some(i) => {
                let c = Chat {
                    id: self.chats[i].id,
                    chat_id: self.chats[i].chat_id,
                    minimum_vote_count: self.chats[i].minimum_vote_count,
                    locale: String::from_str(locale),
                    poll_delete_delay: self.chats[i].poll_delete_delay,
                };
                self.chats.set(i, c);
                assert(self@.chats =~= old(self)@.chats.update(i as int, c@));
                proof {
                    lemma_chat_update_wf(old(self)@, i as int, c@);
                }
                true
            },
        }
    }

    /// The seconds that chat `chat_id` keeps a resolved poll up, if it has settings.
    pub fn get_chat_poll_delete_delay(&self, chat_id: i64) -> (r: Option<i64>)
        requires
            self@.wf(),
        ensures
            r == match self@.chat_at(chat_id) {
                Some(c) => Some(c.poll_delete_delay),
                None => None::<i64>,
            },
    {
        match self.find_chat(chat_id) {
            Some(i) => Some(self.chats[i].poll_delete_delay),
            None => None,
        }
    }

    /// Sets the delay of chat `chat_id`, where it has settings. Tells whether it had.
    pub fn set_chat_poll_delete_delay(&mut self, chat_id: i64, poll_delete_delay: i64) -> (r: bool)
        requires
            old(self)@.wf(),
            0 <= poll_delete_delay,
        ensures
            final(self)@.wf(),
            r == old(self)@.has_chat(chat_id),
            r ==> final(self)@ == old(self)@.with_chat(
                chat_id,
                ChatView {
                    poll_delete_delay,
                    ..old(self)@.chats[old(self)@.chat_index(chat_id)]
                },
            ),
            !r ==> final(self)@ == old(self)@,
    {
        match self.find_chat(chat_id) {
            None => false,
            Some(i) => {
                let c = Chat {
                    id: self.chats[i].id,
                    chat_id: self.chats[i].chat_id,
                    minimum_vote_count: self.chats[i].minimum_vote_count,
                    locale: self.chats[i].locale.clone(),
                    poll_delete_delay,
                };
                self.chats.set(i, c);
                assert(self@.chats =~= old(self)@.chats.update(i as int, c@));
                proof {
                    lemma_chat_update_wf(old(self)@, i as int, c@);
                }
                true
            },
        }
    }

    /// Removes the settings of chat `chat_id`. Tells whether there were any.
    pub fn remove_chat(&mut self, chat_id: i64) -> (r: bool)
        requires
            old(self)@.wf(),
        ensures
            final(self)@.wf(),
            r == old(self)@.has_chat(chat_id),
            r ==> final(self)@ == (DbView {
                chats: old(self)@.chats.remove(old(self)@.chat_index(chat_id)),
                ..old(self)@
            }),
            !r ==> final(self)@ == old(self)@,
    {
        match self.find_chat(chat_id) {
            None => false,
            Some(i) => {
                self.chats.remove(i);
                assert(self@.chats =~= old(self)@.chats.remove(i as int));
                assert forall|a: int, b: int|
                    #![trigger self@.chats[a], self@.chats[b]]
                    0 <= a < self@.chats.len() && 0 <= b < self@.chats.len() && a != b implies {
                        &&& self@.chats[a].id != self@.chats[b].id
                        &&& self@.chats[a].chat_id != self@.chats[b].chat_id
                    } by {
                        let a2 = if a < i { a } else { a + 1 };
                        let b2 = if b < i { b } else { b + 1 };
                        assert(self@.chats[a] == old(self)@.chats[a2]);
                        assert(self@.chats[b] == old(self)@.chats[b2]);
                    }
                assert forall|k: int| 0 <= k < self@.chats.len() implies {
                    &&& 1 <= #[trigger] self@.chats[k].id < self@.next_id
                    &&& MIN_THRESHOLD <= self@.chats[k].minimum_vote_count <= MAX_THRESHOLD
                    &&& 0 <= self@.chats[k].poll_delete_delay
                } by {
                    let k2 = if k < i { k } else { k + 1 };
                    assert(self@.chats[k] == old(self)@.chats[k2]);
                }
                true
            },
        }
    }

    /// Queues the deletion of message `message_id` of chat `chat_id` at
    /// `timestamp`. Refused only where no id is left.
    pub fn schedule_message_delete(&mut self, chat_id: i64, message_id: i32, timestamp: i64) -> (r:
        Result<i64, StoreError>)
        requires
            old(self)@.wf(),
        ensures
            final(self)@.wf(),
            old(self)@.next_id == i64::MAX ==> r == Err::<i64, StoreError>(
                StoreError::IdsExhausted,
            ),
            r is Ok <==> old(self)@.next_id < i64::MAX,
            r is Err ==> final(self)@ == old(self)@,
            r is Ok ==> {
                &&& r == Ok::<i64, StoreError>(old(self)@.next_id)
                &&& final(self)@ == (DbView {
                    scheduled: old(self)@.scheduled.push(
                        MessageToDelete { id: old(self)@.next_id, chat_id, message_id, timestamp },
                    ),
                    next_id: (old(self)@.next_id + 1) as i64,
                    ..old(self)@
                })
            },
    {
        if self.next_id == i64::MAX {
            return Err(StoreError::IdsExhausted);
        }
        let id = self.next_id;
        self.scheduled.push(MessageToDelete { id, chat_id, message_id, timestamp });
        self.next_id = id + 1;
        Ok(id)
    }

    /// The queued deletions due at `timestamp`, in the order they were queued.
    pub fn get_pending_messages_to_delete(&self, timestamp: i64) -> (r: Vec<MessageToDelete>)
        ensures
            r@ == due_at(self@.scheduled, timestamp),
    {
        let ghost all = self@.scheduled;
        let ghost pred = |m: MessageToDelete| m.timestamp <= timestamp;
        let mut due: Vec<MessageToDelete> = Vec::new();
        let mut i: usize = 0;
        while i < self.scheduled.len()
            invariant
                all == self@.scheduled,
                pred == (|m: MessageToDelete| m.timestamp <= timestamp),
                i <= all.len(),
                due@ == all.take(i as int).filter(pred),
            decreases all.len() - i,
        {
            let m = self.scheduled[i];
            proof {
                assert(all.take(i + 1) =~= all.take(i as int).push(m));
                all.take(i as int).lemma_filter_push(m, pred);
            }
            if m.timestamp <= timestamp {
                due.push(m);
            }
            i = i + 1;
        }
        assert(all.take(all.len() as int) =~= all);
        due
    }

    /// Removes the queued deletion with row id `id`. Tells whether there was one.
    pub fn remove_from_scheduled_delete(&mut self, id: i64) -> (r: bool)
        requires
            old(self)@.wf(),
        ensures
            final(self)@.wf(),
            r == old(self)@.has_task(id),
            r ==> exists|i: int|
                0 <= i < old(self)@.scheduled.len() && old(self)@.scheduled[i].id == id
                    && final(self)@ == (DbView {
                    scheduled: old(self)@.scheduled.remove(i),
                    ..old(self)@
                }),
            !r ==> final(self)@ == old(self)@,
    {
        let mut i: usize = 0;
        while i < self.scheduled.len()
            invariant
                self == old(self),
                old(self)@.wf(),
                i <= self.scheduled@.len(),
                forall|k: int| 0 <= k < i ==> #[trigger] self.scheduled@[k].id != id,
            decreases self.scheduled@.len() - i,
        {
            if self.scheduled[i].id == id {
                self.scheduled.remove(i);
                assert(self@ == (DbView {
                    scheduled: old(self)@.scheduled.remove(i as int),
                    ..old(self)@
                }));
                assert forall|a: int, b: int|
                    #![trigger self@.scheduled[a], self@.scheduled[b]]
                    0 <= a < self@.scheduled.len() && 0 <= b < self@.scheduled.len() && a != b
                        implies self@.scheduled[a].id != self@.scheduled[b].id by {
                    let a2 = if a < i { a } else { a + 1 };
                    let b2 = if b < i { b } else { b + 1 };
                    assert(self@.scheduled[a] == old(self)@.scheduled[a2]);
                    assert(self@.scheduled[b] == old(self)@.scheduled[b2]);
                }
                assert forall|k: int| 0 <= k < self@.scheduled.len() implies 1
                    <= #[trigger] self@.scheduled[k].id < self@.next_id by {
                    let k2 = if k < i { k } else { k + 1 };
                    assert(self@.scheduled[k] == old(self)@.scheduled[k2]);
                }
                return true;
            }
            i = i + 1;
        }
        false
    }

    /// The id the next row will get.
    pub fn next_id(&self) -> (r: i64)
        ensures
            r == self@.next_id,
    {
        self.next_id
    }

    /// Takes every queued deletion due at `now` out of the queue and hands
    /// them back in the order they were queued. The tasks not yet due stay.
    pub fn sweep(&mut self, now: i64) -> (r: Vec<MessageToDelete>)
        requires
            old(self)@.wf(),
        ensures
            final(self)@.wf(),
            r@ == due_at(old(self)@.scheduled, now),
            final(self)@ == (DbView {
                scheduled: pending_after(old(self)@.scheduled, now),
                ..old(self)@
            }),
    {
        let ghost all = self@.scheduled;
        let ghost is_due = |m: MessageToDelete| m.timestamp <= now;
        let ghost waits = |m: MessageToDelete| m.timestamp > now;
        let mut due: Vec<MessageToDelete> = Vec::new();
        let mut kept: Vec<MessageToDelete> = Vec::new();
        let mut i: usize = 0;
        while i < self.scheduled.len()
            invariant
                self == old(self),
                old(self)@.wf(),
                all == self@.scheduled,
                is_due == (|m: MessageToDelete| m.timestamp <= now),
                waits == (|m: MessageToDelete| m.timestamp > now),
                i <= all.len(),
                due@ == all.take(i as int).filter(is_due),
                kept@ == all.take(i as int).filter(waits),
                forall|k: int|
                    0 <= k < kept@.len() ==> exists|j: int|
                        0 <= j < i && #[trigger] kept@[k] == all[j],
                forall|a: int, b: int|
                    #![trigger kept@[a], kept@[b]]
                    0 <= a < kept@.len() && 0 <= b < kept@.len() && a != b ==> kept@[a].id
                        != kept@[b].id,
            decreases all.len() - i,
        {
            let m = self.scheduled[i];
            proof {
                assert(all.take(i + 1) =~= all.take(i as int).push(m));
                all.take(i as int).lemma_filter_push(m, is_due);
                all.take(i as int).lemma_filter_push(m, waits);
            }
            if m.timestamp <= now {
                due.push(m);
                assert(due@ =~= all.take(i + 1).filter(is_due));
                assert(kept@ =~= all.take(i + 1).filter(waits));
            } else {
                proof {
                    assert forall|k: int| 0 <= k < kept@.len() implies kept@[k].id != m.id by {
                        let j = choose|j: int| 0 <= j < i && kept@[k] == all[j];
                        assert(old(self)@.scheduled[j].id != old(self)@.scheduled[i as int].id);
                    }
                }
                kept.push(m);
                assert(due@ =~= all.take(i + 1).filter(is_due));
                assert(kept@ =~= all.take(i + 1).filter(waits));
            }
            i = i + 1;
        }
        assert(all.take(all.len() as int) =~= all);
        self.scheduled = kept;
        assert forall|k: int| 0 <= k < self@.scheduled.len() implies 1
            <= #[trigger] self@.scheduled[k].id < self@.next_id by {
            let j = choose|j: int| 0 <= j < all.len() && kept@[k] == all[j];
            assert(1 <= old(self)@.scheduled[j].id < old(self)@.next_id);
        }
        due
    }

    /// Removes the poll with row id `poll_id`. Tells whether there was one.
    pub fn remove_poll(&mut self, poll_id: i64) -> (r: bool)
        requires
            old(self)@.wf(),
        ensures
            final(self)@.wf(),
            r == old(self)@.has_poll_id(poll_id),
            r ==> final(self)@ == (DbView {
                polls: old(self)@.polls.remove(old(self)@.poll_index(poll_id)),
                ..old(self)@
            }),
            !r ==> final(self)@ == old(self)@,
    {
        match self.find_poll_id(poll_id) {
            None => false,
            Some(i) => {
                assert(old(self)@.poll_index(poll_id) == i as int);
                self.polls.remove(i);
                true
            },
        }
    }
}

} // verus!
