//! Properties that hold across calls of the library.

use vstd::prelude::*;

use crate::engine::{
    deadline, delay_of, lemma_vote_keeps_tallies, reached, tallies_match, vote_lacks_ids,
    vote_resolves, vote_step, VoteOutcome,
};
use crate::store::{due_at, pending_after, voters_distinct, voters_on, DbView};
use crate::types::{MessageToDelete, VoteType, Voter};

verus! {

broadcast use vstd::seq_lib::group_seq_properties;

/// A user is among the voters of a poll exactly when a record says so.
proof fn lemma_voters_on_members(s: Seq<Voter>, poll_id: i64, user_id: i64)
    ensures
        voters_on(s, poll_id).contains(user_id) <==> exists|i: int|
            0 <= i < s.len() && (#[trigger] s[i]).poll_id == poll_id && s[i].user_id == user_id,
    decreases s.len(),
{
    if s.len() > 0 {
        let r = s.drop_last();
        lemma_voters_on_members(r, poll_id, user_id);
        if voters_on(s, poll_id).contains(user_id) {
            let rest = voters_on(r, poll_id);
            if rest.contains(user_id) {
                let i = choose|i: int|
                    0 <= i < r.len() && (#[trigger] r[i]).poll_id == poll_id && r[i].user_id
                        == user_id;
                assert(s[i] == r[i]);
            } else {
                assert(s[s.len() - 1].poll_id == poll_id && s[s.len() - 1].user_id == user_id);
            }
        }
        if exists|i: int|
            0 <= i < s.len() && (#[trigger] s[i]).poll_id == poll_id && s[i].user_id == user_id {
            let i = choose|i: int|
                0 <= i < s.len() && (#[trigger] s[i]).poll_id == poll_id && s[i].user_id == user_id;
            if i < s.len() - 1 {
                assert(r[i] == s[i]);
                assert(voters_on(r, poll_id).contains(user_id));
            } else {
                assert(voters_on(s, poll_id) == voters_on(r, poll_id).push(user_id));
                assert(voters_on(s, poll_id).last() == user_id);
            }
        }
    }
}

/// Distinct records name each user at most once among a poll's voters.
proof fn lemma_voters_on_unique(s: Seq<Voter>, poll_id: i64)
    requires
        voters_distinct(s),
    ensures
        voters_on(s, poll_id).no_duplicates(),
    decreases s.len(),
{
    if s.len() > 0 {
        let r = s.drop_last();
        let x = s.last();
        assert(voters_distinct(r)) by {
            assert forall|a: int, b: int|
                #![trigger r[a], r[b]]
                0 <= a < r.len() && 0 <= b < r.len() && a != b implies {
                    &&& r[a].id != r[b].id
                    &&& (r[a].poll_id != r[b].poll_id || r[a].user_id != r[b].user_id)
                } by {
                    assert(r[a] == s[a] && r[b] == s[b]);
                }
        }
        lemma_voters_on_unique(r, poll_id);
        if x.poll_id == poll_id {
            lemma_voters_on_members(r, poll_id, x.user_id);
            if voters_on(r, poll_id).contains(x.user_id) {
                let i = choose|i: int|
                    0 <= i < r.len() && (#[trigger] r[i]).poll_id == poll_id && r[i].user_id
                        == x.user_id;
                assert(s[i] == r[i]);
                assert(s[s.len() - 1] == x);
            }
            let rest = voters_on(r, poll_id);
            let all = rest.push(x.user_id);
            assert forall|a: int, b: int|
                0 <= a < all.len() && 0 <= b < all.len() && a != b implies all[a] != all[b] by {
                if a < rest.len() && b < rest.len() {
                } else if a < rest.len() {
                    assert(rest.contains(all[a]));
                } else {
                    assert(rest.contains(all[b]));
                }
            }
        }
    }
}

/// In every state the engine keeps, the yes and no counts of a poll add up to
/// the number of distinct users who voted on it: each voter is counted once,
/// and only voters are counted.
pub proof fn lemma_tally_counts_distinct_voters(v: DbView, i: int)
    requires
        v.wf(),
        tallies_match(v),
        0 <= i < v.polls.len(),
    ensures
        v.polls[i].vote_count_yes + v.polls[i].vote_count_no == voters_on(
            v.voters,
            v.polls[i].id,
        ).to_set().len(),
        forall|u: i64|
            #![trigger voters_on(v.voters, v.polls[i].id).to_set().contains(u)]
            voters_on(v.voters, v.polls[i].id).to_set().contains(u) <==> v.has_voter(
                v.polls[i].id,
                u,
            ),
{
    let s = voters_on(v.voters, v.polls[i].id);
    lemma_voters_on_unique(v.voters, v.polls[i].id);
    s.unique_seq_to_set();
    assert forall|u: i64| s.to_set().contains(u) <==> v.has_voter(v.polls[i].id, u) by {
        lemma_voters_on_members(v.voters, v.polls[i].id, u);
    }
}

/// Once a user's vote on a poll has been counted, their next vote on it,
/// on either side, is a duplicate that changes nothing.
pub proof fn lemma_second_vote_is_duplicate(
    v: DbView,
    chat_id: i64,
    poll_id: i32,
    user_id: i64,
    first: VoteType,
    second: VoteType,
    now: i64,
    later: i64,
)
    requires
        v.wf(),
        tallies_match(v),
        !vote_lacks_ids(v, chat_id, poll_id, user_id),
        vote_step(v, chat_id, poll_id, user_id, first, now).1 is Counted,
    ensures
        vote_step(vote_step(v, chat_id, poll_id, user_id, first, now).0, chat_id, poll_id, user_id, second, later)
            == (vote_step(v, chat_id, poll_id, user_id, first, now).0, VoteOutcome::Duplicate),
{
    let w = vote_step(v, chat_id, poll_id, user_id, first, now).0;
    lemma_vote_keeps_tallies(v, chat_id, poll_id, user_id, first, now);
    let p = v.poll_at(chat_id, poll_id)->Some_0;
    let j = choose|j: int|
        0 <= j < v.polls.len() && v.polls[j].chat_id == chat_id && v.polls[j].poll_id == poll_id;
    assert(v.has_poll_id(p.id));
    let i = v.poll_index(p.id);
    if i != j {
        assert(v.polls[i].id != v.polls[j].id);
    }
    assert(w.polls[i].chat_id == chat_id && w.polls[i].poll_id == poll_id);
    let k = choose|k: int|
        0 <= k < w.polls.len() && w.polls[k].chat_id == chat_id && w.polls[k].poll_id == poll_id;
    if k != i {
        assert(w.polls[k].chat_id != w.polls[i].chat_id || w.polls[k].poll_id != w.polls[i].poll_id);
    }
    assert(w.poll_at(chat_id, poll_id)->Some_0.id == p.id);
    let n = v.voters.len() as int;
    assert(w.voters[n].poll_id == p.id && w.voters[n].user_id == user_id);
}

/// A counted vote leaves its poll under the same message with the new
/// counts, and adds exactly its user to those who voted on it.
pub proof fn lemma_counted_vote_keeps_poll(
    v: DbView,
    chat_id: i64,
    poll_id: i32,
    user_id: i64,
    choice: VoteType,
    now: i64,
)
    requires
        v.wf(),
        tallies_match(v),
        !vote_lacks_ids(v, chat_id, poll_id, user_id),
        vote_step(v, chat_id, poll_id, user_id, choice, now).1 is Counted,
    ensures
        ({
            let p = v.poll_at(chat_id, poll_id)->Some_0;
            let w = vote_step(v, chat_id, poll_id, user_id, choice, now).0;
            &&& w.wf()
            &&& tallies_match(w)
            &&& w.poll_at(chat_id, poll_id) == Some(p.with_vote(choice))
            &&& forall|u: i64| #[trigger] w.has_voter(p.id, u) <==> (v.has_voter(p.id, u) || u == user_id)
            &&& w.next_id == v.next_id + 1
            &&& w.scheduled == v.scheduled
            &&& w.chats == v.chats
        }),
{
    let p = v.poll_at(chat_id, poll_id)->Some_0;
    let w = vote_step(v, chat_id, poll_id, user_id, choice, now).0;
    lemma_vote_keeps_tallies(v, chat_id, poll_id, user_id, choice, now);
    let j = choose|j: int|
        0 <= j < v.polls.len() && v.polls[j].chat_id == chat_id && v.polls[j].poll_id == poll_id;
    assert(v.has_poll_id(p.id));
    let i = v.poll_index(p.id);
    if i != j {
        assert(v.polls[i].id != v.polls[j].id);
    }
    assert(w.polls[i].chat_id == chat_id && w.polls[i].poll_id == poll_id);
    let k = choose|k: int|
        0 <= k < w.polls.len() && w.polls[k].chat_id == chat_id && w.polls[k].poll_id == poll_id;
    if k != i {
        assert(w.polls[k].chat_id != w.polls[i].chat_id || w.polls[k].poll_id != w.polls[i].poll_id);
    }
    let n = v.voters.len() as int;
    assert forall|u: i64| #[trigger] w.has_voter(p.id, u) <==> (v.has_voter(p.id, u) || u == user_id) by {
        if w.has_voter(p.id, u) && u != user_id {
            let m = choose|m: int|
                0 <= m < w.voters.len() && w.voters[m].poll_id == p.id && w.voters[m].user_id == u;
            assert(m < n);
            assert(v.voters[m] == w.voters[m]);
        }
        if v.has_voter(p.id, u) {
            let m = choose|m: int|
                0 <= m < v.voters.len() && v.voters[m].poll_id == p.id && v.voters[m].user_id == u;
            assert(w.voters[m] == v.voters[m]);
        }
        if u == user_id {
            assert(w.voters[n].poll_id == p.id && w.voters[n].user_id == u);
        }
    }
}

/// The vote that brings a side to the poll's threshold resolves it: the poll
/// is gone, with its voter records, and its message is queued for deletion at
/// `now` plus the chat's delay. A vote that leaves both sides short keeps the
/// poll open.
pub proof fn lemma_threshold_vote_resolves(
    v: DbView,
    chat_id: i64,
    poll_id: i32,
    user_id: i64,
    choice: VoteType,
    now: i64,
)
    requires
        v.wf(),
        tallies_match(v),
        v.poll_at(chat_id, poll_id) is Some,
        !v.has_voter(v.poll_at(chat_id, poll_id)->Some_0.id, user_id),
    ensures
        ({
            let p = v.poll_at(chat_id, poll_id)->Some_0;
            let (w, outcome) = vote_step(v, chat_id, poll_id, user_id, choice, now);
            if choice.count_of(p) + 1 >= p.minimum_vote_count {
                &&& outcome == VoteOutcome::Resolved {
                    poll: p.with_vote(choice),
                    choice,
                    fire_at: deadline(now, delay_of(v, chat_id)),
                }
                &&& !w.has_poll(chat_id, poll_id)
                &&& forall|u: i64| !w.has_voter(p.id, u)
                &&& w.scheduled == v.scheduled.push(
                    MessageToDelete {
                        id: (v.next_id + 1) as i64,
                        chat_id,
                        message_id: poll_id,
                        timestamp: deadline(now, delay_of(v, chat_id)),
                    },
                )
            } else {
                &&& outcome == VoteOutcome::Counted { poll: p.with_vote(choice) }
                &&& p.with_vote(choice).is_open()
                &&& w.has_poll(chat_id, poll_id)
            }
        }),
{
    let p = v.poll_at(chat_id, poll_id)->Some_0;
    let w = vote_step(v, chat_id, poll_id, user_id, choice, now).0;
    let j = choose|j: int|
        0 <= j < v.polls.len() && v.polls[j].chat_id == chat_id && v.polls[j].poll_id == poll_id;
    assert(v.has_poll_id(p.id));
    let i = v.poll_index(p.id);
    if i != j {
        assert(v.polls[i].id != v.polls[j].id);
    }
    assert(v.polls[i].is_open());
    if reached(p.with_vote(choice), choice) {
        if w.has_poll(chat_id, poll_id) {
            let k = choose|k: int|
                0 <= k < w.polls.len() && w.polls[k].chat_id == chat_id && w.polls[k].poll_id
                    == poll_id;
            let k2 = if k < i { k } else { k + 1 };
            assert(w.polls[k] == v.polls[k2]);
        }
        let pred = |x: Voter| x.poll_id != p.id;
        assert forall|u: i64| !w.has_voter(p.id, u) by {
            if w.has_voter(p.id, u) {
                let k = choose|k: int|
                    0 <= k < w.voters.len() && w.voters[k].poll_id == p.id && w.voters[k].user_id
                        == u;
                assert(pred(w.voters[k]));
            }
        }
    } else {
        assert(w.polls[i].chat_id == chat_id && w.polls[i].poll_id == poll_id);
    }
}

/// A change to chat settings, which leaves polls and voter records as they
/// are, moves no open poll's point of resolution: every poll keeps the
/// threshold it was opened with.
pub proof fn lemma_config_change_keeps_threshold(
    v: DbView,
    w: DbView,
    chat_id: i64,
    poll_id: i32,
    user_id: i64,
    choice: VoteType,
    now: i64,
)
    requires
        w.polls == v.polls,
        w.voters == v.voters,
    ensures
        w.poll_at(chat_id, poll_id) == v.poll_at(chat_id, poll_id),
        vote_resolves(w, chat_id, poll_id, choice) == vote_resolves(v, chat_id, poll_id, choice),
        (vote_step(w, chat_id, poll_id, user_id, choice, now).1 is Resolved) == (vote_step(
            v,
            chat_id,
            poll_id,
            user_id,
            choice,
            now,
        ).1 is Resolved),
{
}

/// A sweep at `now` hands out each task due by then once, and leaves none of
/// them queued, so no later sweep hands it out again. What the deletion of
/// the message then comes to plays no part.
pub proof fn lemma_sweep_exactly_once(s: Seq<MessageToDelete>, now: i64, later: i64)
    requires
        forall|a: int, b: int|
            #![trigger s[a], s[b]]
            0 <= a < s.len() && 0 <= b < s.len() && a != b ==> s[a].id != s[b].id,
    ensures
        forall|m: MessageToDelete|
            #![trigger due_at(s, now).contains(m)]
            s.contains(m) && m.timestamp <= now ==> due_at(s, now).contains(m),
        forall|a: int, b: int|
            #![trigger due_at(s, now)[a], due_at(s, now)[b]]
            0 <= a < due_at(s, now).len() && 0 <= b < due_at(s, now).len() && a != b
                ==> due_at(s, now)[a].id != due_at(s, now)[b].id,
        forall|m: MessageToDelete|
            #![trigger pending_after(s, now).contains(m)]
            due_at(s, now).contains(m) ==> !pending_after(s, now).contains(m),
        forall|m: MessageToDelete|
            #![trigger due_at(pending_after(s, now), later).contains(m)]
            due_at(s, now).contains(m) ==> !due_at(pending_after(s, now), later).contains(m),
{
    let is_due = |m: MessageToDelete| m.timestamp <= now;
    let waits = |m: MessageToDelete| m.timestamp > now;
    let d = due_at(s, now);
    let p = pending_after(s, now);
    assert forall|m: MessageToDelete| s.contains(m) && m.timestamp <= now implies d.contains(m) by {
        s.lemma_filter_contains_rev(is_due, m);
    }
    lemma_filter_ids_distinct(s, is_due);
    assert forall|m: MessageToDelete| d.contains(m) implies !p.contains(m) by {
        if p.contains(m) {
            assert(waits(m));
        }
        assert(is_due(m));
    }
    assert forall|m: MessageToDelete|
        d.contains(m) implies !due_at(p, later).contains(m) by {
        if due_at(p, later).contains(m) {
            p.lemma_filter_contains_rev(|x: MessageToDelete| x.timestamp <= later, m);
            assert(p.contains(m));
        }
    }
}

/// Filtering keeps task ids distinct.
proof fn lemma_filter_ids_distinct(s: Seq<MessageToDelete>, pred: spec_fn(MessageToDelete) -> bool)
    requires
        forall|a: int, b: int|
            #![trigger s[a], s[b]]
            0 <= a < s.len() && 0 <= b < s.len() && a != b ==> s[a].id != s[b].id,
    ensures
        forall|a: int, b: int|
            #![trigger s.filter(pred)[a], s.filter(pred)[b]]
            0 <= a < s.filter(pred).len() && 0 <= b < s.filter(pred).len() && a != b
                ==> s.filter(pred)[a].id != s.filter(pred)[b].id,
    decreases s.len(),
{
    if s.len() > 0 {
        let r = s.drop_last();
        let x = s.last();
        assert forall|a: int, b: int|
            #![trigger r[a], r[b]]
            0 <= a < r.len() && 0 <= b < r.len() && a != b implies r[a].id != r[b].id by {
            assert(r[a] == s[a] && r[b] == s[b]);
        }
        lemma_filter_ids_distinct(r, pred);
        assert(s =~= r.push(x));
        r.lemma_filter_push(x, pred);
        let g = r.filter(pred);
        if pred(x) {
            let f = g.push(x);
            assert forall|k: int| 0 <= k < g.len() implies g[k].id != x.id by {
                assert(g.contains(g[k]));
                r.lemma_filter_contains_rev(pred, g[k]);
                let j = choose|j: int| 0 <= j < r.len() && r[j] == g[k];
                assert(s[j] == g[k]);
                assert(s[s.len() - 1] == x);
            }
            assert forall|a: int, b: int|
                #![trigger f[a], f[b]]
                0 <= a < f.len() && 0 <= b < f.len() && a != b implies f[a].id != f[b].id by {
                if a < g.len() && b < g.len() {
                    assert(f[a] == g[a] && f[b] == g[b]);
                } else if a < g.len() {
                    assert(f[a] == g[a]);
                } else {
                    assert(f[b] == g[b]);
                }
            }
        }
    } else {
        assert(s.filter(pred) =~= Seq::<MessageToDelete>::empty());
    }
}

} // verus!
