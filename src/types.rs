//! Row types of the store and the bounds of a poll's threshold.

use vstd::prelude::*;

verus! {

/// Votes a poll needs before it resolves, where a chat has not chosen its own.
pub const DEFAULT_MIN_VOTES: i64 = 5;

/// Seconds a resolved poll's message stays up, where a chat has not chosen its own.
pub const DEFAULT_DELETE_DELAY: i64 = 5;

/// The smallest threshold a chat may choose.
pub const MIN_THRESHOLD: i64 = 1;

/// The largest threshold a chat may choose.
pub const MAX_THRESHOLD: i64 = 10;

/// The side a vote is cast on: delete the message, or keep it.
#[derive(Clone, Copy, Debug, PartialEq, Eq, Structural)]
pub enum VoteType {
    Yes,
    No,
}

/// One open deletion vote.
///
/// `poll_id` is the id of the message that shows the poll, `message_id` the id
/// of the message put to the vote, `message_user_id` its author.
#[derive(Clone, Copy, Debug, PartialEq, Eq, Structural)]
pub struct Poll {
    pub id: i64,
    pub chat_id: i64,
    pub poll_id: i32,
    pub message_id: i32,
    pub message_user_id: i64,
    pub minimum_vote_count: i64,
    pub vote_count_yes: i64,
    pub vote_count_no: i64,
}

/// The record that a user has voted on a poll.
#[derive(Clone, Copy, Debug, PartialEq, Eq, Structural)]
pub struct Voter {
    pub id: i64,
    pub poll_id: i64,
    pub user_id: i64,
}

/// The settings of one chat.
#[derive(Clone, Debug)]
pub struct Chat {
    pub id: i64,
    pub chat_id: i64,
    pub minimum_vote_count: i64,
    pub locale: String,
    pub poll_delete_delay: i64,
}

/// A message to be deleted once `timestamp` (seconds since the epoch) has passed.
#[derive(Clone, Copy, Debug, PartialEq, Eq, Structural)]
pub struct MessageToDelete {
    pub id: i64,
    pub chat_id: i64,
    pub message_id: i32,
    pub timestamp: i64,
}

/// What a chat's settings hold, as plain values.
pub ghost struct ChatView {
    pub id: i64,
    pub chat_id: i64,
    pub minimum_vote_count: i64,
    pub locale: Seq<char>,
    pub poll_delete_delay: i64,
}

impl View for Chat {
    type V = ChatView;

    open spec fn view(&self) -> ChatView {
        ChatView {
            id: self.id,
            chat_id: self.chat_id,
            minimum_vote_count: self.minimum_vote_count,
            locale: self.locale@,
            poll_delete_delay: self.poll_delete_delay,
        }
    }
}

impl VoteType {
    /// The count of this side's votes on `p`.
    pub open spec fn count_of(self, p: Poll) -> i64 {
        match self {
            VoteType::Yes => p.vote_count_yes,
            VoteType::No => p.vote_count_no,
        }
    }
}

impl Poll {
    /// This poll with one more vote on side `choice`.
    pub open spec fn with_vote(self, choice: VoteType) -> Poll {
        match choice {
            VoteType::Yes => Poll { vote_count_yes: (self.vote_count_yes + 1) as i64, ..self },
            VoteType::No => Poll { vote_count_no: (self.vote_count_no + 1) as i64, ..self },
        }
    }

    /// Neither side has reached the threshold yet.
    pub open spec fn is_open(self) -> bool {
        &&& self.vote_count_yes < self.minimum_vote_count
        &&& self.vote_count_no < self.minimum_vote_count
    }

    /// The counts a stored poll can hold: never negative, never past its threshold,
    /// and a threshold within the chosen range.
    pub open spec fn counts_valid(self) -> bool {
        &&& MIN_THRESHOLD <= self.minimum_vote_count <= MAX_THRESHOLD
        &&& 0 <= self.vote_count_yes <= self.minimum_vote_count
        &&& 0 <= self.vote_count_no <= self.minimum_vote_count
    }
}

} // verus!
