//! What the contest keeps about one participant.

use vstd::prelude::*;

use crate::error::ContestError;
use crate::identity::Address;
use crate::ledger::QuizState;

verus! {

/// The record of one identity: its score and whether it has paid its entry.
///
/// A record with `entry_paid == false` stands for "never registered": it is
/// what a lookup hands out when nothing is on file, and it is never filed.
#[derive(Clone, Debug, PartialEq, Eq)]
pub struct Participant {
    pub address: Address,
    pub score: u64,
    pub entry_paid: bool,
}

/// The key under which a participant's record is filed.
#[derive(Clone, Debug, PartialEq, Eq)]
pub enum ParticipantBook {
    Participant(Address),
}

impl ParticipantBook {
    /// The identity whose record this key names.
    pub open spec fn identity(&self) -> Seq<char> {
        match self {
            ParticipantBook::Participant(address) => address@,
        }
    }

    /// The address whose record this key names.
    pub fn address(&self) -> (address: &Address)
        ensures
            address@ == self.identity(),
    {
        match self {
            ParticipantBook::Participant(address) => address,
        }
    }

    /// Whether `record` is the one that this key names.
    pub fn names(&self, record: &Participant) -> (named: bool)
        ensures
            named == (record.address@ == self.identity()),
    {
        match self {
            ParticipantBook::Participant(address) => *address == record.address,
        }
    }

    /// Takes the address back out of the key.
    pub fn into_address(self) -> (address: Address)
        ensures
            address@ == self.identity(),
    {
        match self {
            ParticipantBook::Participant(address) => address,
        }
    }
}

impl Participant {
    /// The record of an identity that has nothing on file: no score, no entry.
    pub fn unregistered(address: Address) -> (record: Participant)
        ensures
            record.address@ == address@,
            record.score == 0,
            !record.entry_paid,
    {
        Participant { address, score: 0, entry_paid: false }
    }

    /// The record filed when `address` pays its entry: score zero, entry paid.
    pub fn enrolled(address: Address) -> (record: Participant)
        ensures
            record.address@ == address@,
            record.score == 0,
            record.entry_paid,
    {
        Participant { address, score: 0, entry_paid: true }
    }

    /// Overwrites the score of a registered participant while the contest, whose
    /// state is `state`, is active. The new score is taken as it comes: it need
    /// not be higher than the old one.
    ///
    /// A record that has not paid its entry is refused with `NotRegistered`,
    /// whatever the state of the contest. A paid record is refused with
    /// `ContestNotActive` where the contest is not active. A refused record is
    /// left as it is.
    pub fn record_score(&mut self, state: &QuizState, score: u64) -> (outcome: Result<(), ContestError>)
        ensures
            match state@.score_refusal(old(self).entry_paid) {
                Some(error) => outcome == Err::<(), ContestError>(error) && *final(self) == *old(self),
                None => outcome == Ok::<(), ContestError>(()) && *final(self) == (Participant {
                    score,
                    ..*old(self)
                }),
            },
    {
        if !self.entry_paid {
            return Err(ContestError::NotRegistered);
        }
        if !state.is_active {
            return Err(ContestError::ContestNotActive);
        }
        self.score = score;
        Ok(())
    }
}

} // verus!
