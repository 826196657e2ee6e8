//! The contest as a mathematical state machine.
//!
//! A contest is either not yet opened, active, or closed. Opening makes it
//! active; closing pays out the pool and is final. What the executable
//! contest does is stated against the transitions defined here.

use vstd::prelude::*;

use crate::error::ContestError;
use crate::ledger::{Ledger, PrizeSplit};

verus! {

/// One contest: its ledger, if it was ever opened, and the score of every
/// identity that has paid its entry.
#[verifier::ext_equal]
pub struct Contest {
    pub ledger: Option<Ledger>,
    pub scores: Map<Seq<char>, u64>,
}

impl Contest {
    /// A contest that was never opened and in which nobody is registered.
    pub open spec fn fresh() -> Contest {
        Contest { ledger: None, scores: Map::empty() }
    }

    /// The ledger as a reader sees it: a contest never opened shows the idle
    /// ledger.
    pub open spec fn state(self) -> Ledger {
        match self.ledger {
            Some(ledger) => ledger,
            None => Ledger::idle(),
        }
    }

    /// Fee and pool are not negative.
    pub open spec fn wf(self) -> bool {
        self.state().wf()
    }

    /// Whether `identity` has paid its entry.
    pub open spec fn is_registered(self, identity: Seq<char>) -> bool {
        self.scores.dom().contains(identity)
    }

    /// The score on file for `identity`, zero if nothing is on file.
    pub open spec fn score_of(self, identity: Seq<char>) -> u64 {
        if self.is_registered(identity) {
            self.scores[identity]
        } else {
            0
        }
    }

    /// Opens the contest with `entry_fee`. Opening a contest that was opened
    /// before starts its ledger afresh; the records of those who registered
    /// stay on file.
    pub open spec fn initialize(self, entry_fee: int) -> Contest {
        Contest { ledger: Some(Ledger::opened(entry_fee)), ..self }
    }

    /// Registers `identity` with `payment`, or says why not.
    pub open spec fn register(self, identity: Seq<char>, payment: int, authorized: bool) -> Result<
        Contest,
        ContestError,
    > {
        match self.state().entry_refusal(self.is_registered(identity), payment, authorized) {
            Some(error) => Err(error),
            None => Ok(
                Contest {
                    ledger: Some(self.state().with_entry(payment)),
                    scores: self.scores.insert(identity, 0),
                },
            ),
        }
    }

    /// Sets the score of `identity`, or says why not. Who has not paid an
    /// entry has no score to set, in any state of the contest; and a contest
    /// that is not active takes no score.
    pub open spec fn update_score(self, identity: Seq<char>, score: u64) -> Result<Contest, ContestError> {
        match self.state().score_refusal(self.is_registered(identity)) {
            Some(error) => Err(error),
            None => Ok(Contest { scores: self.scores.insert(identity, score), ..self }),
        }
    }

    /// Closes an active contest: the pool is split and emptied, and the
    /// contest stays closed.
    pub open spec fn distribute(self) -> Result<(Contest, PrizeSplit), ContestError> {
        if self.state().is_active {
            Ok(
                (
                    Contest { ledger: Some(self.state().settled()), ..self },
                    PrizeSplit::of(self.state().total_pool),
                ),
            )
        } else {
            Err(ContestError::ContestNotActive)
        }
    }

    /// The contest after `operation` was put to it. A refused operation
    /// leaves the contest as it was.
    pub open spec fn apply(self, operation: Operation) -> Contest {
        match operation {
            Operation::Initialize { entry_fee } => self.initialize(entry_fee),
            Operation::Register { identity, payment, authorized } => match self.register(
                identity,
                payment,
                authorized,
            ) {
                Ok(next) => next,
                Err(_) => self,
            },
            Operation::UpdateScore { identity, score } => match self.update_score(identity, score) {
                Ok(next) => next,
                Err(_) => self,
            },
            Operation::Distribute => match self.distribute() {
                Ok((next, _)) => next,
                Err(_) => self,
            },
        }
    }

    /// The contest after `operations` were put to it, first to last.
    pub open spec fn apply_all(self, operations: Seq<Operation>) -> Contest
        decreases operations.len(),
    {
        if operations.len() == 0 {
            self
        } else {
            self.apply_all(operations.drop_last()).apply(operations.last())
        }
    }

    /// Whether `operation` is a registration that this contest takes.
    pub open spec fn takes(self, operation: Operation) -> bool {
        operation matches Operation::Register { identity, payment, authorized } && self.register(
            identity,
            payment,
            authorized,
        ) is Ok
    }

    /// Whether the operation at `index` of `operations`, put to this contest
    /// first to last, is a registration that is taken when its turn comes.
    pub open spec fn taken_at(self, operations: Seq<Operation>, index: int) -> bool {
        0 <= index < operations.len() && self.apply_all(operations.take(index)).takes(
            operations[index],
        )
    }

    /// What `operations`, put to this contest first to last, pay into its
    /// pool: the payments of the registrations that are taken.
    pub open spec fn paid_in(self, operations: Seq<Operation>) -> int
        decreases operations.len(),
    {
        if operations.len() == 0 {
            0
        } else {
            let earlier = operations.drop_last();
            self.paid_in(earlier) + if self.apply_all(earlier).takes(operations.last()) {
                operations.last().payment()
            } else {
                0
            }
        }
    }

    /// How many of `operations`, put to this contest first to last, are
    /// registrations that are taken.
    pub open spec fn entries_taken(self, operations: Seq<Operation>) -> nat
        decreases operations.len(),
    {
        if operations.len() == 0 {
            0
        } else {
            let earlier = operations.drop_last();
            self.entries_taken(earlier) + if self.apply_all(earlier).takes(operations.last()) {
                1nat
            } else {
                0nat
            }
        }
    }
}

/// One call on a contest.
pub enum Operation {
    Initialize { entry_fee: int },
    Register { identity: Seq<char>, payment: int, authorized: bool },
    UpdateScore { identity: Seq<char>, score: u64 },
    Distribute,
}

impl Operation {
    /// Whether the operation opens a contest.
    pub open spec fn opens(self) -> bool {
        self is Initialize
    }

    /// Whether the operation asks to register `identity`.
    pub open spec fn registers(self, identity: Seq<char>) -> bool {
        self matches Operation::Register { identity: named, .. } && named == identity
    }

    /// The payment offered with a registration, zero for any other operation.
    pub open spec fn payment(self) -> int {
        match self {
            Operation::Register { payment, .. } => payment,
            _ => 0,
        }
    }

    /// Whether the operation can stand for a call: a contest is only ever
    /// opened with a fee that is not negative.
    pub open spec fn wf(self) -> bool {
        self matches Operation::Initialize { entry_fee } ==> 0 <= entry_fee
    }
}

/// The sum of the payments offered with the registrations among `operations`.
pub open spec fn payments_offered(operations: Seq<Operation>) -> int
    decreases operations.len(),
{
    if operations.len() == 0 {
        0
    } else {
        payments_offered(operations.drop_last()) + operations.last().payment()
    }
}

} // verus!
