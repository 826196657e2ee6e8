//! The contest ledger: entry fee, pooled stakes, lifecycle flag and
//! registration counter, with the rules for taking an entry and for splitting
//! the pool when the contest closes.

use vstd::prelude::*;

use crate::error::ContestError;

verus! {

/// Share of the pool paid to the first-placed winner, in percent.
pub const FIRST_PRIZE_PERCENT: i128 = 50;

/// Share of the pool paid to the second-placed winner, in percent.
pub const SECOND_PRIZE_PERCENT: i128 = 30;

/// Share of the pool paid to the third-placed winner, in percent.
pub const THIRD_PRIZE_PERCENT: i128 = 20;

/// `percent` hundredths of `amount`, rounded down.
pub open spec fn percent_share(amount: int, percent: int) -> int {
    (amount * percent) / 100
}

/// The ledger as mathematical values.
pub struct Ledger {
    pub total_pool: int,
    pub entry_fee: int,
    pub is_active: bool,
    pub total_participants: nat,
}

/// The three prizes computed when a contest closes.
#[derive(Clone, Copy, Debug, PartialEq, Eq, Structural)]
pub struct Prizes {
    pub first: i128,
    pub second: i128,
    pub third: i128,
}

/// The prizes as mathematical values.
pub struct PrizeSplit {
    pub first: int,
    pub second: int,
    pub third: int,
}

impl View for Prizes {
    type V = PrizeSplit;

    open spec fn view(&self) -> PrizeSplit {
        PrizeSplit { first: self.first as int, second: self.second as int, third: self.third as int }
    }
}

impl PrizeSplit {
    /// The split of `pool`: half, three tenths and one fifth, each rounded down.
    /// What rounding leaves over is paid to nobody.
    pub open spec fn of(pool: int) -> PrizeSplit {
        PrizeSplit {
            first: percent_share(pool, FIRST_PRIZE_PERCENT as int),
            second: percent_share(pool, SECOND_PRIZE_PERCENT as int),
            third: percent_share(pool, THIRD_PRIZE_PERCENT as int),
        }
    }

    /// The sum of the three prizes.
    pub open spec fn total(self) -> int {
        self.first + self.second + self.third
    }
}

/// Computes `percent` hundredths of `amount`, rounded down, without ever
/// forming the product `amount * percent` in machine arithmetic.
pub fn percent_of(amount: i128, percent: i128) -> (share: i128)
    requires
        0 <= amount,
        0 <= percent <= 100,
    ensures
        share == percent_share(amount as int, percent as int),
        0 <= share <= amount,
{
    let hundreds: i128 = amount / 100;
    let rest: i128 = amount % 100;
    proof {
        let a = amount as int;
        let p = percent as int;
        let q = hundreds as int;
        let r = rest as int;
        assert(a == 100 * q + r && 0 <= r < 100);
        assert(0 <= q * p <= q * 100 && 0 <= r * p <= 100 * 100) by (nonlinear_arith)
            requires
                0 <= q,
                0 <= r < 100,
                0 <= p <= 100,
        ;
        assert(a * p == 100 * (q * p) + r * p) by (nonlinear_arith)
            requires
                a == 100 * q + r,
        ;
        assert((100 * (q * p) + r * p) / 100 == q * p + (r * p) / 100) by (nonlinear_arith);
        assert((r * p) / 100 <= r) by (nonlinear_arith)
            requires
                0 <= r,
                0 <= p <= 100,
        ;
    }
    hundreds * percent + (rest * percent) / 100
}

impl Ledger {
    /// The ledger of a contest that was never opened: nothing in it, and not
    /// active. It reads like a closed contest in which nobody ever registered.
    pub open spec fn idle() -> Ledger {
        Ledger { total_pool: 0, entry_fee: 0, is_active: false, total_participants: 0 }
    }

    /// The ledger of a contest just opened with `entry_fee`.
    pub open spec fn opened(entry_fee: int) -> Ledger {
        Ledger { total_pool: 0, entry_fee, is_active: true, total_participants: 0 }
    }

    /// Fee and pool are amounts of money: neither is negative.
    pub open spec fn wf(self) -> bool {
        0 <= self.entry_fee && 0 <= self.total_pool
    }

    /// Why an entry is turned down, if it is. The tests are made in this
    /// order, and the first that fails names the error: the caller acts for
    /// the identity; the contest is active; the payment covers the fee; the
    /// identity has not paid before.
    pub open spec fn entry_refusal(self, already_paid: bool, payment: int, authorized: bool) -> Option<
        ContestError,
    > {
        if !authorized {
            Some(ContestError::Unauthorized)
        } else if !self.is_active {
            Some(ContestError::ContestNotActive)
        } else if payment < self.entry_fee {
            Some(ContestError::InsufficientPayment)
        } else if already_paid {
            Some(ContestError::AlreadyRegistered)
        } else {
            None
        }
    }

    /// Why a score is turned down, if it is. Only who has paid an entry has a
    /// score, in every state of the contest; and only an active contest takes
    /// scores, so that what a closed contest has on file stays as it is.
    pub open spec fn score_refusal(self, entry_paid: bool) -> Option<ContestError> {
        if !entry_paid {
            Some(ContestError::NotRegistered)
        } else if !self.is_active {
            Some(ContestError::ContestNotActive)
        } else {
            None
        }
    }

    /// The ledger after an entry of `payment` was taken: the whole payment
    /// goes into the pool, also where it exceeds the fee.
    pub open spec fn with_entry(self, payment: int) -> Ledger {
        Ledger {
            total_pool: self.total_pool + payment,
            total_participants: self.total_participants + 1,
            ..self
        }
    }

    /// The ledger after the pool was paid out: empty, and closed for good.
    pub open spec fn settled(self) -> Ledger {
        Ledger { total_pool: 0, is_active: false, ..self }
    }
}

/// The state of one contest.
#[derive(Clone, Copy, Debug, PartialEq, Eq, Structural)]
pub struct QuizState {
    /// The stakes collected and not yet paid out.
    pub total_pool: i128,
    /// The least payment that buys an entry.
    pub entry_fee: i128,
    /// Whether entries are taken.
    pub is_active: bool,
    /// How many entries were taken.
    pub total_participants: u64,
}

impl View for QuizState {
    type V = Ledger;

    open spec fn view(&self) -> Ledger {
        Ledger {
            total_pool: self.total_pool as int,
            entry_fee: self.entry_fee as int,
            is_active: self.is_active,
            total_participants: self.total_participants as nat,
        }
    }
}

impl Default for QuizState {
    /// The state read from a contest that was never opened.
    fn default() -> (state: QuizState)
        ensures
            state@ == Ledger::idle(),
    {
        QuizState { total_pool: 0, entry_fee: 0, is_active: false, total_participants: 0 }
    }
}

impl QuizState {
    /// Fee and pool are not negative.
    pub open spec fn wf(&self) -> bool {
        self@.wf()
    }

    /// Whether the machine's integers can hold the ledger after one more
    /// entry of `payment`.
    pub open spec fn has_room_for(&self, payment: int) -> bool {
        self.total_pool + payment <= i128::MAX && self.total_participants < u64::MAX
    }

    /// The state of a contest that opens with `entry_fee`: active, with an
    /// empty pool and nobody registered.
    pub fn open(entry_fee: i128) -> (state: QuizState)
        requires
            0 <= entry_fee,
        ensures
            state@ == Ledger::opened(entry_fee as int),
            state.wf(),
    {
        QuizState { total_pool: 0, entry_fee, is_active: true, total_participants: 0 }
    }

    /// Decides whether an entry is taken, and says why if it is not.
    ///
    /// `already_paid` says whether the identity has paid an entry before, and
    /// `authorized` whether the caller has shown that it acts for the identity.
    pub fn check_entry(&self, already_paid: bool, payment: i128, authorized: bool) -> (outcome: Result<
        (),
        ContestError,
    >)
        ensures
            match self@.entry_refusal(already_paid, payment as int, authorized) {
                Some(error) => outcome == Err::<(), ContestError>(error),
                None => outcome == Ok::<(), ContestError>(()),
            },
    {
        if !authorized {
            return Err(ContestError::Unauthorized);
        }
        if !self.is_active {
            return Err(ContestError::ContestNotActive);
        }
        if payment < self.entry_fee {
            return Err(ContestError::InsufficientPayment);
        }
        if already_paid {
            return Err(ContestError::AlreadyRegistered);
        }
        Ok(())
    }

    /// Books an entry that `check_entry` has let through: the whole payment
    /// goes into the pool, also where it exceeds the fee, and the count of
    /// participants goes up by one.
    pub fn book_entry(&mut self, payment: i128)
        requires
            old(self).wf(),
            old(self)@.entry_refusal(false, payment as int, true) is None,
            old(self).has_room_for(payment as int),
        ensures
            final(self)@ == old(self)@.with_entry(payment as int),
            final(self).wf(),
    {
        self.total_pool = self.total_pool + payment;
        self.total_participants = self.total_participants + 1;
    }

    /// Closes the contest and splits the pool.
    ///
    /// An active contest is closed for good, its pool is emptied, and the
    /// three prizes computed from the pool as it stood are returned. A contest
    /// that is not active is left as it is and the call is refused with
    /// `ContestNotActive`: nothing is ever split twice.
    pub fn close(&mut self) -> (outcome: Result<Prizes, ContestError>)
        requires
            old(self).wf(),
        ensures
            old(self).is_active ==> outcome is Ok && outcome->Ok_0@ == PrizeSplit::of(
                old(self)@.total_pool,
            ) && final(self)@ == old(self)@.settled(),
            !old(self).is_active ==> outcome == Err::<Prizes, ContestError>(
                ContestError::ContestNotActive,
            ) && *final(self) == *old(self),
            final(self).wf(),
    {
        if !self.is_active {
            return Err(ContestError::ContestNotActive);
        }
        let pool: i128 = self.total_pool;
        let prizes = Prizes {
            first: percent_of(pool, FIRST_PRIZE_PERCENT),
            second: percent_of(pool, SECOND_PRIZE_PERCENT),
            third: percent_of(pool, THIRD_PRIZE_PERCENT),
        };
        self.is_active = false;
        self.total_pool = 0;
        Ok(prizes)
    }
}

} // verus!
