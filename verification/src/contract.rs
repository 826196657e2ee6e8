//! The contest itself: one ledger and the book of those who registered.

use vstd::prelude::*;

use crate::error::ContestError;
use crate::identity::Address;
use crate::ledger::{Prizes, PrizeSplit, QuizState};
use crate::model::{Contest, Operation};
use crate::participant::{Participant, ParticipantBook};

verus! {

/// A winner and the prize that goes to it.
#[derive(Clone, Debug, PartialEq, Eq)]
pub struct Award {
    pub winner: Address,
    pub prize: i128,
}

/// Who is paid what when a contest closes.
#[derive(Clone, Debug, PartialEq, Eq)]
pub struct PayoutPlan {
    pub first: Award,
    pub second: Award,
    pub third: Award,
}

impl PayoutPlan {
    /// The three prizes of the plan.
    pub open spec fn split(&self) -> PrizeSplit {
        PrizeSplit {
            first: self.first.prize as int,
            second: self.second.prize as int,
            third: self.third.prize as int,
        }
    }

    /// The three prizes of the plan, first to third.
    pub fn prizes(&self) -> (prizes: Prizes)
        ensures
            prizes@ == self.split(),
    {
        Prizes { first: self.first.prize, second: self.second.prize, third: self.third.prize }
    }
}

/// Whether the record in slot `slot` of `book` belongs to `identity`.
spec fn filed_at(book: Seq<Participant>, slot: int, identity: Seq<char>) -> bool {
    0 <= slot < book.len() && book[slot].address@ == identity
}

/// No identity has two records in `book`.
spec fn one_record_each(book: Seq<Participant>) -> bool {
    forall|i: int, j: int|
        0 <= i < j < book.len() ==> #[trigger] book[i].address@ != #[trigger] book[j].address@
}

/// The scores on file in `book`, by identity.
spec fn scores_of(book: Seq<Participant>) -> Map<Seq<char>, u64> {
    Map::new(
        |identity: Seq<char>| exists|slot: int| filed_at(book, slot, identity),
        |identity: Seq<char>| book[choose|slot: int| filed_at(book, slot, identity)].score,
    )
}

/// The record in a slot of a book without duplicates is the one that the
/// scores show for its identity.
proof fn lemma_score_at(book: Seq<Participant>, slot: int)
    requires
        one_record_each(book),
        0 <= slot < book.len(),
    ensures
        scores_of(book).dom().contains(book[slot].address@),
        scores_of(book)[book[slot].address@] == book[slot].score,
{
    let identity = book[slot].address@;
    assert(filed_at(book, slot, identity));
    let chosen = choose|other: int| filed_at(book, other, identity);
    assert(filed_at(book, chosen, identity));
    assert(chosen == slot);
}

/// An identity without a record in `book` has no score.
proof fn lemma_not_filed(book: Seq<Participant>, identity: Seq<char>)
    requires
        forall|slot: int| !filed_at(book, slot, identity),
    ensures
        !scores_of(book).dom().contains(identity),
{
    if scores_of(book).dom().contains(identity) {
        let slot = choose|slot: int| filed_at(book, slot, identity);
        assert(filed_at(book, slot, identity));
    }
}

/// Filing a record for an identity that has none adds that identity to the
/// scores and leaves the others as they were.
proof fn lemma_filed(book: Seq<Participant>, record: Participant)
    requires
        one_record_each(book),
        forall|slot: int| !filed_at(book, slot, record.address@),
    ensures
        one_record_each(book.push(record)),
        scores_of(book.push(record)) =~= scores_of(book).insert(record.address@, record.score),
{
    let longer = book.push(record);
    assert forall|i: int, j: int| 0 <= i < j < longer.len() implies #[trigger] longer[i].address@
        != #[trigger] longer[j].address@ by {
        if j == book.len() {
            assert(!filed_at(book, i, record.address@));
        }
    }
    assert forall|identity: Seq<char>|
        scores_of(longer).dom().contains(identity) <==> #[trigger] scores_of(book).insert(
            record.address@,
            record.score,
        ).dom().contains(identity) by {
        if scores_of(longer).dom().contains(identity) {
            let slot = choose|slot: int| filed_at(longer, slot, identity);
            if slot < book.len() {
                assert(filed_at(book, slot, identity));
            }
        }
        if scores_of(book).dom().contains(identity) {
            let slot = choose|slot: int| filed_at(book, slot, identity);
            assert(filed_at(longer, slot, identity));
        }
        if identity == record.address@ {
            assert(filed_at(longer, book.len() as int, identity));
        }
    }
    assert forall|identity: Seq<char>| #[trigger]
        scores_of(longer).dom().contains(identity) implies scores_of(longer)[identity] == scores_of(
        book,
    ).insert(record.address@, record.score)[identity] by {
        let slot = choose|slot: int| filed_at(longer, slot, identity);
        assert(filed_at(longer, slot, identity));
        lemma_score_at(longer, slot);
        if slot < book.len() {
            assert(filed_at(book, slot, identity));
            lemma_score_at(book, slot);
        }
    }
}

/// Changing the score in one slot changes the score of that identity and
/// leaves the others as they were.
proof fn lemma_rescored(book: Seq<Participant>, slot: int, record: Participant)
    requires
        one_record_each(book),
        0 <= slot < book.len(),
        record.address@ == book[slot].address@,
    ensures
        one_record_each(book.update(slot, record)),
        scores_of(book.update(slot, record)) =~= scores_of(book).insert(
            record.address@,
            record.score,
        ),
{
    let changed = book.update(slot, record);
    assert forall|i: int, j: int| 0 <= i < j < changed.len() implies #[trigger] changed[i].address@
        != #[trigger] changed[j].address@ by {
        assert(changed[i].address@ == book[i].address@);
        assert(changed[j].address@ == book[j].address@);
    }
    assert forall|identity: Seq<char>|
        scores_of(changed).dom().contains(identity) <==> #[trigger] scores_of(book).insert(
            record.address@,
            record.score,
        ).dom().contains(identity) by {
        if scores_of(changed).dom().contains(identity) {
            let at = choose|at: int| filed_at(changed, at, identity);
            assert(filed_at(book, at, identity));
        }
        if scores_of(book).dom().contains(identity) {
            let at = choose|at: int| filed_at(book, at, identity);
            assert(filed_at(changed, at, identity));
        }
        if identity == record.address@ {
            assert(filed_at(changed, slot, identity));
        }
    }
    assert forall|identity: Seq<char>| #[trigger]
        scores_of(changed).dom().contains(identity) implies scores_of(changed)[identity]
        == scores_of(book).insert(record.address@, record.score)[identity] by {
        let at = choose|at: int| filed_at(changed, at, identity);
        assert(filed_at(changed, at, identity));
        assert(filed_at(book, at, identity));
        lemma_score_at(changed, at);
        lemma_score_at(book, at);
    }
}

/// One quiz contest: its ledger, once it has been opened, and the record of
/// everybody who has paid an entry.
pub struct QuizLumenContract {
    state: Option<QuizState>,
    book: Vec<Participant>,
}

impl View for QuizLumenContract {
    type V = Contest;

    closed spec fn view(&self) -> Contest {
        Contest {
            ledger: match self.state {
                Some(state) => Some(state@),
                None => None,
            },
            scores: scores_of(self.book@),
        }
    }
}

impl QuizLumenContract {
    /// What holds of every contest: fee and pool are not negative, and the
    /// book is in order.
    pub open spec fn wf(&self) -> bool {
        &&& self@.wf()
        &&& self.book_in_order()
    }

    /// Only paid entries are on file, one for each identity, and no more
    /// entries were counted than records are on file.
    pub closed spec fn book_in_order(&self) -> bool {
        &&& match self.state {
            Some(state) => state.total_participants <= self.book@.len(),
            None => true,
        }
        &&& forall|slot: int| 0 <= slot < self.book@.len() ==> (#[trigger] self.book@[slot]).entry_paid
        &&& one_record_each(self.book@)
    }

    /// A contest that has not been opened yet: nobody is registered, and
    /// nobody can register until `initialize_quiz` opens it.
    pub fn new() -> (contest: QuizLumenContract)
        ensures
            contest.wf(),
            contest@ == Contest::fresh(),
    {
        let contest = QuizLumenContract { state: None, book: Vec::new() };
        assert(contest@ =~= Contest::fresh());
        contest
    }

    /// The slot in which the record named by `key` is filed, if it is on file.
    fn find(&self, key: &ParticipantBook) -> (found: Option<usize>)
        ensures
            match found {
                Some(slot) => filed_at(self.book@, slot as int, key.identity()),
                None => forall|slot: int| !filed_at(self.book@, slot, key.identity()),
            },
    {
        let mut slot: usize = 0;
        while slot < self.book.len()
            invariant
                slot <= self.book@.len(),
                forall|before: int| 0 <= before < slot ==> !filed_at(self.book@, before, key.identity()),
            decreases self.book@.len() - slot,
        {
            if key.names(&self.book[slot]) {
                return Some(slot);
            }
            slot += 1;
        }
        None
    }

    /// Opens the contest with `entry_fee` as the least payment that buys an
    /// entry: active, with an empty pool and a count of zero.
    ///
    /// Opening a contest that was opened before starts its ledger afresh,
    /// also after it has closed. The records of those who registered stay on
    /// file, so none of them can register a second time.
    pub fn initialize_quiz(&mut self, entry_fee: i128)
        requires
            old(self).wf(),
            0 <= entry_fee,
        ensures
            final(self).wf(),
            final(self)@ == old(self)@.initialize(entry_fee as int),
            final(self)@ == old(self)@.apply((Operation::Initialize { entry_fee: entry_fee as int })),
    {
        self.state = Some(QuizState::open(entry_fee));
        assert(self@ =~= old(self)@.initialize(entry_fee as int));
    }

    /// Registers `participant`, who pays `payment` for the entry.
    ///
    /// `authorized` says whether the caller has shown that it acts for
    /// `participant`. The entry is refused, and nothing changes, with
    /// `Unauthorized` if it has not; else with `ContestNotActive` if the
    /// contest is not active; else with `InsufficientPayment` if `payment` is
    /// below the entry fee; else with `AlreadyRegistered` if `participant` has
    /// paid an entry before. Otherwise the participant is filed with a score of
    /// zero, the whole payment goes into the pool, the count of participants
    /// goes up by one, and the result is `Ok(true)`.
    pub fn register_participant(&mut self, participant: Address, payment: i128, authorized: bool) -> (outcome:
        Result<bool, ContestError>)
        requires
            old(self).wf(),
            old(self)@.register(participant@, payment as int, authorized) is Ok ==> old(
                self,
            )@.state().total_pool + payment <= i128::MAX,
        ensures
            final(self).wf(),
            match old(self)@.register(participant@, payment as int, authorized) {
                Ok(next) => outcome == Ok::<bool, ContestError>(true) && final(self)@ == next,
                Err(error) => outcome == Err::<bool, ContestError>(error) && final(self)@ == old(
                    self,
                )@,
            },
            final(self)@ == old(self)@.apply(
                (Operation::Register { identity: participant@, payment: payment as int, authorized }),
            ),
    {
        let key = ParticipantBook::Participant(participant);
        let mut state = self.get_quiz_state();
        let found = self.find(&key);
        let already_paid = found.is_some();
        proof {
            if let Some(slot) = found {
                lemma_score_at(self.book@, slot as int);
            }
        }
        match state.check_entry(already_paid, payment, authorized) {
            Err(error) => Err(error),
            Ok(()) => {
                let record = Participant::enrolled(key.into_address());
                proof {
                    lemma_filed(self.book@, record);
                }
                self.book.push(record);
                assert(state.total_participants < self.book.len());
                state.book_entry(payment);
                self.state = Some(state);
                assert(self@ =~= old(self)@.register(participant@, payment as int, authorized)->Ok_0);
                Ok(true)
            },
        }
    }

    /// Sets the score of `participant` to `score`, whatever it was before.
    ///
    /// Only a participant who has paid an entry has a score: for anybody else
    /// the update is refused with `NotRegistered`, in every state of the
    /// contest. Only an active contest takes scores: for a registered
    /// participant of a contest that is not active the update is refused with
    /// `ContestNotActive`. A refused update changes nothing, and no update ever
    /// touches the ledger.
    pub fn update_score(&mut self, participant: Address, score: u64) -> (outcome: Result<(), ContestError>)
        requires
            old(self).wf(),
        ensures
            final(self).wf(),
            match old(self)@.update_score(participant@, score) {
                Ok(next) => outcome == Ok::<(), ContestError>(()) && final(self)@ == next,
                Err(error) => outcome == Err::<(), ContestError>(error) && final(self)@ == old(self)@,
            },
            final(self)@ == old(self)@.apply((Operation::UpdateScore { identity: participant@, score })),
    {
        let key = ParticipantBook::Participant(participant);
        let state = self.get_quiz_state();
        match self.find(&key) {
            None => {
                proof {
                    assert(key.identity() == participant@);
                    lemma_not_filed(self.book@, participant@);
                }
                Err(ContestError::NotRegistered)
            },
            Some(slot) => {
                let outcome = self.book[slot].record_score(&state, score);
                proof {
                    lemma_score_at(old(self).book@, slot as int);
                    lemma_rescored(old(self).book@, slot as int, self.book@[slot as int]);
                    assert(self.book@ =~= old(self).book@.update(slot as int, self.book@[slot as int]));
                    if outcome is Err {
                        assert(self.book@ =~= old(self).book@);
                    } else {
                        assert(self@ =~= old(self)@.update_score(participant@, score)->Ok_0);
                    }
                }
                outcome
            },
        }
    }

    /// Closes the contest and plans the payout of the pool: half of it to
    /// `winner1`, three tenths to `winner2` and one fifth to `winner3`, each
    /// rounded down. What rounding leaves over is paid to nobody.
    ///
    /// The winners are taken on the caller's word: they are not looked up in
    /// the book, nor held against the scores. The contest is closed for good and
    /// its pool emptied. A contest that is not active is left as it is and the
    /// call is refused with `ContestNotActive`, so no pool is paid out twice.
    pub fn distribute_prizes(&mut self, winner1: Address, winner2: Address, winner3: Address) -> (outcome:
        Result<PayoutPlan, ContestError>)
        requires
            old(self).wf(),
        ensures
            final(self).wf(),
            match old(self)@.distribute() {
                Ok((next, split)) => {
                    &&& outcome matches Ok(plan)
                    &&& plan.split() == split
                    &&& plan.first.winner@ == winner1@
                    &&& plan.second.winner@ == winner2@
                    &&& plan.third.winner@ == winner3@
                    &&& final(self)@ == next
                },
                Err(error) => outcome == Err::<PayoutPlan, ContestError>(error) && final(self)@ == old(
                    self,
                )@,
            },
            final(self)@ == old(self)@.apply(Operation::Distribute),
    {
        let mut state = self.get_quiz_state();
        match state.close() {
            Err(error) => Err(error),
            Ok(prizes) => {
                self.state = Some(state);
                assert(self@ =~= old(self)@.distribute()->Ok_0.0);
                Ok(
                    PayoutPlan {
                        first: Award { winner: winner1, prize: prizes.first },
                        second: Award { winner: winner2, prize: prizes.second },
                        third: Award { winner: winner3, prize: prizes.third },
                    },
                )
            },
        }
    }

    /// The state of the contest. A contest that was never opened shows an
    /// inactive state with everything at zero; it differs from a closed
    /// contest only in that a closed one may have counted participants.
    pub fn get_quiz_state(&self) -> (state: QuizState)
        requires
            self.wf(),
        ensures
            state@ == self@.state(),
            state.wf(),
    {
        match self.state {
            Some(state) => state,
            None => QuizState::default(),
        }
    }

    /// The record of `participant`. For somebody who never registered this is
    /// a record with a score of zero and no entry paid.
    pub fn get_participant(&self, participant: Address) -> (record: Participant)
        requires
            self.wf(),
        ensures
            record.address@ == participant@,
            record.entry_paid == self@.is_registered(participant@),
            record.score == self@.score_of(participant@),
    {
        let key = ParticipantBook::Participant(participant);
        match self.find(&key) {
            Some(slot) => {
                proof {
                    lemma_score_at(self.book@, slot as int);
                }
                let score = self.book[slot].score;
                let mut record = Participant::enrolled(key.into_address());
                record.score = score;
                record
            },
            None => Participant::unregistered(key.into_address()),
        }
    }
}

} // verus!
