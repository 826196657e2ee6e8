//! What holds of every contest, whatever is asked of it and in whatever order.

use vstd::prelude::*;

use crate::error::ContestError;
use crate::ledger::PrizeSplit;
use crate::model::{payments_offered, Contest, Operation};

verus! {

/// Whatever is put to a contest, fee and pool stay non-negative.
pub proof fn validity_is_kept(contest: Contest, operations: Seq<Operation>)
    requires
        contest.wf(),
        forall|k: int| 0 <= k < operations.len() ==> (#[trigger] operations[k]).wf(),
    ensures
        contest.apply_all(operations).wf(),
    decreases operations.len(),
{
    if operations.len() > 0 {
        validity_is_kept(contest, operations.drop_last());
    }
}

/// As long as the contest is neither opened anew nor closed, its pool grows by
/// exactly the payments of the registrations that it takes, and its count of
/// participants by their number. The fee stays as it was.
pub proof fn pool_holds_what_was_paid_in(contest: Contest, operations: Seq<Operation>)
    requires
        forall|k: int|
            0 <= k < operations.len() ==> !(#[trigger] operations[k]).opens()
                && operations[k] !is Distribute,
    ensures
        contest.apply_all(operations).state().total_pool == contest.state().total_pool
            + contest.paid_in(operations),
        contest.apply_all(operations).state().total_participants
            == contest.state().total_participants + contest.entries_taken(operations),
        contest.apply_all(operations).state().entry_fee == contest.state().entry_fee,
        contest.apply_all(operations).state().is_active == contest.state().is_active,
    decreases operations.len(),
{
    if operations.len() > 0 {
        let earlier = operations.drop_last();
        pool_holds_what_was_paid_in(contest, earlier);
        assert(!operations.last().opens() && operations.last() !is Distribute);
    }
}

/// After a run of registrations that were all taken, the pool has grown by
/// exactly the sum of their payments. In a contest just opened, whose pool
/// is empty, the pool is that sum.
pub proof fn pool_is_sum_of_payments(contest: Contest, registrations: Seq<Operation>)
    requires
        forall|k: int|
            0 <= k < registrations.len() ==> contest.apply_all(registrations.take(k)).takes(
                #[trigger] registrations[k],
            ),
    ensures
        contest.apply_all(registrations).state().total_pool == contest.state().total_pool
            + payments_offered(registrations),
        contest.apply_all(registrations).state().total_participants
            == contest.state().total_participants + registrations.len(),
    decreases registrations.len(),
{
    if registrations.len() > 0 {
        let earlier = registrations.drop_last();
        let last = registrations.len() - 1;
        assert forall|k: int| 0 <= k < earlier.len() implies contest.apply_all(earlier.take(k)).takes(
            #[trigger] earlier[k],
        ) by {
            assert(earlier.take(k) =~= registrations.take(k));
            assert(earlier[k] == registrations[k]);
        }
        pool_is_sum_of_payments(contest, earlier);
        assert(registrations.take(last) =~= earlier);
        assert(contest.apply_all(earlier).takes(registrations[last]));
    }
}

/// Closing an active contest empties its pool and hands out no more than was
/// in it. Each of the three prizes is rounded down on its own, so less than
/// one unit per prize is left over, and what is left over is paid to nobody.
pub proof fn closing_pays_out_the_pool(contest: Contest)
    requires
        contest.wf(),
        contest.state().is_active,
    ensures
        contest.distribute() matches Ok((closed, split)) && {
            &&& closed.state().total_pool == 0
            &&& !closed.state().is_active
            &&& closed.state().entry_fee == contest.state().entry_fee
            &&& closed.state().total_participants == contest.state().total_participants
            &&& closed.scores == contest.scores
            &&& 0 <= split.third <= split.second <= split.first
            &&& split.total() <= contest.state().total_pool
            &&& contest.state().total_pool - split.total() < 3
        },
{
    let pool = contest.state().total_pool;
    let split = PrizeSplit::of(pool);
    assert(split.first == (pool * 50) / 100);
    assert(split.second == (pool * 30) / 100);
    assert(split.third == (pool * 20) / 100);
}

/// Who has paid an entry stays registered, whatever is put to the contest
/// afterwards: no operation takes a record off file.
pub proof fn registration_is_permanent(
    contest: Contest,
    identity: Seq<char>,
    operations: Seq<Operation>,
)
    requires
        contest.is_registered(identity),
    ensures
        contest.apply_all(operations).is_registered(identity),
    decreases operations.len(),
{
    if operations.len() > 0 {
        registration_is_permanent(contest, identity, operations.drop_last());
    }
}

/// Nobody registers twice. Once a registration was taken, every later
/// registration of the same identity is refused, whatever was put to the
/// contest in between and whatever is paid; and where the caller is
/// authorized, the contest is active and the payment covers the fee, the
/// refusal is `AlreadyRegistered`.
pub proof fn no_second_registration(
    contest: Contest,
    identity: Seq<char>,
    payment: int,
    between: Seq<Operation>,
    second_payment: int,
    second_authorized: bool,
)
    requires
        contest.register(identity, payment, true) is Ok,
    ensures
        ({
            let later = contest.register(identity, payment, true)->Ok_0.apply_all(between);
            &&& later.register(identity, second_payment, second_authorized) is Err
            &&& second_authorized && later.state().is_active && later.state().entry_fee
                <= second_payment ==> later.register(identity, second_payment, second_authorized)
                == Err::<Contest, ContestError>(ContestError::AlreadyRegistered)
        }),
{
    let registered = contest.register(identity, payment, true)->Ok_0;
    assert(registered.is_registered(identity));
    registration_is_permanent(registered, identity, between);
}

/// A registration is taken exactly if the caller is authorized, the contest
/// is active, the payment is at least the fee, and the identity has not paid
/// before.
pub proof fn registration_is_taken_iff(
    contest: Contest,
    identity: Seq<char>,
    payment: int,
    authorized: bool,
)
    ensures
        contest.register(identity, payment, authorized) is Ok <==> {
            &&& authorized
            &&& contest.state().is_active
            &&& contest.state().entry_fee <= payment
            &&& !contest.is_registered(identity)
        },
{
}

/// One unit less than the fee never buys an entry: put to an active contest
/// by an authorized caller, such a payment is refused with
/// `InsufficientPayment`, for every identity.
pub proof fn one_below_the_fee_is_refused(contest: Contest, identity: Seq<char>)
    requires
        contest.state().is_active,
    ensures
        contest.register(identity, contest.state().entry_fee - 1, true) == Err::<
            Contest,
            ContestError,
        >(ContestError::InsufficientPayment),
{
}

/// A contest that is not active takes no registration, takes no score and
/// pays nothing out. An authorized registration is refused with
/// `ContestNotActive`, and so are a score for somebody registered and every
/// attempt to close the contest.
pub proof fn inactive_contest_refuses(
    contest: Contest,
    identity: Seq<char>,
    payment: int,
    authorized: bool,
    score: u64,
)
    requires
        !contest.state().is_active,
    ensures
        contest.register(identity, payment, authorized) is Err,
        authorized ==> contest.register(identity, payment, authorized) == Err::<
            Contest,
            ContestError,
        >(ContestError::ContestNotActive),
        contest.update_score(identity, score) is Err,
        contest.is_registered(identity) ==> contest.update_score(identity, score) == Err::<
            Contest,
            ContestError,
        >(ContestError::ContestNotActive),
        contest.distribute() == Err::<(Contest, PrizeSplit), ContestError>(
            ContestError::ContestNotActive,
        ),
{
}

/// A score is set exactly if the identity has paid an entry and the contest is
/// active. Setting it touches neither the ledger nor anybody else's score.
pub proof fn score_is_set_iff(contest: Contest, identity: Seq<char>, score: u64)
    ensures
        contest.update_score(identity, score) is Ok <==> contest.is_registered(identity)
            && contest.state().is_active,
        contest.update_score(identity, score) matches Ok(next) ==> {
            &&& next.ledger == contest.ledger
            &&& next.score_of(identity) == score
            &&& forall|other: Seq<char>|
                other != identity ==> next.is_registered(other) == contest.is_registered(other)
                    && next.score_of(other) == contest.score_of(other)
        },
{
}

/// Nobody gets a score without an entry: for an identity that has not paid,
/// every score update is refused with `NotRegistered`, whether the contest is
/// active or not.
pub proof fn score_needs_an_entry(contest: Contest, identity: Seq<char>, score: u64)
    requires
        !contest.is_registered(identity),
    ensures
        contest.update_score(identity, score) == Err::<Contest, ContestError>(
            ContestError::NotRegistered,
        ),
{
}

/// A contest that is not active stays exactly as it is unless it is opened
/// anew: its ledger, its book and every score on file. Neither a registration,
/// nor a score, nor an attempt to close it changes anything.
pub proof fn only_opening_activates(contest: Contest, operations: Seq<Operation>)
    requires
        !contest.state().is_active,
        forall|k: int| 0 <= k < operations.len() ==> !(#[trigger] operations[k]).opens(),
    ensures
        contest.apply_all(operations) == contest,
    decreases operations.len(),
{
    if operations.len() > 0 {
        only_opening_activates(contest, operations.drop_last());
        assert(!operations.last().opens());
    }
}

/// A pool is paid out once. After a contest was closed, every attempt to
/// close it again is refused with `ContestNotActive` and changes nothing,
/// whatever was put to the contest in between, short of opening it anew.
pub proof fn no_second_payout(contest: Contest, between: Seq<Operation>)
    requires
        contest.distribute() is Ok,
        forall|k: int| 0 <= k < between.len() ==> !(#[trigger] between[k]).opens(),
    ensures
        ({
            let later = contest.distribute()->Ok_0.0.apply_all(between);
            &&& later.distribute() == Err::<(Contest, PrizeSplit), ContestError>(
                ContestError::ContestNotActive,
            )
            &&& later.apply(Operation::Distribute) == later
            &&& later.state().total_pool == 0
            &&& later.scores == contest.scores
        }),
{
    only_opening_activates(contest.distribute()->Ok_0.0, between);
}

/// The count of participants never goes down and the fee never changes,
/// unless the contest is opened anew.
pub proof fn count_only_grows(contest: Contest, operations: Seq<Operation>)
    requires
        forall|k: int| 0 <= k < operations.len() ==> !(#[trigger] operations[k]).opens(),
    ensures
        contest.state().total_participants <= contest.apply_all(
            operations,
        ).state().total_participants,
        contest.apply_all(operations).state().entry_fee == contest.state().entry_fee,
    decreases operations.len(),
{
    if operations.len() > 0 {
        count_only_grows(contest, operations.drop_last());
        assert(!operations.last().opens());
    }
}

/// Only a registration puts an identity on file. An identity for which none
/// was asked is registered after the operations exactly if it was before.
pub proof fn only_registration_registers(
    contest: Contest,
    identity: Seq<char>,
    operations: Seq<Operation>,
)
    requires
        forall|k: int| 0 <= k < operations.len() ==> !(#[trigger] operations[k]).registers(identity),
    ensures
        contest.apply_all(operations).is_registered(identity) == contest.is_registered(identity),
    decreases operations.len(),
{
    if operations.len() > 0 {
        only_registration_registers(contest, identity, operations.drop_last());
        assert(!operations.last().registers(identity));
    }
}

/// Looking up somebody who never registered shows no entry and a score of
/// zero: in a new contest, and after any operations among which there is no
/// registration of that identity.
pub proof fn stranger_has_no_record(identity: Seq<char>, operations: Seq<Operation>)
    requires
        forall|k: int| 0 <= k < operations.len() ==> !(#[trigger] operations[k]).registers(identity),
    ensures
        !Contest::fresh().apply_all(operations).is_registered(identity),
        Contest::fresh().apply_all(operations).score_of(identity) == 0,
{
    only_registration_registers(Contest::fresh(), identity, operations);
}

/// The operations before `index` are the same in a run and in the run cut
/// short after them, so what is taken there is the same in both.
proof fn taken_in_a_shorter_run(contest: Contest, operations: Seq<Operation>, index: int)
    requires
        0 <= index < operations.len() - 1,
    ensures
        contest.taken_at(operations.drop_last(), index) == contest.taken_at(operations, index),
{
    assert(operations.drop_last().take(index) =~= operations.take(index));
}

/// Who is on file after a run of operations was on file before it, or was
/// named by a registration of the run that was taken; and nobody else.
pub proof fn registered_are_those_taken(
    contest: Contest,
    operations: Seq<Operation>,
    identity: Seq<char>,
)
    ensures
        contest.apply_all(operations).is_registered(identity) <==> contest.is_registered(identity)
            || exists|k: int| #[trigger]
            contest.taken_at(operations, k) && operations[k].registers(identity),
    decreases operations.len(),
{
    if operations.len() > 0 {
        let earlier = operations.drop_last();
        let last = operations.len() - 1;
        let before = contest.apply_all(earlier);
        let after = contest.apply_all(operations);
        registered_are_those_taken(contest, earlier, identity);
        assert(operations.take(last) =~= earlier);
        assert(after == before.apply(operations[last]));
        assert(after.is_registered(identity) <==> before.is_registered(identity) || (before.takes(
            operations[last],
        ) && operations[last].registers(identity)));
        if before.takes(operations[last]) && operations[last].registers(identity) {
            assert(contest.taken_at(operations, last));
        }
        if exists|k: int| #[trigger] contest.taken_at(earlier, k) && earlier[k].registers(identity) {
            let k = choose|k: int| #[trigger]
                contest.taken_at(earlier, k) && earlier[k].registers(identity);
            taken_in_a_shorter_run(contest, operations, k);
            assert(contest.taken_at(operations, k) && operations[k].registers(identity));
        }
        if exists|k: int| #[trigger]
            contest.taken_at(operations, k) && operations[k].registers(identity) {
            let k = choose|k: int| #[trigger]
                contest.taken_at(operations, k) && operations[k].registers(identity);
            if k < last {
                taken_in_a_shorter_run(contest, operations, k);
                assert(contest.taken_at(earlier, k) && earlier[k].registers(identity));
            }
        }
    }
}

/// From the moment a registration is taken, its identity is on file,
/// whatever the run goes on with.
proof fn on_file_once_taken(
    contest: Contest,
    operations: Seq<Operation>,
    index: int,
    identity: Seq<char>,
    upto: int,
)
    requires
        contest.taken_at(operations, index),
        operations[index].registers(identity),
        index < upto <= operations.len(),
    ensures
        contest.apply_all(operations.take(upto)).is_registered(identity),
    decreases upto,
{
    let run = operations.take(upto);
    assert(run.drop_last() =~= operations.take(upto - 1));
    assert(run.last() == operations[upto - 1]);
    if upto > index + 1 {
        on_file_once_taken(contest, operations, index, identity, upto - 1);
    }
}

/// No identity is taken twice: two registrations of one run that are both
/// taken name different identities.
pub proof fn taken_registrations_differ(
    contest: Contest,
    operations: Seq<Operation>,
    first: int,
    second: int,
    identity: Seq<char>,
)
    requires
        first != second,
        contest.taken_at(operations, first),
        contest.taken_at(operations, second),
        operations[first].registers(identity),
    ensures
        !operations[second].registers(identity),
{
    if first < second {
        on_file_once_taken(contest, operations, first, identity, second);
    } else if operations[second].registers(identity) {
        on_file_once_taken(contest, operations, second, identity, first);
    }
}

/// The whole history of a contest opened on an empty book and then put a
/// run of registrations, some taken and some refused. Its pool is the sum of
/// the payments of those that were taken and its count is their number; the
/// identities on file are exactly theirs; and no two of them name the same
/// identity. Fee and activity are as the contest was opened.
pub proof fn new_contest_shows_its_registrations(entry_fee: int, registrations: Seq<Operation>)
    requires
        forall|k: int| 0 <= k < registrations.len() ==> (#[trigger] registrations[k]) is Register,
    ensures
        ({
            let opened = Contest::fresh().initialize(entry_fee);
            let after = opened.apply_all(registrations);
            &&& after.state().total_pool == opened.paid_in(registrations)
            &&& after.state().total_participants == opened.entries_taken(registrations)
            &&& after.state().entry_fee == entry_fee
            &&& after.state().is_active
            &&& forall|identity: Seq<char>|
                #![trigger after.is_registered(identity)]
                after.is_registered(identity) <==> exists|k: int| #[trigger]
                    opened.taken_at(registrations, k) && registrations[k].registers(identity)
            &&& forall|first: int, second: int, identity: Seq<char>|
                #![trigger opened.taken_at(registrations, first), opened.taken_at(registrations, second), registrations[first].registers(identity)]
                first != second && opened.taken_at(registrations, first) && opened.taken_at(
                    registrations,
                    second,
                ) && registrations[first].registers(identity) ==> !registrations[second].registers(
                    identity,
                )
        }),
{
    let opened = Contest::fresh().initialize(entry_fee);
    let after = opened.apply_all(registrations);
    assert forall|k: int| 0 <= k < registrations.len() implies !(#[trigger] registrations[k]).opens()
        && registrations[k] !is Distribute by {
        assert(registrations[k] is Register);
    }
    pool_holds_what_was_paid_in(opened, registrations);
    assert forall|identity: Seq<char>|
        #![trigger after.is_registered(identity)]
        after.is_registered(identity) <==> exists|k: int| #[trigger]
            opened.taken_at(registrations, k) && registrations[k].registers(identity) by {
        registered_are_those_taken(opened, registrations, identity);
    }
    assert forall|first: int, second: int, identity: Seq<char>|
        #![trigger opened.taken_at(registrations, first), opened.taken_at(registrations, second), registrations[first].registers(identity)]
        first != second && opened.taken_at(registrations, first) && opened.taken_at(
            registrations,
            second,
        ) && registrations[first].registers(identity) implies !registrations[second].registers(
        identity,
    ) by {
        taken_registrations_differ(opened, registrations, first, second, identity);
    }
}

} // verus!
