use quiz_contract::ledger::{
    percent_of, FIRST_PRIZE_PERCENT, SECOND_PRIZE_PERCENT, THIRD_PRIZE_PERCENT,
};
use quiz_contract::{Address, ContestError, Participant, ParticipantBook, Prizes, QuizState};

fn address(text: &str) -> Address {
    Address::new(text.to_string())
}

#[test]
fn prize_shares_add_up_to_the_whole() {
    assert_eq!(FIRST_PRIZE_PERCENT, 50);
    assert_eq!(SECOND_PRIZE_PERCENT, 30);
    assert_eq!(THIRD_PRIZE_PERCENT, 20);
    assert_eq!(FIRST_PRIZE_PERCENT + SECOND_PRIZE_PERCENT + THIRD_PRIZE_PERCENT, 100);
}

#[test]
fn percent_of_rounds_down() {
    assert_eq!(percent_of(40, 50), 20);
    assert_eq!(percent_of(40, 30), 12);
    assert_eq!(percent_of(40, 20), 8);
    assert_eq!(percent_of(7, 50), 3);
    assert_eq!(percent_of(7, 30), 2);
    assert_eq!(percent_of(7, 20), 1);
    assert_eq!(percent_of(199, 50), 99);
    assert_eq!(percent_of(199, 30), 59);
    assert_eq!(percent_of(199, 20), 39);
    assert_eq!(percent_of(1, 50), 0);
    assert_eq!(percent_of(0, 50), 0);
    assert_eq!(percent_of(12345, 0), 0);
    assert_eq!(percent_of(12345, 100), 12345);
    assert_eq!(percent_of(12345, 1), 123);
}

#[test]
fn percent_of_agrees_with_the_plain_formula() {
    for amount in 0..1_000i128 {
        for percent in [0i128, 1, 20, 30, 33, 50, 99, 100] {
            assert_eq!(percent_of(amount, percent), amount * percent / 100);
        }
    }
}

#[test]
fn percent_of_the_largest_amount() {
    assert_eq!(percent_of(i128::MAX, 100), i128::MAX);
    assert_eq!(percent_of(i128::MAX, 50), i128::MAX / 2);
    assert_eq!(percent_of(i128::MAX, 20), i128::MAX / 5);
}

#[test]
fn default_state_is_idle() {
    assert_eq!(
        QuizState::default(),
        QuizState { total_pool: 0, entry_fee: 0, is_active: false, total_participants: 0 }
    );
}

#[test]
fn open_state_is_active_and_empty() {
    assert_eq!(
        QuizState::open(10),
        QuizState { total_pool: 0, entry_fee: 10, is_active: true, total_participants: 0 }
    );
}

#[test]
fn check_entry_names_the_first_failing_test() {
    let state = QuizState::open(10);
    assert_eq!(state.check_entry(false, 10, true), Ok(()));
    assert_eq!(state.check_entry(false, 11, true), Ok(()));
    assert_eq!(state.check_entry(false, 9, true), Err(ContestError::InsufficientPayment));
    assert_eq!(state.check_entry(true, 10, true), Err(ContestError::AlreadyRegistered));
    assert_eq!(state.check_entry(true, 9, true), Err(ContestError::InsufficientPayment));
    assert_eq!(state.check_entry(false, 10, false), Err(ContestError::Unauthorized));
    assert_eq!(state.check_entry(true, 9, false), Err(ContestError::Unauthorized));

    let idle = QuizState::default();
    assert_eq!(idle.check_entry(false, 10, true), Err(ContestError::ContestNotActive));
    assert_eq!(idle.check_entry(true, -5, true), Err(ContestError::ContestNotActive));
    assert_eq!(idle.check_entry(false, 10, false), Err(ContestError::Unauthorized));
}

#[test]
fn book_entry_adds_payment_and_counts() {
    let mut state = QuizState::open(10);
    state.book_entry(10);
    state.book_entry(25);
    assert_eq!(
        state,
        QuizState { total_pool: 35, entry_fee: 10, is_active: true, total_participants: 2 }
    );
}

#[test]
fn close_splits_and_settles() {
    let mut state =
        QuizState { total_pool: 40, entry_fee: 10, is_active: true, total_participants: 4 };
    assert_eq!(state.close(), Ok(Prizes { first: 20, second: 12, third: 8 }));
    assert_eq!(
        state,
        QuizState { total_pool: 0, entry_fee: 10, is_active: false, total_participants: 4 }
    );
    assert_eq!(state.close(), Err(ContestError::ContestNotActive));
    assert_eq!(
        state,
        QuizState { total_pool: 0, entry_fee: 10, is_active: false, total_participants: 4 }
    );
}

#[test]
fn close_leaves_an_inactive_pool_alone() {
    let mut state =
        QuizState { total_pool: 40, entry_fee: 10, is_active: false, total_participants: 4 };
    assert_eq!(state.close(), Err(ContestError::ContestNotActive));
    assert_eq!(state.total_pool, 40);
}

#[test]
fn close_never_pays_more_than_the_pool() {
    for pool in 0..500i128 {
        let mut state =
            QuizState { total_pool: pool, entry_fee: 1, is_active: true, total_participants: 1 };
        let prizes = state.close().unwrap();
        let paid = prizes.first + prizes.second + prizes.third;
        assert!(paid <= pool);
        assert!(pool - paid < 3);
        assert!(0 <= prizes.third && prizes.third <= prizes.second);
        assert!(prizes.second <= prizes.first);
        assert_eq!(state.total_pool, 0);
    }
}

#[test]
fn unregistered_record_is_the_default() {
    assert_eq!(
        Participant::unregistered(address("alice")),
        Participant { address: address("alice"), score: 0, entry_paid: false }
    );
}

#[test]
fn enrolled_record_is_paid_with_score_zero() {
    assert_eq!(
        Participant::enrolled(address("alice")),
        Participant { address: address("alice"), score: 0, entry_paid: true }
    );
}

#[test]
fn record_score_needs_a_paid_entry() {
    let active = QuizState::open(10);
    let idle = QuizState::default();

    let mut stranger = Participant::unregistered(address("alice"));
    assert_eq!(stranger.record_score(&active, 5), Err(ContestError::NotRegistered));
    assert_eq!(stranger.record_score(&idle, 5), Err(ContestError::NotRegistered));
    assert_eq!(stranger, Participant::unregistered(address("alice")));

    let mut member = Participant::enrolled(address("alice"));
    assert_eq!(member.record_score(&active, 5), Ok(()));
    assert_eq!(member, Participant { address: address("alice"), score: 5, entry_paid: true });
    assert_eq!(member.record_score(&active, 0), Ok(()));
    assert_eq!(member.score, 0);
}

#[test]
fn record_score_needs_an_active_contest() {
    let mut closed = QuizState::open(10);
    closed.book_entry(10);
    assert!(closed.close().is_ok());

    let mut member = Participant { address: address("alice"), score: 8, entry_paid: true };
    assert_eq!(member.record_score(&closed, 5), Err(ContestError::ContestNotActive));
    assert_eq!(member.record_score(&QuizState::default(), 5), Err(ContestError::ContestNotActive));
    assert_eq!(member, Participant { address: address("alice"), score: 8, entry_paid: true });
}

#[test]
fn book_key_names_its_participant() {
    let key = ParticipantBook::Participant(address("alice"));
    assert_eq!(key.address(), &address("alice"));
    assert!(key.names(&Participant::enrolled(address("alice"))));
    assert!(key.names(&Participant::unregistered(address("alice"))));
    assert!(!key.names(&Participant::enrolled(address("bob"))));
    assert_eq!(key.into_address(), address("alice"));
}

#[test]
fn every_error_has_its_message() {
    assert_eq!(ContestError::ContestNotActive.message(), "Quiz is not active");
    assert_eq!(ContestError::Unauthorized.message(), "Caller is not authorized");
    assert_eq!(ContestError::InsufficientPayment.message(), "Insufficient entry fee");
    assert_eq!(ContestError::AlreadyRegistered.message(), "Participant already registered");
    assert_eq!(ContestError::NotRegistered.message(), "Participant not registered");
}
