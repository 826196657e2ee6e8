//! A pooled-stake quiz contest: participants pay an entry stake into a shared
//! pool, scores are recorded per participant, and closing the contest splits
//! the pool between the three winners.

pub mod contract;
pub mod error;
pub mod guarantees;
pub mod identity;
pub mod ledger;
pub mod model;
pub mod participant;

pub use contract::{Award, PayoutPlan, QuizLumenContract};
pub use error::ContestError;
pub use ledger::{Prizes, QuizState};
pub use identity::Address;
pub use participant::{Participant, ParticipantBook};
