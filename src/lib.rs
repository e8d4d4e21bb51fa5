//! Polls with one vote per identity: identifier generation, the poll
//! definition store, the tally ledger and the voting service over them.
pub mod ident;
pub mod keyed;
pub mod poll;
pub mod tally;
pub mod voting;

pub use poll::{VotingOption, VotingOptions};
pub use tally::VotingResults;
pub use voting::Voting;
