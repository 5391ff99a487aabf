//! Rebalancing of funds between a current account and its goal-tracked pots.
//!
//! A [`Sweep`](operation::sweep::Sweep) names an account, a goal for its
//! balance and an ordered list of pots. Against the live [`State`] of the
//! accounts it computes a [`Ledger`]: the withdrawals that bring every pot
//! above its goal back to it, and the deposits that hand the spare cash of
//! the account to the pots below their goal, in order. The [`execution`]
//! module says in which order the transactions of a ledger are made, and
//! [`summary`] renders them for the user.

pub mod accounts;
pub mod execution;
pub mod keyed;
pub mod ledger;
pub mod logging;
pub mod names;
pub mod operation;
pub mod pot;
pub mod state;
pub mod summary;

pub use ledger::Ledger;
pub use operation::Operation;
pub use pot::Pot;
pub use state::State;
