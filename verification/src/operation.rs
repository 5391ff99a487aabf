//! Operations on the pots of an account.

use vstd::prelude::*;

use crate::ledger::Ledger;
use crate::operation::error::Error;
pub use crate::operation::sweep::Sweep;
use crate::state::State;

pub mod allocator;
pub mod error;
pub mod allocation_laws;
pub mod resolution_laws;
pub mod resolver;
pub mod sweep;

verus! {

/// An operation that may be applied to the pots of an account.
pub trait Operation {
    /// The error type returned by the operation
    type Err;

    /// The name of the operation, for logs and for what the user is shown
    const NAME: &'static str;

    /// Given the state of the accounts, generates the transactions to apply.
    fn transactions<'a>(&'a self, state: &'a State) -> Result<Ledger<'a>, Self::Err>;
}

/// The operations that a configuration can ask for.
#[derive(Debug)]
pub enum Op {
    /// Sweep the spare cash of an account into its pots
    Sweep(Sweep),
}

impl Op {
    /// The name of the operation.
    pub fn name(&self) -> (name: &'static str)
        ensures
            name@ == "Sweep"@,
    {
        match self {
            Op::Sweep(_) => "Sweep",
        }
    }

    /// Given the state of the accounts, generates the transactions that the
    /// operation asks for.
    pub fn transactions<'a>(&'a self, state: &'a State) -> (computed: Result<Ledger<'a>, Error>)
        ensures
            match self {
                Op::Sweep(sweep) => sweep.spec_computes(state@, computed),
            },
    {
        match self {
            Op::Sweep(sweep) => sweep.transactions(state),
        }
    }
}

} // verus!
