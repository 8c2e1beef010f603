//! Where a transaction stands that was handed to the pool.

use vstd::prelude::*;

verus! {

/// Where a transaction stands.
#[derive(Clone, Copy, Debug, PartialEq, Eq, Structural)]
pub enum TransactionStatus {
    /// It has been worked on and is done.
    Success { created_at: u64, finished_at: u64 },
    /// It is being worked on.
    Executing { created_at: u64 },
    /// It waits in the pool.
    Pending,
    /// The pool does not know it any more.
    Outdated,
}

impl TransactionStatus {
    /// The status of a transaction. `executing` holds when the work on it
    /// began and ended, where it has begun; an end of zero says that it has
    /// not ended. `pending` says whether the transaction waits in the pool.
    pub open spec fn of(executing: Option<(u64, u64)>, pending: bool) -> TransactionStatus {
        match executing {
            Some((created_at, finished_at)) => if finished_at > 0 {
                TransactionStatus::Success { created_at, finished_at }
            } else {
                TransactionStatus::Executing { created_at }
            },
            None => if pending {
                TransactionStatus::Pending
            } else {
                TransactionStatus::Outdated
            },
        }
    }

    /// The word for the status.
    pub open spec fn word(self) -> Seq<char> {
        match self {
            TransactionStatus::Success { .. } => "success"@,
            TransactionStatus::Executing { .. } => "executing"@,
            TransactionStatus::Pending => "pending"@,
            TransactionStatus::Outdated => "outdated"@,
        }
    }

    /// The word for the status.
    pub fn label(&self) -> (res: String)
        ensures
            res@ == self.word(),
    {
        match self {
            TransactionStatus::Success { .. } => "success".to_string(),
            TransactionStatus::Executing { .. } => "executing".to_string(),
            TransactionStatus::Pending => "pending".to_string(),
            TransactionStatus::Outdated => "outdated".to_string(),
        }
    }
}

/// Finds out where a transaction stands from what the pool holds of it.
pub fn get_transaction_status(executing: Option<(u64, u64)>, pending: bool) -> (res:
    TransactionStatus)
    ensures
        res == TransactionStatus::of(executing, pending),
{
    match executing {
        Some((created_at, finished_at)) => {
            if finished_at > 0 {
                TransactionStatus::Success { created_at, finished_at }
            } else {
                TransactionStatus::Executing { created_at }
            }
        },
        None => {
            if pending {
                TransactionStatus::Pending
            } else {
                TransactionStatus::Outdated
            }
        },
    }
}

} // verus!
