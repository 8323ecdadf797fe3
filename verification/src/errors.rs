//! Why a state transition was refused. Every failure aborts the whole call:
//! the caller re-derives the preconditions through the query operations and
//! resubmits.

use vstd::prelude::*;

verus! {

#[derive(Clone, Copy, Debug, PartialEq, Eq, Structural)]
pub enum Error {
    /// The caller does not own the name.
    NotOwner,
    /// The caller is not in the judge set.
    NotJudge,
    /// The caller holds no subscription for the name.
    NotSubscribed,
    /// No live record resolves the name.
    NameNotFound,
    /// No commitment is on file for the reveal.
    CommitmentNotFound,
    /// The caller has no subscription entry to settle.
    SubscriberNotFound,
    /// The caller has no stake entry to withdraw.
    DelegateNotFound,
    /// The caller has no dispute entry to withdraw.
    DisputeNotFound,
    /// No open, unexpired dispute references the content id.
    CidNotFound,
    /// A still-valid commitment already occupies the slot.
    CommitmentStillValid,
    /// The commitment has outlived its validity window.
    CommitmentExpired,
    /// The name is held by a live record.
    NameNotAvailable,
    /// The stake has not aged past the minimum holding period.
    HoldingPeriodNotMet,
    /// The subscription has not aged past the minimum subscriber period.
    SubscriberPeriodNotMet,
    /// A younger dispute for the same pair is still in place.
    DisputeStillOpen,
    /// The attached value is below the computed minimum.
    InsufficientPayment,
}

impl Error {
    /// The diagnostic reason, as the host reports it.
    pub fn reason(&self) -> &'static str {
        match self {
            Error::NotOwner => "not the owner",
            Error::NotJudge => "not a judge",
            Error::NotSubscribed => "not subscribed",
            Error::NameNotFound => "name not found",
            Error::CommitmentNotFound => "no commit",
            Error::SubscriberNotFound => "subscriber not found",
            Error::DelegateNotFound => "investor not found",
            Error::DisputeNotFound => "caller not found",
            Error::CidNotFound => "invalid cid",
            Error::CommitmentStillValid => "commit still valid",
            Error::CommitmentExpired => "commit expired",
            Error::NameNotAvailable => "not available",
            Error::HoldingPeriodNotMet => "min threshold not met",
            Error::SubscriberPeriodNotMet => "min threshold not met",
            Error::DisputeStillOpen => "dispute already in place",
            Error::InsufficientPayment => "payment too low",
        }
    }
}

} // verus!
