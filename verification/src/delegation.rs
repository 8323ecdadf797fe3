//! The delegation ledger: per-owner, per-delegator stake with a minimum
//! holding period. Stake accumulates by saturating addition and leaves in
//! one piece at withdrawal.

use crate::clock::{elapsed, spec_elapsed, EpochProxy};
use crate::errors::Error;
use crate::ids::{AccountId, Balance, Hash32, Payout};
use crate::registry::{spec_rec_expired, Registry};
use crate::table::Table;
use vstd::prelude::*;

verus! {

/// How many epochs a stake must age before it can be withdrawn.
pub const MIN_HOLDING_PERIOD_EPOCHS: u32 = 10;

/// One delegator's position against one owner: the accumulated stake and
/// the epoch the position was opened in. Top-ups do not reset the clock.
#[derive(Clone, Copy, Debug, PartialEq, Eq, Structural)]
pub struct DelegationEntry {
    pub amount: Balance,
    pub since: u32,
}

/// Emitted whenever stake is placed against a name's owner.
#[derive(Clone, Copy, Debug, PartialEq, Eq)]
pub struct Delegate {
    pub name: Hash32,
    pub from: AccountId,
    pub value: Balance,
}

/// Emitted whenever a delegator withdraws their whole stake.
#[derive(Clone, Copy, Debug, PartialEq, Eq)]
pub struct Undelegate {
    pub name: Hash32,
    pub from: AccountId,
    pub value: Balance,
}

/// Addition that clamps at the top of the balance range instead of
/// overflowing.
pub open spec fn spec_sat_add(a: Balance, b: Balance) -> Balance {
    if a + b > u128::MAX {
        u128::MAX
    } else {
        (a + b) as Balance
    }
}

/// The saturating sum of a sequence of payments, taken left to right.
pub open spec fn spec_sat_sum(ps: Seq<Balance>) -> Balance
    decreases ps.len(),
{
    if ps.len() == 0 {
        0
    } else {
        spec_sat_add(spec_sat_sum(ps.drop_last()), ps.last())
    }
}

/// The ledger after one `delegate` payment lands on the `(owner, from)`
/// position: a fresh position opens at `now`, an existing one grows by
/// saturating addition and keeps its opening epoch.
pub open spec fn spec_after_delegate(
    led: Map<Seq<u8>, Map<Seq<u8>, DelegationEntry>>,
    o: Seq<u8>,
    f: Seq<u8>,
    value: Balance,
    now: u32,
) -> Map<Seq<u8>, Map<Seq<u8>, DelegationEntry>> {
    let inner = if led.contains_key(o) {
        led[o]
    } else {
        Map::<Seq<u8>, DelegationEntry>::empty()
    };
    let entry = if inner.contains_key(f) {
        DelegationEntry { amount: spec_sat_add(inner[f].amount, value), since: inner[f].since }
    } else {
        DelegationEntry { amount: value, since: now }
    };
    led.insert(o, inner.insert(f, entry))
}

pub struct Delegation {
    pub delegates: Table<Table<DelegationEntry>>,
    pub epoch: EpochProxy,
}

impl Delegation {
    pub open spec fn wf(self) -> bool {
        &&& self.delegates.wf()
        &&& self.epoch.epoch.wf()
        &&& forall|o: Seq<u8>|
            self.delegates@.contains_key(o) ==> (#[trigger] self.delegates@[o]).wf()
    }

    /// The two-level stake map: owner, then delegator.
    pub open spec fn ledger(self) -> Map<Seq<u8>, Map<Seq<u8>, DelegationEntry>> {
        Map::new(
            |o: Seq<u8>| self.delegates@.contains_key(o),
            |o: Seq<u8>| self.delegates@[o]@,
        )
    }

    pub open spec fn spec_now(self, height: u32) -> u32 {
        self.epoch.epoch.epoch_of(height) as u32
    }

    /// The stake entry of `(owner, from)`, if the pair has one.
    pub open spec fn spec_entry(self, o: Seq<u8>, f: Seq<u8>) -> Option<DelegationEntry> {
        if self.ledger().contains_key(o) && self.ledger()[o].contains_key(f) {
            Some(self.ledger()[o][f])
        } else {
            None
        }
    }

    pub fn new(epoch: EpochProxy) -> (r: Delegation)
        requires
            epoch.epoch.wf(),
        ensures
            r.wf(),
            r.ledger() == Map::<Seq<u8>, Map<Seq<u8>, DelegationEntry>>::empty(),
            r.epoch == epoch,
    {
        let r = Delegation { delegates: Table::new(), epoch };
        proof {
            assert(r.ledger() =~= Map::<Seq<u8>, Map<Seq<u8>, DelegationEntry>>::empty());
        }
        r
    }

    /// Places the attached payment as stake for the current, non-expired
    /// owner of `name`, on behalf of `from`.
    pub fn delegate(
        &mut self,
        registry: &Registry,
        name: Hash32,
        from: AccountId,
        value: Balance,
        height: u32,
    ) -> (r: Result<Delegate, Error>)
        requires
            old(self).wf(),
            registry.wf(),
            height >= registry.clock().offset,
            height >= old(self).epoch.epoch.offset,
        ensures
            final(self).wf(),
            final(self).epoch == old(self).epoch,
            match r {
                Ok(ev) => registry.records@.contains_key(name@) && !spec_rec_expired(
                    registry.records@[name@],
                    registry.spec_now(height),
                ) && ev.name == name && ev.from == from && ev.value == value && final(self).ledger() == spec_after_delegate(
                    old(self).ledger(),
                    registry.records@[name@].owner@,
                    from@,
                    value,
                    old(self).spec_now(height),
                ),
                Err(e) => *final(self) == *old(self) && e == Error::NameNotFound && (
                !registry.records@.contains_key(name@) || spec_rec_expired(
                    registry.records@[name@],
                    registry.spec_now(height),
                )),
            },
    {
        match registry.not_expired(name, height) {
            Some((owner, _b, _d)) => {
                let now = self.epoch.get().get_current_epoch(height);
                let mut inner = match self.delegates.remove(&owner) {
                    Some(t) => t,
                    None => Table::new(),
                };
                let cur = match inner.get(&from) {
                    Some(e) => Some(*e),
                    None => None,
                };
                let entry = match cur {
                    Some(e) => DelegationEntry {
                        amount: e.amount.saturating_add(value),
                        since: e.since,
                    },
                    None => DelegationEntry { amount: value, since: now },
                };
                inner.insert(from, entry);
                self.delegates.insert(owner, inner);
                proof {
                    assert(self.ledger() =~= spec_after_delegate(
                        old(self).ledger(),
                        owner@,
                        from@,
                        value,
                        old(self).spec_now(height),
                    ));
                    assert forall|o: Seq<u8>| self.delegates@.contains_key(o) implies (
                    #[trigger] self.delegates@[o]).wf() by {
                        if o != owner@ {
                            assert(self.delegates@[o] == old(self).delegates@[o]);
                        }
                    }
                }
                Ok(Delegate { name, from, value })
            },
            None => Err(Error::NameNotFound),
        }
    }

    /// Withdraws the caller's whole stake against `name`'s owner, once the
    /// position is at least [`MIN_HOLDING_PERIOD_EPOCHS`] old. The refund,
    /// the threshold check and the removal are one atomic transition.
    pub fn undelegate(
        &mut self,
        registry: &Registry,
        name: Hash32,
        caller: AccountId,
        height: u32,
    ) -> (r: Result<(Undelegate, Payout), Error>)
        requires
            old(self).wf(),
            registry.wf(),
            height >= registry.clock().offset,
            height >= old(self).epoch.epoch.offset,
        ensures
            final(self).wf(),
            final(self).epoch == old(self).epoch,
            ({
                let live = registry.records@.contains_key(name@) && !spec_rec_expired(
                    registry.records@[name@],
                    registry.spec_now(height),
                );
                let o = registry.records@[name@].owner@;
                let entry = old(self).spec_entry(o, caller@);
                match r {
                    Ok((ev, p)) => live && entry is Some && spec_elapsed(
                        old(self).spec_now(height),
                        entry->Some_0.since,
                    ) >= MIN_HOLDING_PERIOD_EPOCHS && ev.name == name && ev.from == caller
                        && ev.value == entry->Some_0.amount && p.to == caller && p.amount
                        == entry->Some_0.amount && final(self).ledger() == old(
                        self,
                    ).ledger().insert(o, old(self).ledger()[o].remove(caller@)),
                    Err(e) => *final(self) == *old(self) && match e {
                        Error::NameNotFound => !live,
                        Error::DelegateNotFound => live && entry is None,
                        Error::HoldingPeriodNotMet => live && entry is Some && spec_elapsed(
                            old(self).spec_now(height),
                            entry->Some_0.since,
                        ) < MIN_HOLDING_PERIOD_EPOCHS,
                        _ => false,
                    },
                }
            }),
    {
        match registry.not_expired(name, height) {
            Some((owner, _b, _d)) => {
                let now = self.epoch.get().get_current_epoch(height);
                let cur = match self.delegates.get(&owner) {
                    Some(inner) => match inner.get(&caller) {
                        Some(e) => Some(*e),
                        None => None,
                    },
                    None => None,
                };
                match cur {
                    Some(e) => {
                        if elapsed(now, e.since) < MIN_HOLDING_PERIOD_EPOCHS {
                            return Err(Error::HoldingPeriodNotMet);
                        }
                        let mut inner = match self.delegates.remove(&owner) {
                            Some(t) => t,
                            None => Table::new(),
                        };
                        let _ = inner.remove(&caller);
                        self.delegates.insert(owner, inner);
                        proof {
                            assert(self.ledger() =~= old(self).ledger().insert(
                                owner@,
                                old(self).ledger()[owner@].remove(caller@),
                            ));
                            assert forall|o: Seq<u8>| self.delegates@.contains_key(o) implies (
                            #[trigger] self.delegates@[o]).wf() by {
                                if o != owner@ {
                                    assert(self.delegates@[o] == old(self).delegates@[o]);
                                }
                            }
                        }
                        Ok((
                            Undelegate { name, from: caller, value: e.amount },
                            Payout { to: caller, amount: e.amount },
                        ))
                    },
                    None => Err(Error::DelegateNotFound),
                }
            },
            None => Err(Error::NameNotFound),
        }
    }

    /// The stake `investor` holds against `name`'s current owner.
    pub fn get_delegate(
        &self,
        registry: &Registry,
        investor: AccountId,
        name: Hash32,
        height: u32,
    ) -> (r: Option<(Balance, u32)>)
        requires
            self.wf(),
            registry.wf(),
            height >= registry.clock().offset,
        ensures
            ({
                let live = registry.records@.contains_key(name@) && !spec_rec_expired(
                    registry.records@[name@],
                    registry.spec_now(height),
                );
                let entry = self.spec_entry(registry.records@[name@].owner@, investor@);
                match r {
                    Some(t) => live && entry is Some && t == (
                        entry->Some_0.amount,
                        entry->Some_0.since,
                    ),
                    None => !live || entry is None,
                }
            }),
    {
        match registry.not_expired(name, height) {
            Some((owner, _b, _d)) => match self.delegates.get(&owner) {
                Some(inner) => match inner.get(&investor) {
                    Some(e) => Some((e.amount, e.since)),
                    None => None,
                },
                None => None,
            },
            None => None,
        }
    }
}

/// Law: delegation conserves value. If the stake of a pair equals the
/// saturating sum of the payments placed so far (no payments meaning no
/// entry), then one more `delegate` payment leaves the stake at the
/// saturating sum including it — so the single refund `undelegate` pays,
/// which its contract fixes at the stored stake, returns the saturating sum
/// of everything paid in, clamping only at the top of the balance range.
pub proof fn lemma_delegation_conservation(
    led: Map<Seq<u8>, Map<Seq<u8>, DelegationEntry>>,
    o: Seq<u8>,
    f: Seq<u8>,
    value: Balance,
    now: u32,
    ps: Seq<Balance>,
)
    requires
        if led.contains_key(o) && led[o].contains_key(f) {
            led[o][f].amount == spec_sat_sum(ps)
        } else {
            ps.len() == 0
        },
    ensures
        spec_after_delegate(led, o, f, value, now).contains_key(o),
        spec_after_delegate(led, o, f, value, now)[o].contains_key(f),
        spec_after_delegate(led, o, f, value, now)[o][f].amount == spec_sat_sum(ps.push(value)),
{
    let after = spec_after_delegate(led, o, f, value, now);
    assert(ps.push(value).drop_last() =~= ps);
    assert(ps.push(value).last() == value);
    if led.contains_key(o) && led[o].contains_key(f) {
        assert(after[o][f].amount == spec_sat_add(spec_sat_sum(ps), value));
    } else {
        assert(spec_sat_sum(ps) == 0);
        assert(after[o][f].amount == value);
        assert(spec_sat_add(0, value) == value);
    }
}

} // verus!
