//! Subscription billing: per-name, per-subscriber prepaid balances that are
//! consumed linearly, settled on unsubscribe, and claimed in bulk by the
//! name's owner.

use crate::clock::{elapsed, spec_elapsed, EpochProxy};
use crate::delegation::spec_sat_add;
use crate::errors::Error;
use crate::ids::{AccountId, Balance, Hash32, Payout};
use crate::registry::{spec_rec_expired, Registry, INDEXER_RATE};
use crate::table::Table;
use vstd::prelude::*;

verus! {

/// How many epochs a subscription must age before it can be closed.
pub const MIN_SUBSCRIBER_PERIOD_EPOCHS: u32 = 2;

/// The smallest prepayment, measured in epochs at the prevailing rate.
pub const MIN_SUBSCRIPTION_EPOCHS: u32 = 30;

/// One subscriber's position on one name: the prepaid balance not yet
/// settled, and the epoch unconsumed balance is measured from.
#[derive(Clone, Copy, Debug, PartialEq, Eq, Structural)]
pub struct SubscriberData {
    pub balance: Balance,
    pub on: u32,
}

/// Emitted whenever a subscriber pays in.
#[derive(Clone, Copy, Debug, PartialEq, Eq)]
pub struct Subscribe {
    pub name: Hash32,
    pub from: AccountId,
    pub value: Balance,
}

/// Emitted whenever a subscription is settled and closed; `value` is the
/// refunded remainder.
#[derive(Clone, Copy, Debug, PartialEq, Eq)]
pub struct Unsubscribe {
    pub name: Hash32,
    pub from: AccountId,
    pub value: Balance,
}

/// Emitted when an owner claims accrued fees: how many epochs each
/// subscriber was billed for, and the total routed to the owner.
#[derive(Clone, Debug)]
pub struct Claimed {
    pub name: Hash32,
    pub value: Vec<(AccountId, u32)>,
    pub total: Balance,
}

/// Linear accrual: what `rate * elapsed` consumes of a balance measured
/// from epoch `on`.
pub open spec fn spec_usage(on: u32, now: u32) -> Balance {
    (INDEXER_RATE * spec_elapsed(now, on)) as Balance
}

/// What the subscriber gets back at settlement.
pub open spec fn spec_refund_amt(balance: Balance, usage: Balance) -> int {
    if usage <= balance {
        balance - usage
    } else {
        0
    }
}

/// What the owner is credited at settlement, bounded by the balance.
pub open spec fn spec_owner_amt(balance: Balance, usage: Balance) -> int {
    if usage <= balance {
        usage as int
    } else {
        balance as int
    }
}

/// The ledger after one `subscribe` payment lands on `(name, from)`: a new
/// position starts accruing now, an existing one grows by saturating
/// addition and keeps its accrual origin.
pub open spec fn spec_after_subscribe(
    led: Map<Seq<u8>, Map<Seq<u8>, SubscriberData>>,
    n: Seq<u8>,
    s: Seq<u8>,
    value: Balance,
    now: u32,
) -> Map<Seq<u8>, Map<Seq<u8>, SubscriberData>> {
    let inner = if led.contains_key(n) {
        led[n]
    } else {
        Map::<Seq<u8>, SubscriberData>::empty()
    };
    let entry = if inner.contains_key(s) {
        SubscriberData { balance: spec_sat_add(inner[s].balance, value), on: inner[s].on }
    } else {
        SubscriberData { balance: value, on: now }
    };
    led.insert(n, inner.insert(s, entry))
}

/// All subscribers' accrued usage, summed with saturation in entry order.
pub open spec fn spec_usage_total(s: Seq<(Seq<u8>, SubscriberData)>, now: u32) -> Balance
    decreases s.len(),
{
    if s.len() == 0 {
        0
    } else {
        spec_sat_add(spec_usage_total(s.drop_last(), now), spec_usage(s.last().1.on, now))
    }
}

/// Every subscriber of a name with its accrual origin moved to `now`,
/// balances untouched.
pub open spec fn spec_reset_on(inner: Map<Seq<u8>, SubscriberData>, now: u32) -> Map<
    Seq<u8>,
    SubscriberData,
> {
    Map::new(
        |s: Seq<u8>| inner.contains_key(s),
        |s: Seq<u8>| SubscriberData { balance: inner[s].balance, on: now },
    )
}

/// What a completed claim looks like: the per-subscriber elapsed epochs,
/// the saturating total routed to the claimer, and every accrual origin
/// reset to the current epoch with balances untouched.
pub open spec fn spec_claim_post(
    pre: Subscription,
    post: Subscription,
    name: Hash32,
    caller: AccountId,
    height: u32,
    r: Result<(Claimed, Payout), Error>,
) -> bool {
    let led = pre.ledger();
    let now = pre.spec_now(height);
    let kv0 = pre.subscription@[name@].kv();
    match r {
        Ok((claimed, payout)) => led.contains_key(name@) && claimed.name == name
            && claimed.total == spec_usage_total(kv0, now) && payout == Payout {
            to: caller,
            amount: claimed.total,
        } && claimed.value@.len() == kv0.len() && (forall|i: int|
            0 <= i < kv0.len() ==> (#[trigger] claimed.value@[i]).0@ == kv0[i].0
                && claimed.value@[i].1 == spec_elapsed(now, kv0[i].1.on)) && post.ledger()
            == led.insert(name@, spec_reset_on(led[name@], now)),
        Err(e) => post == pre && e == Error::NameNotFound && !led.contains_key(name@),
    }
}

pub struct Subscription {
    pub subscription: Table<Table<SubscriberData>>,
    pub epoch: EpochProxy,
}

impl Subscription {
    pub open spec fn wf(self) -> bool {
        &&& self.subscription.wf()
        &&& self.epoch.epoch.wf()
        &&& forall|n: Seq<u8>|
            self.subscription@.contains_key(n) ==> (#[trigger] self.subscription@[n]).wf()
    }

    /// The two-level balance map: name, then subscriber.
    pub open spec fn ledger(self) -> Map<Seq<u8>, Map<Seq<u8>, SubscriberData>> {
        Map::new(
            |n: Seq<u8>| self.subscription@.contains_key(n),
            |n: Seq<u8>| self.subscription@[n]@,
        )
    }

    pub open spec fn spec_now(self, height: u32) -> u32 {
        self.epoch.epoch.epoch_of(height) as u32
    }

    /// The position of `(name, from)`, if the pair has one.
    pub open spec fn spec_entry(self, n: Seq<u8>, s: Seq<u8>) -> Option<SubscriberData> {
        if self.ledger().contains_key(n) && self.ledger()[n].contains_key(s) {
            Some(self.ledger()[n][s])
        } else {
            None
        }
    }

    pub fn new(epoch: EpochProxy) -> (r: Subscription)
        requires
            epoch.epoch.wf(),
        ensures
            r.wf(),
            r.ledger() == Map::<Seq<u8>, Map<Seq<u8>, SubscriberData>>::empty(),
            r.epoch == epoch,
    {
        let r = Subscription { subscription: Table::new(), epoch };
        proof {
            assert(r.ledger() =~= Map::<Seq<u8>, Map<Seq<u8>, SubscriberData>>::empty());
        }
        r
    }

    /// The per-epoch rate every subscription accrues at.
    pub fn get_indexer_rate(&self) -> (r: Balance)
        ensures
            r == INDEXER_RATE,
    {
        10
    }

    /// Linear accrual between two epochs.
    pub fn get_subscription_usage(&self, on: u32, curr: u32) -> (r: Balance)
        ensures
            r == spec_usage(on, curr),
    {
        INDEXER_RATE * (elapsed(curr, on) as Balance)
    }

    /// Opens or tops up the `(name, from)` position against a prepayment of
    /// at least thirty epochs at the prevailing rate. A top-up keeps the
    /// accrual origin; only a new position starts accruing now.
    pub fn subscribe(&mut self, name: Hash32, from: AccountId, value: Balance, height: u32) -> (r:
        Result<Subscribe, Error>)
        requires
            old(self).wf(),
            height >= old(self).epoch.epoch.offset,
        ensures
            final(self).wf(),
            final(self).epoch == old(self).epoch,
            match r {
                Ok(ev) => value >= INDEXER_RATE * MIN_SUBSCRIPTION_EPOCHS && ev.name == name
                    && ev.from == from && ev.value == value && final(self).ledger()
                    == spec_after_subscribe(
                    old(self).ledger(),
                    name@,
                    from@,
                    value,
                    old(self).spec_now(height),
                ),
                Err(e) => *final(self) == *old(self) && e == Error::InsufficientPayment && value
                    < INDEXER_RATE * MIN_SUBSCRIPTION_EPOCHS,
            },
    {
        if value < INDEXER_RATE * (MIN_SUBSCRIPTION_EPOCHS as Balance) {
            return Err(Error::InsufficientPayment);
        }
        let now = self.epoch.get().get_current_epoch(height);
        let mut inner = match self.subscription.remove(&name) {
            Some(t) => t,
            None => Table::new(),
        };
        let cur = match inner.get(&from) {
            Some(d) => Some(*d),
            None => None,
        };
        let entry = match cur {
            Some(d) => SubscriberData { balance: d.balance.saturating_add(value), on: d.on },
            None => SubscriberData { balance: value, on: now },
        };
        inner.insert(from, entry);
        self.subscription.insert(name, inner);
        proof {
            assert(self.ledger() =~= spec_after_subscribe(
                old(self).ledger(),
                name@,
                from@,
                value,
                old(self).spec_now(height),
            ));
            assert forall|n: Seq<u8>| self.subscription@.contains_key(n) implies (
            #[trigger] self.subscription@[n]).wf() by {
                if n != name@ {
                    assert(self.subscription@[n] == old(self).subscription@[n]);
                }
            }
        }
        Ok(Subscribe { name, from, value })
    }

    /// Settles and closes the caller's position: the unconsumed remainder
    /// goes back to the caller, the consumed part — bounded by the balance —
    /// goes to the name's current owner, and the entry is removed. The two
    /// payouts always sum to exactly the prepaid balance.
    pub fn unsubscribe(
        &mut self,
        registry: &Registry,
        name: Hash32,
        caller: AccountId,
        height: u32,
    ) -> (r: Result<(Unsubscribe, Option<Payout>, Payout), Error>)
        requires
            old(self).wf(),
            registry.wf(),
            height >= registry.clock().offset,
            height >= old(self).epoch.epoch.offset,
        ensures
            final(self).wf(),
            final(self).epoch == old(self).epoch,
            ({
                let led = old(self).ledger();
                let now = old(self).spec_now(height);
                let named = led.contains_key(name@);
                let has = named && led[name@].contains_key(caller@);
                let sd = led[name@][caller@];
                let usage = spec_usage(sd.on, now);
                let aged = spec_elapsed(now, sd.on) >= MIN_SUBSCRIBER_PERIOD_EPOCHS;
                let live = registry.records@.contains_key(name@) && !spec_rec_expired(
                    registry.records@[name@],
                    registry.spec_now(height),
                );
                match r {
                    Ok((ev, refund, fee)) => has && aged && live && ev.name == name && ev.from
                        == caller && ev.value == spec_refund_amt(sd.balance, usage) && refund == (
                    if spec_refund_amt(sd.balance, usage) > 0 {
                        Some(
                            Payout {
                                to: caller,
                                amount: spec_refund_amt(sd.balance, usage) as Balance,
                            },
                        )
                    } else {
                        Option::<Payout>::None
                    }) && fee.to == registry.records@[name@].owner && fee.amount == spec_owner_amt(
                        sd.balance,
                        usage,
                    ) && spec_refund_amt(sd.balance, usage) + spec_owner_amt(sd.balance, usage)
                        == sd.balance && final(self).ledger() == led.insert(
                        name@,
                        led[name@].remove(caller@),
                    ),
                    Err(e) => *final(self) == *old(self) && match e {
                        Error::NameNotFound => !named || (has && aged && !live),
                        Error::SubscriberNotFound => named && !led[name@].contains_key(caller@),
                        Error::SubscriberPeriodNotMet => has && !aged,
                        _ => false,
                    },
                }
            }),
    {
        let now = self.epoch.get().get_current_epoch(height);
        let sd = match self.subscription.get(&name) {
            None => {
                return Err(Error::NameNotFound);
            },
            Some(inner) => match inner.get(&caller) {
                None => {
                    return Err(Error::SubscriberNotFound);
                },
                Some(d) => *d,
            },
        };
        if elapsed(now, sd.on) < MIN_SUBSCRIBER_PERIOD_EPOCHS {
            return Err(Error::SubscriberPeriodNotMet);
        }
        let owner = match registry.not_expired(name, height) {
            Some((o, _b, _d)) => o,
            None => {
                return Err(Error::NameNotFound);
            },
        };
        let usage = INDEXER_RATE * (elapsed(now, sd.on) as Balance);
        let refund_amt: Balance = if usage <= sd.balance {
            sd.balance - usage
        } else {
            0
        };
        let owner_amt: Balance = if usage <= sd.balance {
            usage
        } else {
            sd.balance
        };
        let mut inner = match self.subscription.remove(&name) {
            Some(t) => t,
            None => Table::new(),
        };
        let _ = inner.remove(&caller);
        self.subscription.insert(name, inner);
        proof {
            assert(self.ledger() =~= old(self).ledger().insert(
                name@,
                old(self).ledger()[name@].remove(caller@),
            ));
            assert forall|n: Seq<u8>| self.subscription@.contains_key(n) implies (
            #[trigger] self.subscription@[n]).wf() by {
                if n != name@ {
                    assert(self.subscription@[n] == old(self).subscription@[n]);
                }
            }
        }
        let refund = if refund_amt > 0 {
            Some(Payout { to: caller, amount: refund_amt })
        } else {
            None
        };
        Ok((
            Unsubscribe { name, from: caller, value: refund_amt },
            refund,
            Payout { to: owner, amount: owner_amt },
        ))
    }

    /// The position of `(name, from)`, if any.
    pub fn get_subscription(&self, name: Hash32, from: AccountId) -> (r: Option<SubscriberData>)
        requires
            self.wf(),
        ensures
            r == self.spec_entry(name@, from@),
    {
        match self.subscription.get(&name) {
            Some(inner) => match inner.get(&from) {
                Some(d) => Some(*d),
                None => None,
            },
            None => None,
        }
    }

    /// Owner-only bulk claim of every subscriber's accrued usage.
    pub fn claim_fees(
        &mut self,
        registry: &Registry,
        name: Hash32,
        caller: AccountId,
        height: u32,
    ) -> (r: Result<(Claimed, Payout), Error>)
        requires
            old(self).wf(),
            registry.wf(),
            height >= old(self).epoch.epoch.offset,
        ensures
            final(self).wf(),
            final(self).epoch == old(self).epoch,
            !registry.spec_is_owner(name@, caller@) ==> r == Result::<(Claimed, Payout), Error>::Err(
                Error::NotOwner,
            ) && *final(self) == *old(self),
            registry.spec_is_owner(name@, caller@) ==> spec_claim_post(
                *old(self),
                *final(self),
                name,
                caller,
                height,
                r,
            ),
    {
        if registry.is_owner_from(name, caller) {
            self.claim_fees_unchecked(name, caller, height)
        } else {
            Err(Error::NotOwner)
        }
    }

    /// The claim itself, with no ownership gate: accrues every subscriber's
    /// usage since their last settlement into one saturating total, resets
    /// every accrual origin to now, and pays the total to the caller — one
    /// atomic unit over all subscribers of the name.
    pub fn claim_fees_unchecked(&mut self, name: Hash32, caller: AccountId, height: u32) -> (r:
        Result<(Claimed, Payout), Error>)
        requires
            old(self).wf(),
            height >= old(self).epoch.epoch.offset,
        ensures
            final(self).wf(),
            final(self).epoch == old(self).epoch,
            spec_claim_post(*old(self), *final(self), name, caller, height, r),
    {
        let now = self.epoch.get().get_current_epoch(height);
        let mut inner = match self.subscription.remove(&name) {
            Some(t) => t,
            None => {
                return Err(Error::NameNotFound);
            },
        };
        let ghost inner0 = inner;
        let ghost kv0 = inner.kv();
        let n = inner.len();
        let mut total: Balance = 0;
        let mut breakdown: Vec<(AccountId, u32)> = Vec::new();
        let mut i: usize = 0;
        proof {
            assert(kv0.take(0) =~= Seq::<(Seq<u8>, SubscriberData)>::empty());
        }
        while i < n
            invariant
                n == kv0.len(),
                0 <= i <= n,
                inner.wf(),
                inner.kv().len() == kv0.len(),
                forall|j: int|
                    0 <= j < i ==> #[trigger] inner.kv()[j] == (
                        kv0[j].0,
                        SubscriberData { balance: kv0[j].1.balance, on: now },
                    ),
                forall|j: int| i <= j < n ==> #[trigger] inner.kv()[j] == kv0[j],
                total == spec_usage_total(kv0.take(i as int), now),
                breakdown@.len() == i,
                forall|j: int|
                    0 <= j < i ==> (#[trigger] breakdown@[j]).0@ == kv0[j].0 && breakdown@[j].1
                        == spec_elapsed(now, kv0[j].1.on),
            decreases n - i,
        {
            let key = *inner.key_at(i);
            let sd = *inner.val_at(i);
            let el = elapsed(now, sd.on);
            let usage = INDEXER_RATE * (el as Balance);
            total = total.saturating_add(usage);
            breakdown.push((key, el));
            inner.set_val_at(i, SubscriberData { balance: sd.balance, on: now });
            proof {
                assert(kv0.take(i as int + 1).drop_last() =~= kv0.take(i as int));
                assert(kv0.take(i as int + 1).last() == kv0[i as int]);
            }
            i = i + 1;
        }
        self.subscription.insert(name, inner);
        proof {
            assert(kv0.take(n as int) =~= kv0);
            assert(inner@ =~= spec_reset_on(inner0@, now)) by {
                assert forall|s: Seq<u8>| inner0@.contains_key(s) implies #[trigger] inner@
                    .contains_key(s) && inner@[s] == SubscriberData {
                    balance: inner0@[s].balance,
                    on: now,
                } by {
                    let j = inner0.spec_idx(s);
                    inner0.lemma_at(j);
                    inner.lemma_at(j);
                }
                assert forall|s: Seq<u8>| inner@.contains_key(s) implies #[trigger] inner0@
                    .contains_key(s) by {
                    let j = inner.spec_idx(s);
                    inner.lemma_at(j);
                    inner0.lemma_at(j);
                }
            }
            assert(self.ledger() =~= old(self).ledger().insert(
                name@,
                spec_reset_on(old(self).ledger()[name@], now),
            ));
            assert forall|m: Seq<u8>| self.subscription@.contains_key(m) implies (
            #[trigger] self.subscription@[m]).wf() by {
                if m != name@ {
                    assert(self.subscription@[m] == old(self).subscription@[m]);
                }
            }
        }
        Ok((Claimed { name, value: breakdown, total }, Payout { to: caller, amount: total }))
    }
}

/// Law: settling a subscription conserves the prepaid balance. The refund
/// and the owner's credit partition the balance exactly, so the two payouts
/// of `unsubscribe` never sum past what was paid in.
pub proof fn lemma_settlement_conserves_balance(balance: Balance, usage: Balance)
    ensures
        spec_refund_amt(balance, usage) + spec_owner_amt(balance, usage) == balance,
        spec_refund_amt(balance, usage) + spec_owner_amt(balance, usage) <= balance,
{
}

} // verus!
