//! The name registry: a commit-reveal auction over hashed names, with
//! epoch-bounded ownership and lazy eviction of expired records.
//!
//! The registry is the single source of truth for who owns a name; the
//! delegation, subscription and dispute components resolve ownership through
//! it on every call rather than caching it.

use crate::clock::{elapsed, spec_elapsed, Epoch, EpochProxy};
use crate::errors::Error;
use crate::hashing::{commitment_hash, name_hash, spec_commitment, spec_name_hash};
use crate::ids::{bytes32_eq, AccountId, Balance, Hash32, Payout};
use crate::table::Table;
use vstd::prelude::*;
use vstd::string::StringSliceAdditionalSpecFns;

verus! {

/// The deposit locked by `commit` and refunded when the record leaves.
pub const MIN_COMMIT_DEPOSIT: Balance = 10;

/// How many blocks a commitment stays revealable.
pub const COMMIT_VALIDITY_BLOCKS: u32 = 100;

/// Rent per name byte per epoch of duration.
pub const RENT_UNIT_RATE: Balance = 1000;

/// The per-epoch subscription rate quoted to subscribers.
pub const INDEXER_RATE: Balance = 10;

/// What the registry records for a name: its owner, the epoch it was
/// registered in, and how many epochs it runs.
#[derive(Clone, Copy, Debug, PartialEq, Eq)]
pub struct NameRecord {
    pub owner: AccountId,
    pub registered_at: u32,
    pub duration: u32,
}

/// Emitted whenever a name is registered.
#[derive(Clone, Copy, Debug, PartialEq, Eq)]
pub struct Register {
    pub name: Hash32,
    pub from: AccountId,
}

/// Emitted whenever a record leaves the registry.
#[derive(Clone, Copy, Debug, PartialEq, Eq)]
pub struct Unregister {
    pub name: Hash32,
}

/// A name is syntactically acceptable while its byte length stays at 256 or
/// below.
pub open spec fn spec_valid(name: Seq<u8>) -> bool {
    name.len() <= 256
}

/// `byte length * duration * rate`: what a registration must pay on top of
/// the locked deposit.
pub open spec fn spec_rent_price(name: Seq<u8>, duration: u32) -> int {
    name.len() * duration * (RENT_UNIT_RATE as int)
}

/// A record has expired once strictly more epochs than its duration have
/// passed since registration.
pub open spec fn spec_rec_expired(rec: NameRecord, now: u32) -> bool {
    spec_elapsed(now, rec.registered_at) > rec.duration
}

pub struct Registry {
    pub records: Table<NameRecord>,
    pub commits: Table<u32>,
    pub commit_names: Table<Hash32>,
    pub epoch: EpochProxy,
}

impl Registry {
    pub open spec fn wf(self) -> bool {
        &&& self.records.wf()
        &&& self.commits.wf()
        &&& self.commit_names.wf()
        &&& self.epoch.epoch.wf()
    }

    pub open spec fn clock(self) -> Epoch {
        self.epoch.epoch
    }

    /// The epoch that block `height` falls in.
    pub open spec fn spec_now(self, height: u32) -> u32
        recommends
            self.wf(),
            height >= self.clock().offset,
    {
        self.clock().epoch_of(height) as u32
    }

    /// Which name hash each commitment was revealed for.
    pub open spec fn bindings(self) -> Map<Seq<u8>, Seq<u8>> {
        Map::new(
            |k: Seq<u8>| self.commit_names@.contains_key(k),
            |k: Seq<u8>| self.commit_names@[k]@,
        )
    }

    /// A name is available while it is valid and no unexpired record holds
    /// its hash.
    pub open spec fn spec_available(self, name: Seq<u8>, now: u32) -> bool {
        spec_valid(name) && (!self.records@.contains_key(spec_name_hash(name))
            || spec_rec_expired(self.records@[spec_name_hash(name)], now))
    }

    /// Ownership against the bare record, expiry ignored; expiry is enforced
    /// by the operations themselves through lazy eviction.
    pub open spec fn spec_is_owner(self, name: Seq<u8>, from: Seq<u8>) -> bool {
        self.records@.contains_key(name) && self.records@[name].owner@ == from
    }

    /// A still-valid commitment already occupies the slot.
    pub open spec fn spec_commit_blocked_by_commit(self, c: Seq<u8>, height: u32) -> bool {
        self.commits@.contains_key(c) && spec_elapsed(height, self.commits@[c])
            <= COMMIT_VALIDITY_BLOCKS
    }

    /// The commitment was already revealed and its name is still held live.
    pub open spec fn spec_commit_blocked_by_name(self, c: Seq<u8>, now: u32) -> bool {
        self.bindings().contains_key(c) && self.records@.contains_key(self.bindings()[c])
            && !spec_rec_expired(self.records@[self.bindings()[c]], now)
    }

    /// All the gates a reveal must pass, in the order they are checked.
    pub open spec fn spec_register_ok(
        self,
        name: Seq<u8>,
        owner: Seq<u8>,
        duration: u32,
        secret: u32,
        value: Balance,
        height: u32,
    ) -> bool {
        let c = spec_commitment(name, owner, secret);
        &&& value >= spec_rent_price(name, duration) + MIN_COMMIT_DEPOSIT
        &&& self.commits@.contains_key(c)
        &&& spec_elapsed(height, self.commits@[c]) <= COMMIT_VALIDITY_BLOCKS
        &&& self.spec_available(name, self.spec_now(height))
    }

    pub fn new(init_value: EpochProxy) -> (r: Registry)
        requires
            init_value.epoch.wf(),
        ensures
            r.wf(),
            r.records@ == Map::<Seq<u8>, NameRecord>::empty(),
            r.commits@ == Map::<Seq<u8>, u32>::empty(),
            r.bindings() == Map::<Seq<u8>, Seq<u8>>::empty(),
            r.epoch == init_value,
    {
        let r = Registry {
            records: Table::new(),
            commits: Table::new(),
            commit_names: Table::new(),
            epoch: init_value,
        };
        proof {
            assert(r.bindings() =~= Map::<Seq<u8>, Seq<u8>>::empty());
        }
        r
    }

    /// The hash under which `name` is keyed everywhere.
    pub fn get_hash(&self, name: &str) -> (r: Hash32)
        ensures
            r@ == spec_name_hash(name.spec_bytes()),
    {
        name_hash(name)
    }

    /// The per-epoch subscription rate the registry quotes.
    pub fn get_indexer_rate(&self) -> (r: Balance)
        ensures
            r == INDEXER_RATE,
    {
        10
    }

    pub fn valid(&self, name: &str) -> (r: bool)
        ensures
            r == spec_valid(name.spec_bytes()),
    {
        name.as_bytes().len() <= 256
    }

    pub fn rent_price(&self, name: &str, duration: u32) -> (r: Balance)
        ensures
            r == spec_rent_price(name.spec_bytes(), duration),
    {
        let l = name.as_bytes().len();
        proof {
            vstd::arithmetic::mul::lemma_mul_upper_bound(
                l as int,
                0xffff_ffff_ffff_ffff,
                duration as int,
                0xffff_ffff,
            );
            vstd::arithmetic::mul::lemma_mul_upper_bound(
                (l as int) * (duration as int),
                0xffff_ffff_ffff_ffffint * 0xffff_ffff,
                RENT_UNIT_RATE as int,
                RENT_UNIT_RATE as int,
            );
        }
        (l as Balance) * (duration as Balance) * RENT_UNIT_RATE
    }

    pub fn available(&self, name: &str, height: u32) -> (r: bool)
        requires
            self.wf(),
            height >= self.clock().offset,
        ensures
            r == self.spec_available(name.spec_bytes(), self.spec_now(height)),
    {
        if !self.valid(name) {
            return false;
        }
        let h = self.get_hash(name);
        match self.records.get(&h) {
            Some(rec) => {
                let now = self.epoch.get().get_current_epoch(height);
                elapsed(now, rec.registered_at) > rec.duration
            },
            None => true,
        }
    }

    /// The hiding hash that binds a future registration to an owner and a
    /// secret, so an observer of the commitment cannot front-run the name.
    pub fn make_commitment(&self, name: &str, owner: AccountId, secret: u32) -> (r: Hash32)
        ensures
            r@ == spec_commitment(name.spec_bytes(), owner@, secret),
    {
        commitment_hash(name, &owner, secret)
    }

    /// The record for `hash_name`, if one exists and has not expired.
    pub fn not_expired(&self, hash_name: Hash32, height: u32) -> (r: Option<
        (AccountId, u32, u32),
    >)
        requires
            self.wf(),
            height >= self.clock().offset,
        ensures
            match r {
                Some(t) => self.records@.contains_key(hash_name@) && !spec_rec_expired(
                    self.records@[hash_name@],
                    self.spec_now(height),
                ) && t == (
                    self.records@[hash_name@].owner,
                    self.records@[hash_name@].registered_at,
                    self.records@[hash_name@].duration,
                ),
                None => !self.records@.contains_key(hash_name@) || spec_rec_expired(
                    self.records@[hash_name@],
                    self.spec_now(height),
                ),
            },
    {
        match self.records.get(&hash_name) {
            Some(rec) => {
                let now = self.epoch.get().get_current_epoch(height);
                if elapsed(now, rec.registered_at) <= rec.duration {
                    Some((rec.owner, rec.registered_at, rec.duration))
                } else {
                    None
                }
            },
            None => None,
        }
    }

    /// The record for `hash_name`, if one exists and has expired.
    pub fn expired(&self, hash_name: Hash32, height: u32) -> (r: Option<(AccountId, u32, u32)>)
        requires
            self.wf(),
            height >= self.clock().offset,
        ensures
            match r {
                Some(t) => self.records@.contains_key(hash_name@) && spec_rec_expired(
                    self.records@[hash_name@],
                    self.spec_now(height),
                ) && t == (
                    self.records@[hash_name@].owner,
                    self.records@[hash_name@].registered_at,
                    self.records@[hash_name@].duration,
                ),
                None => !self.records@.contains_key(hash_name@) || !spec_rec_expired(
                    self.records@[hash_name@],
                    self.spec_now(height),
                ),
            },
    {
        match self.records.get(&hash_name) {
            Some(rec) => {
                let now = self.epoch.get().get_current_epoch(height);
                if elapsed(now, rec.registered_at) > rec.duration {
                    Some((rec.owner, rec.registered_at, rec.duration))
                } else {
                    None
                }
            },
            None => None,
        }
    }

    /// Records a commitment at the current height, against a deposit of at
    /// least [`MIN_COMMIT_DEPOSIT`]. A still-valid commitment in the slot, or
    /// a revealed one whose name is still held live, blocks the overwrite.
    pub fn commit(&mut self, commitment: Hash32, value: Balance, height: u32) -> (r: Result<
        (),
        Error,
    >)
        requires
            old(self).wf(),
            height >= old(self).clock().offset,
        ensures
            final(self).wf(),
            final(self).epoch == old(self).epoch,
            match r {
                Ok(()) => value >= MIN_COMMIT_DEPOSIT && !old(self).spec_commit_blocked_by_commit(
                    commitment@,
                    height,
                ) && !old(self).spec_commit_blocked_by_name(
                    commitment@,
                    old(self).spec_now(height),
                ) && final(self).commits@ == old(self).commits@.insert(commitment@, height)
                    && final(self).records@ == old(self).records@ && final(self).bindings() == old(
                    self,
                ).bindings(),
                Err(e) => *final(self) == *old(self) && match e {
                    Error::InsufficientPayment => value < MIN_COMMIT_DEPOSIT,
                    Error::CommitmentStillValid => value >= MIN_COMMIT_DEPOSIT && old(
                        self,
                    ).spec_commit_blocked_by_commit(commitment@, height),
                    Error::NameNotAvailable => value >= MIN_COMMIT_DEPOSIT && !old(
                        self,
                    ).spec_commit_blocked_by_commit(commitment@, height) && old(
                        self,
                    ).spec_commit_blocked_by_name(commitment@, old(self).spec_now(height)),
                    _ => false,
                },
            },
    {
        if value < MIN_COMMIT_DEPOSIT {
            return Err(Error::InsufficientPayment);
        }
        match self.commits.get(&commitment) {
            Some(b) => {
                if elapsed(height, *b) <= COMMIT_VALIDITY_BLOCKS {
                    return Err(Error::CommitmentStillValid);
                }
            },
            None => {},
        }
        let bound = match self.commit_names.get(&commitment) {
            Some(nh) => Some(*nh),
            None => None,
        };
        match bound {
            Some(nh) => {
                proof {
                    assert(self.bindings().contains_key(commitment@));
                    assert(self.bindings()[commitment@] == nh@);
                }
                match self.records.get(&nh) {
                    Some(rec) => {
                        let now = self.epoch.get().get_current_epoch(height);
                        let live = elapsed(now, rec.registered_at) <= rec.duration;
                        if live {
                            return Err(Error::NameNotAvailable);
                        }
                    },
                    None => {},
                }
            },
            None => {
                proof {
                    assert(!self.bindings().contains_key(commitment@));
                }
            },
        }
        self.commits.insert(commitment, height);
        Ok(())
    }

    /// The eviction path every expiry-aware operation funnels through:
    /// refunds the locked deposit to the record's owner and drops the record.
    /// Evicting an absent record refunds nothing and changes nothing, so a
    /// second eviction of the same record is a no-op.
    pub fn unregister_unchecked(&mut self, name: Hash32) -> (r: Option<Payout>)
        requires
            old(self).wf(),
        ensures
            final(self).wf(),
            final(self).commits@ == old(self).commits@,
            final(self).bindings() == old(self).bindings(),
            final(self).epoch == old(self).epoch,
            match r {
                Some(p) => old(self).records@.contains_key(name@) && p.to == old(
                    self,
                ).records@[name@].owner && p.amount == MIN_COMMIT_DEPOSIT && final(self).records@
                    == old(self).records@.remove(name@),
                None => !old(self).records@.contains_key(name@) && *final(self) == *old(self),
            },
    {
        let found = match self.records.get(&name) {
            Some(rec) => Some(*rec),
            None => None,
        };
        match found {
            Some(rec) => {
                let _ = self.records.remove(&name);
                Some(Payout { to: rec.owner, amount: MIN_COMMIT_DEPOSIT })
            },
            None => None,
        }
    }

    /// Reveals a commitment and takes ownership of the name. The payment
    /// must cover rent plus the locked deposit; the commitment must exist
    /// and still be inside its validity window; the name must be available.
    /// An expired record under the same hash is evicted first, refunding its
    /// deposit to the previous owner.
    pub fn register(
        &mut self,
        name: &str,
        from: AccountId,
        duration: u32,
        secret: u32,
        value: Balance,
        height: u32,
    ) -> (r: Result<(Register, Option<Payout>), Error>)
        requires
            old(self).wf(),
            height >= old(self).clock().offset,
        ensures
            final(self).wf(),
            final(self).epoch == old(self).epoch,
            r is Ok <==> old(self).spec_register_ok(
                name.spec_bytes(),
                from@,
                duration,
                secret,
                value,
                height,
            ),
            match r {
                Ok((ev, refund)) => {
                    let nm = name.spec_bytes();
                    let h = spec_name_hash(nm);
                    let c = spec_commitment(nm, from@, secret);
                    let now = old(self).spec_now(height);
                    &&& ev.name@ == h
                    &&& ev.from == from
                    &&& final(self).records@ == old(self).records@.insert(
                        h,
                        NameRecord { owner: from, registered_at: now, duration },
                    )
                    &&& final(self).commits@ == old(self).commits@.remove(c)
                    &&& final(self).bindings() == old(self).bindings().insert(c, h)
                    &&& refund == (if old(self).records@.contains_key(h) {
                        Some(
                            Payout {
                                to: old(self).records@[h].owner,
                                amount: MIN_COMMIT_DEPOSIT,
                            },
                        )
                    } else {
                        Option::<Payout>::None
                    })
                },
                Err(e) => {
                    let nm = name.spec_bytes();
                    let c = spec_commitment(nm, from@, secret);
                    let pay_ok = value >= spec_rent_price(nm, duration) + MIN_COMMIT_DEPOSIT;
                    let has_commit = old(self).commits@.contains_key(c);
                    let fresh = has_commit && spec_elapsed(height, old(self).commits@[c])
                        <= COMMIT_VALIDITY_BLOCKS;
                    &&& *final(self) == *old(self)
                    &&& match e {
                        Error::InsufficientPayment => !pay_ok,
                        Error::CommitmentNotFound => pay_ok && !has_commit,
                        Error::CommitmentExpired => pay_ok && has_commit && !fresh,
                        Error::NameNotAvailable => pay_ok && fresh && !old(self).spec_available(
                            nm,
                            old(self).spec_now(height),
                        ),
                        _ => false,
                    }
                },
            },
    {
        let rent = self.rent_price(name, duration);
        if value < rent || value - rent < MIN_COMMIT_DEPOSIT {
            return Err(Error::InsufficientPayment);
        }
        let commitment = self.make_commitment(name, from, secret);
        match self.commits.get(&commitment) {
            Some(b) => {
                if elapsed(height, *b) > COMMIT_VALIDITY_BLOCKS {
                    return Err(Error::CommitmentExpired);
                }
            },
            None => {
                return Err(Error::CommitmentNotFound);
            },
        }
        if !self.available(name, height) {
            return Err(Error::NameNotAvailable);
        }
        let h = self.get_hash(name);
        let refund = self.unregister_unchecked(h);
        let now = self.epoch.get().get_current_epoch(height);
        self.records.insert(h, NameRecord { owner: from, registered_at: now, duration });
        self.commit_names.insert(commitment, h);
        let _ = self.commits.remove(&commitment);
        proof {
            assert(self.bindings() =~= old(self).bindings().insert(
                commitment@,
                spec_name_hash(name.spec_bytes()),
            ));
            assert(self.records@ =~= old(self).records@.insert(
                spec_name_hash(name.spec_bytes()),
                NameRecord {
                    owner: from,
                    registered_at: old(self).spec_now(height),
                    duration,
                },
            ));
        }
        Ok((Register { name: h, from }, refund))
    }

    /// Ownership of a record, expiry ignored, for the given caller.
    pub fn is_owner(&self, name: Hash32, caller: AccountId) -> (r: bool)
        requires
            self.wf(),
        ensures
            r == self.spec_is_owner(name@, caller@),
    {
        match self.records.get(&name) {
            Some(rec) => bytes32_eq(&rec.owner, &caller),
            None => false,
        }
    }

    /// Ownership of a record, expiry ignored, for an arbitrary account.
    pub fn is_owner_from(&self, name: Hash32, from: AccountId) -> (r: bool)
        requires
            self.wf(),
        ensures
            r == self.spec_is_owner(name@, from@),
    {
        self.is_owner(name, from)
    }

    /// Owner-only removal of a record, refunding the locked deposit.
    pub fn unregister(&mut self, name: Hash32, caller: AccountId) -> (r: Result<
        (Unregister, Payout),
        Error,
    >)
        requires
            old(self).wf(),
        ensures
            final(self).wf(),
            final(self).commits@ == old(self).commits@,
            final(self).bindings() == old(self).bindings(),
            final(self).epoch == old(self).epoch,
            match r {
                Ok((ev, p)) => old(self).spec_is_owner(name@, caller@) && ev.name == name && p.to
                    == old(self).records@[name@].owner && p.amount == MIN_COMMIT_DEPOSIT && final(self).records@ == old(self).records@.remove(name@),
                Err(e) => *final(self) == *old(self) && e == Error::NotOwner && !old(
                    self,
                ).spec_is_owner(name@, caller@),
            },
    {
        if self.is_owner(name, caller) {
            match self.unregister_unchecked(name) {
                Some(p) => Ok((Unregister { name }, p)),
                None => {
                    proof {
                        assert(false);
                    }
                    Err(Error::NotOwner)
                },
            }
        } else {
            Err(Error::NotOwner)
        }
    }
}


/// Law: a commitment revealed inside its validity window succeeds exactly
/// once. After a `commit` records the commitment, a `register` whose
/// arguments reproduce it passes every reveal gate — given sufficient
/// payment and an available name — and consumes the commitment, so a second
/// reveal of the same commitment finds none on file and is refused.
pub proof fn lemma_commit_register_round_trip(
    s0: Registry,
    s1: Registry,
    s2: Registry,
    name: Seq<u8>,
    owner: Seq<u8>,
    duration: u32,
    secret: u32,
    value: Balance,
    h1: u32,
    h2: u32,
)
    requires
        s1.commits@ == s0.commits@.insert(spec_commitment(name, owner, secret), h1),
        value >= spec_rent_price(name, duration) + MIN_COMMIT_DEPOSIT,
        spec_elapsed(h2, h1) <= COMMIT_VALIDITY_BLOCKS,
        s1.spec_available(name, s1.spec_now(h2)),
        s2.commits@ == s1.commits@.remove(spec_commitment(name, owner, secret)),
    ensures
        s1.spec_register_ok(name, owner, duration, secret, value, h2),
        !s2.commits@.contains_key(spec_commitment(name, owner, secret)),
{
}


/// Law: eviction is idempotent. One eviction leaves no record under the
/// name, and `unregister_unchecked`'s contract turns the absence into a
/// no-op — the second call refunds nothing and changes nothing.
pub proof fn lemma_eviction_idempotent(s0: Registry, s1: Registry, name: Seq<u8>)
    requires
        s1.records@ == s0.records@.remove(name) || (!s0.records@.contains_key(name) && s1 == s0),
    ensures
        !s1.records@.contains_key(name),
{
}

} // verus!
