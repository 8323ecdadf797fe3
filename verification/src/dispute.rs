//! Dispute resolution: subscribers raise content disputes, judges vote on
//! content ids while the dispute is inside its validity window, and the
//! judge set extends itself by co-option.

use crate::clock::{elapsed, spec_elapsed, EpochProxy};
use crate::errors::Error;
use crate::ids::{bytes32_eq, AccountId, Hash32};
use crate::subscription::Subscription;
use crate::table::Table;
use vstd::prelude::*;

verus! {

/// How many epochs a dispute stays open and votable.
pub const DISPUTE_EXPIRATION_EPOCHS: u32 = 10;

/// One open dispute of a subscriber on a name: the contested content id and
/// the epoch it was raised in.
#[derive(Clone, Copy, Debug, PartialEq, Eq)]
pub struct DisputeEntry {
    pub cid: Hash32,
    pub raised_at: u32,
}

/// Emitted whenever a dispute is raised.
#[derive(Clone, Copy, Debug, PartialEq, Eq)]
pub struct Raised {
    pub name: Hash32,
    pub from: AccountId,
    pub cid: Hash32,
}

/// Emitted whenever a dispute is withdrawn.
#[derive(Clone, Copy, Debug, PartialEq, Eq)]
pub struct WithdrawDispute {
    pub name: Hash32,
    pub from: AccountId,
    pub cid: Hash32,
}

/// An entry keeps `cid` votable at `now` while it references it inside the
/// expiration window.
pub open spec fn spec_entry_matches(e: DisputeEntry, cid: Seq<u8>, now: u32) -> bool {
    e.cid@ == cid && spec_elapsed(now, e.raised_at) < DISPUTE_EXPIRATION_EPOCHS
}

/// Some still-open, unexpired dispute anywhere references `cid`.
pub open spec fn spec_cid_live_in(
    d: Map<Seq<u8>, Map<Seq<u8>, DisputeEntry>>,
    cid: Seq<u8>,
    now: u32,
) -> bool {
    exists|n: Seq<u8>, s: Seq<u8>|
        d.contains_key(n) && d[n].contains_key(s) && spec_entry_matches(
            #[trigger] d[n][s],
            cid,
            now,
        )
}

/// The dispute map after `(name, subscriber)` raises `cid` at `now`,
/// overwriting whatever entry the pair had.
pub open spec fn spec_after_raise(
    d: Map<Seq<u8>, Map<Seq<u8>, DisputeEntry>>,
    n: Seq<u8>,
    s: Seq<u8>,
    cid: Hash32,
    now: u32,
) -> Map<Seq<u8>, Map<Seq<u8>, DisputeEntry>> {
    let inner = if d.contains_key(n) {
        d[n]
    } else {
        Map::<Seq<u8>, DisputeEntry>::empty()
    };
    d.insert(n, inner.insert(s, DisputeEntry { cid, raised_at: now }))
}

/// The verdict map after one judge's vote on `cid` lands, last write wins.
pub open spec fn spec_after_vote(
    v: Map<Seq<u8>, Map<Seq<u8>, bool>>,
    c: Seq<u8>,
    judge: Seq<u8>,
    vote: bool,
) -> Map<Seq<u8>, Map<Seq<u8>, bool>> {
    let inner = if v.contains_key(c) {
        v[c]
    } else {
        Map::<Seq<u8>, bool>::empty()
    };
    v.insert(c, inner.insert(judge, vote))
}

pub struct Dispute {
    pub dispute: Table<Table<DisputeEntry>>,
    pub reputation: Table<u16>,
    pub judge: Vec<AccountId>,
    pub veredict: Table<Table<bool>>,
    pub epoch: EpochProxy,
}

impl Dispute {
    pub open spec fn wf(self) -> bool {
        &&& self.dispute.wf()
        &&& self.reputation.wf()
        &&& self.veredict.wf()
        &&& self.epoch.epoch.wf()
        &&& forall|n: Seq<u8>|
            self.dispute@.contains_key(n) ==> (#[trigger] self.dispute@[n]).wf()
        &&& forall|c: Seq<u8>|
            self.veredict@.contains_key(c) ==> (#[trigger] self.veredict@[c]).wf()
    }

    /// The two-level dispute map: name, then subscriber.
    pub open spec fn disputes(self) -> Map<Seq<u8>, Map<Seq<u8>, DisputeEntry>> {
        Map::new(|n: Seq<u8>| self.dispute@.contains_key(n), |n: Seq<u8>| self.dispute@[n]@)
    }

    /// The two-level verdict map: content id, then judge.
    pub open spec fn verdicts(self) -> Map<Seq<u8>, Map<Seq<u8>, bool>> {
        Map::new(|c: Seq<u8>| self.veredict@.contains_key(c), |c: Seq<u8>| self.veredict@[c]@)
    }

    pub open spec fn spec_is_judge(self, a: Seq<u8>) -> bool {
        exists|i: int| 0 <= i < self.judge@.len() && (#[trigger] self.judge@[i])@ == a
    }

    pub open spec fn spec_now(self, height: u32) -> u32 {
        self.epoch.epoch.epoch_of(height) as u32
    }

    pub open spec fn spec_cid_live(self, cid: Seq<u8>, now: u32) -> bool {
        spec_cid_live_in(self.disputes(), cid, now)
    }

    /// Starts with a single judge; the set grows only by co-option.
    pub fn new(judger: AccountId, epoch: EpochProxy) -> (r: Dispute)
        requires
            epoch.epoch.wf(),
        ensures
            r.wf(),
            r.disputes() == Map::<Seq<u8>, Map<Seq<u8>, DisputeEntry>>::empty(),
            r.verdicts() == Map::<Seq<u8>, Map<Seq<u8>, bool>>::empty(),
            r.reputation@ == Map::<Seq<u8>, u16>::empty(),
            r.judge@ == seq![judger],
            r.epoch == epoch,
    {
        let mut judgers: Vec<AccountId> = Vec::new();
        judgers.push(judger);
        let r = Dispute {
            dispute: Table::new(),
            reputation: Table::new(),
            judge: judgers,
            veredict: Table::new(),
            epoch,
        };
        proof {
            assert(r.disputes() =~= Map::<Seq<u8>, Map<Seq<u8>, DisputeEntry>>::empty());
            assert(r.verdicts() =~= Map::<Seq<u8>, Map<Seq<u8>, bool>>::empty());
            assert(r.judge@ =~= seq![judger]);
        }
        r
    }

    /// Whether `caller` sits in the judge set.
    pub fn is_judge(&self, caller: AccountId) -> (r: bool)
        ensures
            r == self.spec_is_judge(caller@),
    {
        let n = self.judge.len();
        let mut i: usize = 0;
        while i < n
            invariant
                n == self.judge@.len(),
                0 <= i <= n,
                forall|j: int| 0 <= j < i ==> (#[trigger] self.judge@[j])@ != caller@,
            decreases n - i,
        {
            if bytes32_eq(&self.judge[i], &caller) {
                return true;
            }
            i = i + 1;
        }
        false
    }

    /// Judge-only co-option of another judge; there is no removal path, a
    /// deliberate simplification of the governance model.
    pub fn insert_judge(&mut self, judge: AccountId, caller: AccountId) -> (r: Result<(), Error>)
        requires
            old(self).wf(),
        ensures
            final(self).wf(),
            match r {
                Ok(()) => old(self).spec_is_judge(caller@) && final(self).judge@ == old(self).judge@.push(judge) && final(self).dispute == old(self).dispute && final(self).veredict == old(self).veredict && final(self).reputation == old(self).reputation
                    && final(self).epoch == old(self).epoch,
                Err(e) => *final(self) == *old(self) && e == Error::NotJudge && !old(self).spec_is_judge(caller@),
            },
    {
        if self.is_judge(caller) {
            self.judge.push(judge);
            Ok(())
        } else {
            Err(Error::NotJudge)
        }
    }

    /// The current epoch, for callers that track dispute ages.
    pub fn get_current_epoch(&self, height: u32) -> (r: u32)
        requires
            self.epoch.epoch.wf(),
            height >= self.epoch.epoch.offset,
        ensures
            r == self.spec_now(height),
    {
        self.epoch.get().get_current_epoch(height)
    }

    /// The reputation recorded for a name, if any.
    pub fn get_reputation(&self, hash_name: Hash32) -> (r: Option<u16>)
        requires
            self.wf(),
        ensures
            match r {
                Some(v) => self.reputation@.contains_key(hash_name@) && v
                    == self.reputation@[hash_name@],
                None => !self.reputation@.contains_key(hash_name@),
            },
    {
        match self.reputation.get(&hash_name) {
            Some(v) => Some(*v),
            None => None,
        }
    }

    /// The open dispute of `(hash_name, subscriber)`, if any.
    pub fn get_cid(&self, hash_name: Hash32, subscriber: AccountId) -> (r: Option<(Hash32, u32)>)
        requires
            self.wf(),
        ensures
            ({
                let d = self.disputes();
                match r {
                    Some(t) => d.contains_key(hash_name@) && d[hash_name@].contains_key(
                        subscriber@,
                    ) && t == (d[hash_name@][subscriber@].cid, d[hash_name@][subscriber@].raised_at),
                    None => !d.contains_key(hash_name@) || !d[hash_name@].contains_key(
                        subscriber@,
                    ),
                }
            }),
    {
        match self.dispute.get(&hash_name) {
            Some(inner) => match inner.get(&subscriber) {
                Some(e) => Some((e.cid, e.raised_at)),
                None => None,
            },
            None => None,
        }
    }

    /// Whether some still-open, unexpired dispute references `cid`.
    pub fn cid_exists(&self, cid: Hash32, height: u32) -> (r: bool)
        requires
            self.wf(),
            height >= self.epoch.epoch.offset,
        ensures
            r == self.spec_cid_live(cid@, self.spec_now(height)),
    {
        let now = self.epoch.get().get_current_epoch(height);
        let n_outer = self.dispute.len();
        let mut i: usize = 0;
        while i < n_outer
            invariant
                self.wf(),
                n_outer == self.dispute.kv().len(),
                0 <= i <= n_outer,
                now == self.spec_now(height),
                forall|i0: int, j0: int|
                    0 <= i0 < i && 0 <= j0 < self.dispute.kv()[i0].1.kv().len()
                        ==> !spec_entry_matches(
                        (#[trigger] self.dispute.kv()[i0].1.kv()[j0]).1,
                        cid@,
                        now,
                    ),
            decreases n_outer - i,
        {
            let inner = self.dispute.val_at(i);
            let m = inner.len();
            let mut j: usize = 0;
            while j < m
                invariant
                    self.wf(),
                    n_outer == self.dispute.kv().len(),
                    0 <= i < n_outer,
                    m == inner.kv().len(),
                    0 <= j <= m,
                    now == self.spec_now(height),
                    *inner == self.dispute.kv()[i as int].1,
                    forall|i0: int, j0: int|
                        0 <= i0 < i && 0 <= j0 < self.dispute.kv()[i0].1.kv().len()
                            ==> !spec_entry_matches(
                            (#[trigger] self.dispute.kv()[i0].1.kv()[j0]).1,
                            cid@,
                            now,
                        ),
                    forall|j0: int|
                        0 <= j0 < j ==> !spec_entry_matches(
                            (#[trigger] inner.kv()[j0]).1,
                            cid@,
                            now,
                        ),
                decreases m - j,
            {
                let e = *inner.val_at(j);
                if bytes32_eq(&e.cid, &cid) {
                    if elapsed(now, e.raised_at) < DISPUTE_EXPIRATION_EPOCHS {
                        proof {
                            self.dispute.lemma_at(i as int);
                            let n = self.dispute.kv()[i as int].0;
                            inner.lemma_at(j as int);
                            let s = inner.kv()[j as int].0;
                            assert(self.disputes().contains_key(n));
                            assert(self.disputes()[n] == inner@);
                            assert(self.disputes()[n].contains_key(s));
                            assert(spec_entry_matches(self.disputes()[n][s], cid@, now));
                        }
                        return true;
                    }
                }
                j = j + 1;
            }
            i = i + 1;
        }
        proof {
            assert(!self.spec_cid_live(cid@, now)) by {
                if self.spec_cid_live(cid@, now) {
                    let (n, s) = choose|n: Seq<u8>, s: Seq<u8>|
                        self.disputes().contains_key(n) && self.disputes()[n].contains_key(s)
                            && spec_entry_matches(#[trigger] self.disputes()[n][s], cid@, now);
                    assert(self.dispute.contains(n));
                    let i0 = self.dispute.spec_idx(n);
                    self.dispute.lemma_at(i0);
                    let inner0 = self.dispute.kv()[i0].1;
                    assert(self.disputes()[n] == inner0@);
                    assert(inner0@.contains_key(s));
                    let j0 = inner0.spec_idx(s);
                    inner0.lemma_at(j0);
                    assert(spec_entry_matches(self.dispute.kv()[i0].1.kv()[j0].1, cid@, now));
                }
            }
        }
        false
    }

    /// A subscriber of `name` raises a dispute over `cid`. One live dispute
    /// per pair: an older entry may be overwritten only once its age has
    /// passed the expiration window.
    pub fn raise_dispute(
        &mut self,
        subscription: &Subscription,
        name: Hash32,
        cid: Hash32,
        caller: AccountId,
        height: u32,
    ) -> (r: Result<Raised, Error>)
        requires
            old(self).wf(),
            subscription.wf(),
            height >= old(self).epoch.epoch.offset,
        ensures
            final(self).wf(),
            final(self).veredict == old(self).veredict,
            final(self).judge == old(self).judge,
            final(self).reputation == old(self).reputation,
            final(self).epoch == old(self).epoch,
            ({
                let d = old(self).disputes();
                let now = old(self).spec_now(height);
                let subscribed = subscription.spec_entry(name@, caller@) is Some;
                let entry = if d.contains_key(name@) && d[name@].contains_key(caller@) {
                    Some(d[name@][caller@])
                } else {
                    Option::<DisputeEntry>::None
                };
                let blocked = entry is Some && spec_elapsed(now, entry->Some_0.raised_at)
                    <= DISPUTE_EXPIRATION_EPOCHS;
                match r {
                    Ok(ev) => subscribed && !blocked && ev.name == name && ev.from == caller
                        && ev.cid == cid && final(self).disputes() == spec_after_raise(
                        d,
                        name@,
                        caller@,
                        cid,
                        now,
                    ),
                    Err(e) => *final(self) == *old(self) && match e {
                        Error::NotSubscribed => !subscribed,
                        Error::DisputeStillOpen => subscribed && blocked,
                        _ => false,
                    },
                }
            }),
    {
        match subscription.get_subscription(name, caller) {
            Some(_) => {},
            None => {
                return Err(Error::NotSubscribed);
            },
        }
        let now = self.epoch.get().get_current_epoch(height);
        let cur = match self.dispute.get(&name) {
            Some(inner) => match inner.get(&caller) {
                Some(e) => Some(*e),
                None => None,
            },
            None => None,
        };
        match cur {
            Some(e) => {
                if elapsed(now, e.raised_at) <= DISPUTE_EXPIRATION_EPOCHS {
                    return Err(Error::DisputeStillOpen);
                }
            },
            None => {},
        }
        let mut inner = match self.dispute.remove(&name) {
            Some(t) => t,
            None => Table::new(),
        };
        inner.insert(caller, DisputeEntry { cid, raised_at: now });
        self.dispute.insert(name, inner);
        proof {
            assert(self.disputes() =~= spec_after_raise(
                old(self).disputes(),
                name@,
                caller@,
                cid,
                old(self).spec_now(height),
            ));
            assert forall|n: Seq<u8>| self.dispute@.contains_key(n) implies (
            #[trigger] self.dispute@[n]).wf() by {
                if n != name@ {
                    assert(self.dispute@[n] == old(self).dispute@[n]);
                }
            }
        }
        Ok(Raised { name, from: caller, cid })
    }

    /// A subscriber withdraws their dispute; any verdicts pending on its
    /// content id are purged with it.
    pub fn withdraw_dispute(
        &mut self,
        subscription: &Subscription,
        name: Hash32,
        caller: AccountId,
    ) -> (r: Result<WithdrawDispute, Error>)
        requires
            old(self).wf(),
            subscription.wf(),
        ensures
            final(self).wf(),
            final(self).judge == old(self).judge,
            final(self).reputation == old(self).reputation,
            final(self).epoch == old(self).epoch,
            ({
                let d = old(self).disputes();
                let subscribed = subscription.spec_entry(name@, caller@) is Some;
                let named = d.contains_key(name@);
                let has = named && d[name@].contains_key(caller@);
                match r {
                    Ok(ev) => subscribed && has && ev.name == name && ev.from == caller && ev.cid
                        == d[name@][caller@].cid && final(self).disputes() == d.insert(
                        name@,
                        d[name@].remove(caller@),
                    ) && final(self).verdicts() == old(self).verdicts().remove(
                        d[name@][caller@].cid@,
                    ),
                    Err(e) => *final(self) == *old(self) && match e {
                        Error::NotSubscribed => !subscribed,
                        Error::NameNotFound => subscribed && !named,
                        Error::DisputeNotFound => subscribed && named && !d[name@].contains_key(
                            caller@,
                        ),
                        _ => false,
                    },
                }
            }),
    {
        match subscription.get_subscription(name, caller) {
            Some(_) => {},
            None => {
                return Err(Error::NotSubscribed);
            },
        }
        let cur = match self.dispute.get(&name) {
            Some(inner) => match inner.get(&caller) {
                Some(e) => Some(*e),
                None => None,
            },
            None => {
                return Err(Error::NameNotFound);
            },
        };
        match cur {
            Some(e) => {
                let mut inner = match self.dispute.remove(&name) {
                    Some(t) => t,
                    None => Table::new(),
                };
                let _ = inner.remove(&caller);
                self.dispute.insert(name, inner);
                let _ = self.veredict.remove(&e.cid);
                proof {
                    assert(self.disputes() =~= old(self).disputes().insert(
                        name@,
                        old(self).disputes()[name@].remove(caller@),
                    ));
                    assert(self.verdicts() =~= old(self).verdicts().remove(e.cid@));
                    assert forall|n: Seq<u8>| self.dispute@.contains_key(n) implies (
                    #[trigger] self.dispute@[n]).wf() by {
                        if n != name@ {
                            assert(self.dispute@[n] == old(self).dispute@[n]);
                        }
                    }
                    assert forall|c: Seq<u8>| self.veredict@.contains_key(c) implies (
                    #[trigger] self.veredict@[c]).wf() by {
                        assert(self.veredict@[c] == old(self).veredict@[c]);
                    }
                }
                Ok(WithdrawDispute { name, from: caller, cid: e.cid })
            },
            None => Err(Error::DisputeNotFound),
        }
    }

    /// A judge's boolean vote on a votable content id, last write wins. No
    /// tallying rule is defined here; aggregation is left to readers of the
    /// verdict map.
    pub fn submit_vote(&mut self, cid: Hash32, vote: bool, caller: AccountId, height: u32) -> (r:
        Result<(), Error>)
        requires
            old(self).wf(),
            height >= old(self).epoch.epoch.offset,
        ensures
            final(self).wf(),
            final(self).dispute == old(self).dispute,
            final(self).judge == old(self).judge,
            final(self).reputation == old(self).reputation,
            final(self).epoch == old(self).epoch,
            ({
                let judge = old(self).spec_is_judge(caller@);
                let votable = old(self).spec_cid_live(cid@, old(self).spec_now(height));
                match r {
                    Ok(()) => judge && votable && final(self).verdicts() == spec_after_vote(
                        old(self).verdicts(),
                        cid@,
                        caller@,
                        vote,
                    ),
                    Err(e) => *final(self) == *old(self) && match e {
                        Error::NotJudge => !judge,
                        Error::CidNotFound => judge && !votable,
                        _ => false,
                    },
                }
            }),
    {
        if !self.is_judge(caller) {
            return Err(Error::NotJudge);
        }
        if !self.cid_exists(cid, height) {
            return Err(Error::CidNotFound);
        }
        let mut inner = match self.veredict.remove(&cid) {
            Some(t) => t,
            None => Table::new(),
        };
        inner.insert(caller, vote);
        self.veredict.insert(cid, inner);
        proof {
            assert(self.verdicts() =~= spec_after_vote(
                old(self).verdicts(),
                cid@,
                caller@,
                vote,
            ));
            assert forall|c: Seq<u8>| self.veredict@.contains_key(c) implies (
            #[trigger] self.veredict@[c]).wf() by {
                if c != cid@ {
                    assert(self.veredict@[c] == old(self).veredict@[c]);
                }
            }
        }
        Ok(())
    }
}

/// Law: raising a dispute makes its content id votable at once, and — with
/// no other dispute referencing the id and no intervening state change — no
/// longer votable once the dispute's age reaches the expiration window.
pub proof fn lemma_dispute_lifecycle(
    d: Map<Seq<u8>, Map<Seq<u8>, DisputeEntry>>,
    n: Seq<u8>,
    s: Seq<u8>,
    cid: Hash32,
    now: u32,
    later: u32,
)
    requires
        forall|n2: Seq<u8>, s2: Seq<u8>|
            d.contains_key(n2) && d[n2].contains_key(s2) ==> (#[trigger] d[n2][s2]).cid@ != cid@,
        spec_elapsed(later, now) >= DISPUTE_EXPIRATION_EPOCHS,
    ensures
        spec_cid_live_in(spec_after_raise(d, n, s, cid, now), cid@, now),
        !spec_cid_live_in(spec_after_raise(d, n, s, cid, now), cid@, later),
{
    let d2 = spec_after_raise(d, n, s, cid, now);
    assert(d2.contains_key(n) && d2[n].contains_key(s));
    assert(d2[n][s] == DisputeEntry { cid, raised_at: now });
    assert(spec_elapsed(now, now) == 0);
    assert(spec_entry_matches(d2[n][s], cid@, now));
    assert forall|n2: Seq<u8>, s2: Seq<u8>|
        d2.contains_key(n2) && d2[n2].contains_key(s2) implies !spec_entry_matches(
        #[trigger] d2[n2][s2],
        cid@,
        later,
    ) by {
        if n2 == n && s2 == s {
            assert(d2[n2][s2].raised_at == now);
            assert(spec_elapsed(later, now) >= DISPUTE_EXPIRATION_EPOCHS);
        } else if n2 == n {
            if d.contains_key(n) {
                assert(d2[n2][s2] == d[n][s2]);
                assert(d[n].contains_key(s2));
            } else {
                assert(!d2[n].contains_key(s2));
            }
        } else {
            assert(d2[n2][s2] == d[n2][s2]);
        }
    }
}

} // verus!
