//! Name-scoped metadata: a service link and a property map per name, owner
//! mutable. Both mutations re-check expiry and lazily evict an expired
//! record — with its metadata — instead of applying.

use crate::errors::Error;
use crate::ids::{AccountId, Hash32, Payout};
use crate::registry::{spec_rec_expired, Registry, Unregister};
use crate::table::Table;
use vstd::prelude::*;

verus! {

/// Emitted whenever a name's link is set.
#[derive(Clone, Debug)]
pub struct Link {
    pub name: Hash32,
    pub link: String,
}

/// Emitted whenever a capability of a name is set.
#[derive(Clone, Debug)]
pub struct Capabilities {
    pub name: Hash32,
    pub property: Hash32,
    pub value: String,
}

/// What an owner-gated link update did: applied, or turned into a lazy
/// eviction because the record had expired.
#[derive(Debug)]
pub enum LinkOutcome {
    Applied(Link),
    Evicted(Unregister, Payout),
}

/// What an owner-gated capability update did.
#[derive(Debug)]
pub enum CapabilityOutcome {
    Applied(Capabilities),
    Evicted(Unregister, Payout),
}

pub struct IndexerMeta {
    pub link: Table<String>,
    pub capabilities: Table<Table<String>>,
}

impl IndexerMeta {
    pub open spec fn wf(self) -> bool {
        &&& self.link.wf()
        &&& self.capabilities.wf()
        &&& forall|n: Seq<u8>|
            self.capabilities@.contains_key(n) ==> (#[trigger] self.capabilities@[n]).wf()
    }

    /// The two-level capability map: name, then property.
    pub open spec fn caps(self) -> Map<Seq<u8>, Map<Seq<u8>, String>> {
        Map::new(
            |n: Seq<u8>| self.capabilities@.contains_key(n),
            |n: Seq<u8>| self.capabilities@[n]@,
        )
    }

    pub fn new() -> (r: IndexerMeta)
        ensures
            r.wf(),
            r.link@ == Map::<Seq<u8>, String>::empty(),
            r.caps() == Map::<Seq<u8>, Map<Seq<u8>, String>>::empty(),
    {
        let r = IndexerMeta { link: Table::new(), capabilities: Table::new() };
        proof {
            assert(r.caps() =~= Map::<Seq<u8>, Map<Seq<u8>, String>>::empty());
        }
        r
    }

    /// Owner-only link update; on an expired record it evicts instead,
    /// dropping the record, its link and its capabilities, and refunding the
    /// locked deposit.
    pub fn set_link(
        &mut self,
        registry: &mut Registry,
        name: Hash32,
        link: String,
        caller: AccountId,
        height: u32,
    ) -> (r: Result<LinkOutcome, Error>)
        requires
            old(self).wf(),
            old(registry).wf(),
            height >= old(registry).clock().offset,
        ensures
            final(self).wf(),
            final(registry).wf(),
            final(registry).commits@ == old(registry).commits@,
            final(registry).bindings() == old(registry).bindings(),
            final(registry).epoch == old(registry).epoch,
            ({
                let owned = old(registry).spec_is_owner(name@, caller@);
                let dead = spec_rec_expired(
                    old(registry).records@[name@],
                    old(registry).spec_now(height),
                );
                match r {
                    Ok(LinkOutcome::Applied(ev)) => owned && !dead && ev.name == name && ev.link
                        == link && *final(registry) == *old(registry) && final(self).link@ == old(
                        self,
                    ).link@.insert(name@, link) && final(self).caps() == old(self).caps(),
                    Ok(LinkOutcome::Evicted(ev, p)) => owned && dead && ev.name == name && p.to
                        == old(registry).records@[name@].owner && p.amount
                        == crate::registry::MIN_COMMIT_DEPOSIT && final(registry).records@ == old(
                        registry,
                    ).records@.remove(name@) && final(self).link@ == old(self).link@.remove(name@)
                        && final(self).caps() == old(self).caps().remove(name@),
                    Err(e) => *final(self) == *old(self) && *final(registry) == *old(registry) && e
                        == Error::NotOwner && !owned,
                }
            }),
    {
        if !registry.is_owner(name, caller) {
            return Err(Error::NotOwner);
        }
        match registry.expired(name, height) {
            Some(_) => {
                let p = match registry.unregister_unchecked(name) {
                    Some(p) => p,
                    None => {
                        proof {
                            assert(false);
                        }
                        Payout { to: caller, amount: 0 }
                    },
                };
                let _ = self.link.remove(&name);
                let _ = self.capabilities.remove(&name);
                proof {
                    assert(self.link@ =~= old(self).link@.remove(name@));
                    assert(self.caps() =~= old(self).caps().remove(name@));
                }
                Ok(LinkOutcome::Evicted(Unregister { name }, p))
            },
            None => {
                let stored = link.clone();
                self.link.insert(name, stored);
                Ok(LinkOutcome::Applied(Link { name, link }))
            },
        }
    }

    /// Owner-only capability update; evicts instead when the record has
    /// expired, exactly as `set_link` does.
    pub fn set_capability(
        &mut self,
        registry: &mut Registry,
        name: Hash32,
        property: Hash32,
        value: String,
        caller: AccountId,
        height: u32,
    ) -> (r: Result<CapabilityOutcome, Error>)
        requires
            old(self).wf(),
            old(registry).wf(),
            height >= old(registry).clock().offset,
        ensures
            final(self).wf(),
            final(registry).wf(),
            final(registry).commits@ == old(registry).commits@,
            final(registry).bindings() == old(registry).bindings(),
            final(registry).epoch == old(registry).epoch,
            ({
                let owned = old(registry).spec_is_owner(name@, caller@);
                let dead = spec_rec_expired(
                    old(registry).records@[name@],
                    old(registry).spec_now(height),
                );
                let inner = if old(self).caps().contains_key(name@) {
                    old(self).caps()[name@]
                } else {
                    Map::<Seq<u8>, String>::empty()
                };
                match r {
                    Ok(CapabilityOutcome::Applied(ev)) => owned && !dead && ev.name == name
                        && ev.property == property && ev.value == value && *final(registry)
                        == *old(registry) && final(self).caps() == old(self).caps().insert(
                        name@,
                        inner.insert(property@, value),
                    ) && final(self).link@ == old(self).link@,
                    Ok(CapabilityOutcome::Evicted(ev, p)) => owned && dead && ev.name == name
                        && p.to == old(registry).records@[name@].owner && p.amount
                        == crate::registry::MIN_COMMIT_DEPOSIT && final(registry).records@ == old(
                        registry,
                    ).records@.remove(name@) && final(self).link@ == old(self).link@.remove(name@)
                        && final(self).caps() == old(self).caps().remove(name@),
                    Err(e) => *final(self) == *old(self) && *final(registry) == *old(registry) && e
                        == Error::NotOwner && !owned,
                }
            }),
    {
        if !registry.is_owner(name, caller) {
            return Err(Error::NotOwner);
        }
        match registry.expired(name, height) {
            Some(_) => {
                let p = match registry.unregister_unchecked(name) {
                    Some(p) => p,
                    None => {
                        proof {
                            assert(false);
                        }
                        Payout { to: caller, amount: 0 }
                    },
                };
                let _ = self.link.remove(&name);
                let _ = self.capabilities.remove(&name);
                proof {
                    assert(self.link@ =~= old(self).link@.remove(name@));
                    assert(self.caps() =~= old(self).caps().remove(name@));
                }
                Ok(CapabilityOutcome::Evicted(Unregister { name }, p))
            },
            None => {
                let mut inner = match self.capabilities.remove(&name) {
                    Some(t) => t,
                    None => Table::new(),
                };
                let stored = value.clone();
                inner.insert(property, stored);
                self.capabilities.insert(name, inner);
                proof {
                    let inner0 = if old(self).caps().contains_key(name@) {
                        old(self).caps()[name@]
                    } else {
                        Map::<Seq<u8>, String>::empty()
                    };
                    assert(self.caps() =~= old(self).caps().insert(
                        name@,
                        inner0.insert(property@, value),
                    ));
                    assert forall|n: Seq<u8>| self.capabilities@.contains_key(n) implies (
                    #[trigger] self.capabilities@[n]).wf() by {
                        if n != name@ {
                            assert(self.capabilities@[n] == old(self).capabilities@[n]);
                        }
                    }
                }
                Ok(CapabilityOutcome::Applied(Capabilities { name, property, value }))
            },
        }
    }

    /// Every capability of `name`, as property/value pairs in storage order;
    /// empty when the name has none.
    pub fn get_capabilities(&self, name: Hash32) -> (r: Vec<(Hash32, String)>)
        requires
            self.wf(),
        ensures
            self.caps().contains_key(name@) ==> {
                let kv = self.capabilities@[name@].kv();
                r@.len() == kv.len() && forall|i: int|
                    0 <= i < kv.len() ==> (#[trigger] r@[i]).0@ == kv[i].0 && r@[i].1 == kv[i].1
            },
            !self.caps().contains_key(name@) ==> r@.len() == 0,
    {
        let mut out: Vec<(Hash32, String)> = Vec::new();
        match self.capabilities.get(&name) {
            Some(inner) => {
                let n = inner.len();
                let mut i: usize = 0;
                while i < n
                    invariant
                        inner.wf(),
                        n == inner.kv().len(),
                        0 <= i <= n,
                        out@.len() == i,
                        forall|j: int|
                            0 <= j < i ==> (#[trigger] out@[j]).0@ == inner.kv()[j].0 && out@[j].1
                                == inner.kv()[j].1,
                    decreases n - i,
                {
                    let k = *inner.key_at(i);
                    let v = inner.val_at(i).clone();
                    out.push((k, v));
                    i = i + 1;
                }
                out
            },
            None => out,
        }
    }

    /// The link recorded for `name`, if any.
    pub fn get_link(&self, name: Hash32) -> (r: Option<String>)
        requires
            self.wf(),
        ensures
            match r {
                Some(s) => self.link@.contains_key(name@) && s == self.link@[name@],
                None => !self.link@.contains_key(name@),
            },
    {
        match self.link.get(&name) {
            Some(s) => Some(s.clone()),
            None => None,
        }
    }
}

} // verus!
