use name_registry::clock::{Epoch, EpochProxy};
use name_registry::errors::Error;
use name_registry::meta::{CapabilityOutcome, IndexerMeta, LinkOutcome};
use name_registry::registry::Registry;

fn acct(b: u8) -> [u8; 32] {
    [b; 32]
}

fn registry_with(name: &str, owner: [u8; 32], duration: u32) -> Registry {
    let mut reg = Registry::new(EpochProxy::new(Epoch::new(0, 1)));
    let c = reg.make_commitment(name, owner, 1);
    reg.commit(c, 100, 0).unwrap();
    let rent = reg.rent_price(name, duration);
    reg.register(name, owner, duration, 1, rent + 10, 0).unwrap();
    reg
}

#[test]
fn setlink_works() {
    let eve = acct(5);
    let mut myns = registry_with("myname", eve, 100);
    let mut meta = IndexerMeta::new();
    assert!(!myns.available("myname", 0));
    let h = myns.get_hash("myname");
    let outcome = meta.set_link(&mut myns, h, "https://subsquid.io/".to_owned(), eve, 0).unwrap();
    match outcome {
        LinkOutcome::Applied(ev) => assert_eq!(ev.link, "https://subsquid.io/"),
        LinkOutcome::Evicted(_, _) => panic!("the record is live"),
    }
    assert!("https://subsquid.io/".to_owned() == meta.get_link(h).unwrap());
}

#[test]
fn setcapabilities_works() {
    let eve = acct(5);
    let mut myns = registry_with("myname", eve, 100);
    let mut meta = IndexerMeta::new();
    assert!(!myns.available("myname", 0));
    let h = myns.get_hash("myname");
    let c = myns.get_hash("BTC");
    let outcome = meta.set_capability(&mut myns, h, c, "ALL".to_owned(), eve, 0).unwrap();
    match outcome {
        CapabilityOutcome::Applied(ev) => assert_eq!(ev.value, "ALL"),
        CapabilityOutcome::Evicted(_, _) => panic!("the record is live"),
    }
    let caps = meta.get_capabilities(h);
    let value = caps.iter().find(|p| p.0 == c).map(|p| p.1.clone());
    assert!(value.is_some());
    assert!("ALL".to_owned() == value.unwrap());
}

#[test]
fn set_link_is_owner_only() {
    let eve = acct(5);
    let mut myns = registry_with("myname", eve, 100);
    let mut meta = IndexerMeta::new();
    let h = myns.get_hash("myname");
    let e = meta.set_link(&mut myns, h, "x".to_owned(), acct(6), 0);
    assert_eq!(e.unwrap_err(), Error::NotOwner);
    let e = meta.set_capability(&mut myns, h, [1; 32], "x".to_owned(), acct(6), 0);
    assert_eq!(e.unwrap_err(), Error::NotOwner);
}

#[test]
fn set_link_on_an_expired_record_evicts_it() {
    let eve = acct(5);
    let mut myns = registry_with("myname", eve, 10);
    let mut meta = IndexerMeta::new();
    let h = myns.get_hash("myname");
    meta.set_link(&mut myns, h, "https://subsquid.io/".to_owned(), eve, 0).unwrap();
    // Past expiry the update turns into a lazy eviction: record, link and
    // capabilities leave together, the deposit flows back.
    let outcome = meta.set_link(&mut myns, h, "ignored".to_owned(), eve, 20).unwrap();
    match outcome {
        LinkOutcome::Applied(_) => panic!("the record had expired"),
        LinkOutcome::Evicted(ev, p) => {
            assert_eq!(ev.name, h);
            assert_eq!(p.to, eve);
            assert_eq!(p.amount, 10);
        },
    }
    assert_eq!(meta.get_link(h), None);
    assert!(myns.available("myname", 20));
}

#[test]
fn capabilities_update_in_place() {
    let eve = acct(5);
    let mut myns = registry_with("myname", eve, 100);
    let mut meta = IndexerMeta::new();
    let h = myns.get_hash("myname");
    let c = myns.get_hash("BTC");
    meta.set_capability(&mut myns, h, c, "ALL".to_owned(), eve, 0).unwrap();
    meta.set_capability(&mut myns, h, c, "NONE".to_owned(), eve, 1).unwrap();
    let caps = meta.get_capabilities(h);
    assert_eq!(caps.len(), 1);
    assert_eq!(caps[0].1, "NONE");
}
