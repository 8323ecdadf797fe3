use name_registry::clock::{elapsed, Epoch, EpochProxy};
use name_registry::errors::Error;
use name_registry::delegation::Delegation;
use name_registry::dispute::Dispute;
use name_registry::meta::IndexerMeta;
use name_registry::registry::Registry;
use name_registry::subscription::Subscription;

fn acct(b: u8) -> [u8; 32] {
    [b; 32]
}

#[test]
fn it_works() {
    let clock = Epoch::new(10, 5);
    assert_eq!(clock.get_current_epoch(10), 0);
    assert_eq!(clock.get_current_epoch(14), 0);
    assert_eq!(clock.get_current_epoch(15), 1);
    assert_eq!(clock.get_current_epoch(24), 2);
    assert_eq!(clock.get_current_block(24), 4);
    assert_eq!(clock.get_current_epoch_since(14, 24), 2);
    assert_eq!(clock.get_current_epoch_since(15, 24), 1);
}

#[test]
fn epoch_getters_and_setters_work() {
    let mut clock = Epoch::new(0, 2);
    assert_eq!(clock.get_offset(), 0);
    assert_eq!(clock.get_period_length(), 2);
    assert_eq!(clock.get_current_epoch(7), 3);
    clock.set_offset(1);
    clock.set_period(3);
    assert_eq!(clock.get_offset(), 1);
    assert_eq!(clock.get_period_length(), 3);
    assert_eq!(clock.get_current_epoch(10), 3);
}

#[test]
fn epoch_proxy_hands_back_the_clock() {
    let clock = Epoch::new(3, 7);
    let proxy = EpochProxy::new(clock);
    let back = proxy.get();
    assert_eq!(back.get_offset(), 3);
    assert_eq!(back.get_period_length(), 7);
}

#[test]
fn elapsed_saturates_at_zero() {
    assert_eq!(elapsed(10, 4), 6);
    assert_eq!(elapsed(4, 4), 0);
    assert_eq!(elapsed(3, 4), 0);
}

#[test]
fn default_works() {
    let proxy = EpochProxy::new(Epoch::new(0, 1));
    let registry = Registry::new(proxy);
    let delegation = Delegation::new(proxy);
    let subscription = Subscription::new(proxy);
    let dispute = Dispute::new(acct(1), proxy);
    let meta = IndexerMeta::new();
    assert!(registry.available("anything", 0));
    assert_eq!(delegation.get_delegate(&registry, acct(2), [9; 32], 0), None);
    assert_eq!(subscription.get_subscription([9; 32], acct(2)), None);
    assert_eq!(dispute.get_cid([9; 32], acct(2)), None);
    assert_eq!(dispute.get_reputation([9; 32]), None);
    assert!(dispute.is_judge(acct(1)));
    assert!(!dispute.is_judge(acct(2)));
    assert_eq!(meta.get_link([9; 32]), None);
    assert!(meta.get_capabilities([9; 32]).is_empty());
}

#[test]
fn errors_carry_their_diagnostic_reason() {
    assert_eq!(Error::NotOwner.reason(), "not the owner");
    assert_eq!(Error::NameNotFound.reason(), "name not found");
    assert_eq!(Error::CommitmentNotFound.reason(), "no commit");
    assert_eq!(Error::DisputeStillOpen.reason(), "dispute already in place");
}
