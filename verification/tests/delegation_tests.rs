use name_registry::clock::{Epoch, EpochProxy};
use name_registry::delegation::Delegation;
use name_registry::errors::Error;
use name_registry::registry::Registry;

fn acct(b: u8) -> [u8; 32] {
    [b; 32]
}

fn proxy() -> EpochProxy {
    EpochProxy::new(Epoch::new(0, 1))
}

fn registry_with(name: &str, owner: [u8; 32], duration: u32) -> Registry {
    let mut reg = Registry::new(proxy());
    let c = reg.make_commitment(name, owner, 1);
    reg.commit(c, 100, 0).unwrap();
    let rent = reg.rent_price(name, duration);
    reg.register(name, owner, duration, 1, rent + 10, 0).unwrap();
    reg
}

#[test]
fn delegate_works() {
    let eve = acct(5);
    let alice = acct(1);
    let myns = registry_with("myname", eve, 100);
    let mut delegation = Delegation::new(proxy());
    let h = myns.get_hash("myname");
    let ev = delegation.delegate(&myns, h, alice, 600010, 0).unwrap();
    assert_eq!(ev.from, alice);
    assert_eq!(ev.value, 600010);
    assert_eq!(delegation.get_delegate(&myns, alice, h, 0), Some((600010, 0)));
}

#[test]
fn delegate_requires_a_live_name() {
    let reg = Registry::new(proxy());
    let mut delegation = Delegation::new(proxy());
    let e = delegation.delegate(&reg, [9; 32], acct(1), 100, 0);
    assert_eq!(e.unwrap_err(), Error::NameNotFound);
}

#[test]
fn delegate_top_up_accumulates_and_keeps_the_clock() {
    let owner = acct(5);
    let from = acct(1);
    let reg = registry_with("myname", owner, 100);
    let mut delegation = Delegation::new(proxy());
    let h = reg.get_hash("myname");
    delegation.delegate(&reg, h, from, 100, 3).unwrap();
    delegation.delegate(&reg, h, from, 250, 7).unwrap();
    // The stake grew, the opening epoch stayed at 3.
    assert_eq!(delegation.get_delegate(&reg, from, h, 7), Some((350, 3)));
}

#[test]
fn undelegate_refunds_the_accumulated_stake() {
    let owner = acct(5);
    let from = acct(1);
    let reg = registry_with("myname", owner, 100);
    let mut delegation = Delegation::new(proxy());
    let h = reg.get_hash("myname");
    delegation.delegate(&reg, h, from, 100, 0).unwrap();
    delegation.delegate(&reg, h, from, 250, 1).unwrap();
    let (ev, payout) = delegation.undelegate(&reg, h, from, 10).unwrap();
    assert_eq!(ev.value, 350);
    assert_eq!(payout.to, from);
    assert_eq!(payout.amount, 350);
    // The whole position left with the withdrawal.
    assert_eq!(delegation.get_delegate(&reg, from, h, 10), None);
    assert_eq!(delegation.undelegate(&reg, h, from, 10).unwrap_err(), Error::DelegateNotFound);
}

#[test]
fn delegation_saturates_at_the_balance_ceiling() {
    let owner = acct(5);
    let from = acct(1);
    let reg = registry_with("myname", owner, 100);
    let mut delegation = Delegation::new(proxy());
    let h = reg.get_hash("myname");
    delegation.delegate(&reg, h, from, u128::MAX - 5, 0).unwrap();
    delegation.delegate(&reg, h, from, 100, 1).unwrap();
    // The top-up clamped instead of overflowing, and the refund pays the
    // clamped sum.
    assert_eq!(delegation.get_delegate(&reg, from, h, 1), Some((u128::MAX, 0)));
    let (_, payout) = delegation.undelegate(&reg, h, from, 10).unwrap();
    assert_eq!(payout.amount, u128::MAX);
}

#[test]
fn undelegate_enforces_the_holding_period() {
    let owner = acct(5);
    let from = acct(1);
    let reg = registry_with("myname", owner, 100);
    let mut delegation = Delegation::new(proxy());
    let h = reg.get_hash("myname");
    delegation.delegate(&reg, h, from, 100, 0).unwrap();
    let e = delegation.undelegate(&reg, h, from, 9);
    assert_eq!(e.unwrap_err(), Error::HoldingPeriodNotMet);
    assert!(delegation.undelegate(&reg, h, from, 10).is_ok());
}

#[test]
fn undelegate_requires_a_live_name_and_a_position() {
    let owner = acct(5);
    let reg = registry_with("myname", owner, 5);
    let mut delegation = Delegation::new(proxy());
    let h = reg.get_hash("myname");
    assert_eq!(delegation.undelegate(&reg, h, acct(1), 0).unwrap_err(), Error::DelegateNotFound);
    // Past expiry the name no longer resolves.
    assert_eq!(delegation.undelegate(&reg, h, acct(1), 20).unwrap_err(), Error::NameNotFound);
}
