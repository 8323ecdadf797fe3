use name_registry::clock::{Epoch, EpochProxy};
use name_registry::errors::Error;
use name_registry::registry::Registry;

fn acct(b: u8) -> [u8; 32] {
    [b; 32]
}

fn fresh_registry() -> Registry {
    Registry::new(EpochProxy::new(Epoch::new(0, 1)))
}

fn register_name(reg: &mut Registry, name: &str, owner: [u8; 32], duration: u32, secret: u32, height: u32) {
    let c = reg.make_commitment(name, owner, secret);
    reg.commit(c, 100, height).unwrap();
    let rent = reg.rent_price(name, duration);
    reg.register(name, owner, duration, secret, rent + 10, height).unwrap();
}

#[test]
fn get_hash_is_the_blake2b_digest() {
    let reg = fresh_registry();
    let expected: [u8; 32] = [
        167, 9, 86, 146, 130, 106, 240, 181, 219, 233, 141, 136, 46, 80, 151, 54, 247, 242, 5, 0,
        109, 239, 85, 214, 207, 119, 59, 174, 75, 122, 155, 35,
    ];
    assert_eq!(reg.get_hash("myname"), expected);
    assert_ne!(reg.get_hash("myname"), reg.get_hash("othername"));
}

#[test]
fn make_commitment_hashes_name_owner_and_secret() {
    let reg = fresh_registry();
    let expected: [u8; 32] = [
        201, 201, 85, 125, 97, 175, 6, 205, 104, 102, 53, 228, 167, 170, 239, 120, 159, 206, 30,
        232, 2, 237, 209, 10, 244, 36, 180, 196, 223, 122, 139, 228,
    ];
    assert_eq!(reg.make_commitment("alice", acct(7), 1), expected);
    assert_ne!(reg.make_commitment("alice", acct(7), 2), expected);
    assert_ne!(reg.make_commitment("alice", acct(8), 1), expected);
}

#[test]
fn register_works() {
    let eve = acct(5);
    let mut myns = fresh_registry();
    assert!(myns.available("myname", 0));
    let commitment = myns.make_commitment("myname", eve, 1);
    myns.commit(commitment, 100, 0).unwrap();
    assert!(myns.available("myname", 0));
    myns.register("myname", eve, 100, 1, 600010, 0).unwrap();
    assert!(!myns.available("myname", 0));
}

#[test]
fn lib_register_works() {
    let eve = acct(5);
    let mut myns = fresh_registry();
    assert!(myns.available("myname", 0));
    let commitment = myns.make_commitment("myname", eve, 1);
    myns.commit(commitment, 100, 0).unwrap();
    assert!(myns.available("myname", 0));
    myns.register("myname", eve, 100, 1, 600010, 0).unwrap();
    assert!(!myns.available("myname", 0));
    assert!(myns.is_owner(myns.get_hash("myname"), eve));
    assert!(myns.is_owner_from(myns.get_hash("myname"), eve));
    assert!(!myns.is_owner_from(myns.get_hash("myname"), acct(6)));
}

#[test]
fn valid_rejects_names_over_256_bytes() {
    let reg = fresh_registry();
    assert!(reg.valid("myname"));
    let long = "x".repeat(257);
    assert!(!reg.valid(&long));
    assert!(!reg.available(&long, 0));
}

#[test]
fn rent_price_is_length_times_duration_times_rate() {
    let reg = fresh_registry();
    assert_eq!(reg.rent_price("myname", 100), 600_000);
    assert_eq!(reg.rent_price("alice", 100), 500_000);
    assert_eq!(reg.rent_price("", 100), 0);
    assert_eq!(reg.get_indexer_rate(), 10);
}

#[test]
fn commitment_lifecycle_from_alice_scenario() {
    // Name "alice", duration 100, secret 1: commit at height 0, reveal at
    // height 5, expiry makes the name available again with no further call.
    let owner = acct(9);
    let mut reg = fresh_registry();
    let c = reg.make_commitment("alice", owner, 1);
    reg.commit(c, 100, 0).unwrap();
    let rent = reg.rent_price("alice", 100);
    reg.register("alice", owner, 100, 1, rent + 10, 5).unwrap();
    assert!(!reg.available("alice", 5));
    assert!(!reg.available("alice", 105));
    assert!(reg.available("alice", 106));
    let h = reg.get_hash("alice");
    assert!(reg.not_expired(h, 105).is_some());
    assert_eq!(reg.not_expired(h, 106), None);
    assert_eq!(reg.expired(h, 105), None);
    assert_eq!(reg.expired(h, 106), Some((owner, 5, 100)));
}

#[test]
fn register_consumes_the_commitment() {
    let owner = acct(9);
    let mut reg = fresh_registry();
    let c = reg.make_commitment("alice", owner, 1);
    reg.commit(c, 100, 0).unwrap();
    let rent = reg.rent_price("alice", 100);
    reg.register("alice", owner, 100, 1, rent + 10, 0).unwrap();
    // The same commitment cannot be revealed a second time.
    let again = reg.register("alice", owner, 100, 1, rent + 10, 1);
    assert_eq!(again.unwrap_err(), Error::CommitmentNotFound);
}

#[test]
fn commit_requires_the_minimum_deposit() {
    let mut reg = fresh_registry();
    let c = reg.make_commitment("alice", acct(9), 1);
    assert_eq!(reg.commit(c, 9, 0).unwrap_err(), Error::InsufficientPayment);
    assert!(reg.commit(c, 10, 0).is_ok());
}

#[test]
fn commit_rejects_a_still_valid_commitment() {
    let mut reg = fresh_registry();
    let c = reg.make_commitment("alice", acct(9), 1);
    reg.commit(c, 100, 0).unwrap();
    assert_eq!(reg.commit(c, 100, 50).unwrap_err(), Error::CommitmentStillValid);
    // After the validity window the slot can be taken again.
    assert!(reg.commit(c, 100, 101).is_ok());
}

#[test]
fn commit_rejects_a_revealed_commitment_while_the_name_lives() {
    let owner = acct(9);
    let mut reg = fresh_registry();
    register_name(&mut reg, "alice", owner, 100, 1, 0);
    let c = reg.make_commitment("alice", owner, 1);
    assert_eq!(reg.commit(c, 100, 50).unwrap_err(), Error::NameNotAvailable);
    // Once the record expires, the same commitment may be re-committed.
    assert!(reg.commit(c, 100, 150).is_ok());
}

#[test]
fn register_rejects_underpayment_and_stale_commitments() {
    let owner = acct(9);
    let mut reg = fresh_registry();
    let c = reg.make_commitment("alice", owner, 1);
    reg.commit(c, 100, 0).unwrap();
    let rent = reg.rent_price("alice", 100);
    let e = reg.register("alice", owner, 100, 1, rent + 9, 0);
    assert_eq!(e.unwrap_err(), Error::InsufficientPayment);
    let e = reg.register("alice", owner, 100, 1, rent + 10, 150);
    assert_eq!(e.unwrap_err(), Error::CommitmentExpired);
}

#[test]
fn register_rejects_a_name_held_live() {
    let mut reg = fresh_registry();
    register_name(&mut reg, "bob", acct(1), 100, 1, 0);
    let c = reg.make_commitment("bob", acct(2), 7);
    reg.commit(c, 100, 0).unwrap();
    let rent = reg.rent_price("bob", 100);
    let e = reg.register("bob", acct(2), 100, 7, rent + 10, 1);
    assert_eq!(e.unwrap_err(), Error::NameNotAvailable);
}

#[test]
fn register_evicts_an_expired_record_and_refunds_its_deposit() {
    let first = acct(1);
    let second = acct(2);
    let mut reg = fresh_registry();
    register_name(&mut reg, "bob", first, 10, 1, 0);
    // At height 20 the record is expired; a new owner takes the name and
    // the old deposit flows back.
    let c = reg.make_commitment("bob", second, 7);
    reg.commit(c, 100, 20).unwrap();
    let rent = reg.rent_price("bob", 50);
    let (ev, refund) = reg.register("bob", second, 50, 7, rent + 10, 20).unwrap();
    assert_eq!(ev.from, second);
    let refund = refund.expect("the expired record's deposit is refunded");
    assert_eq!(refund.to, first);
    assert_eq!(refund.amount, 10);
    assert!(reg.is_owner_from(reg.get_hash("bob"), second));
}

#[test]
fn unregister_is_owner_only_and_refunds_the_deposit() {
    let owner = acct(1);
    let mut reg = fresh_registry();
    register_name(&mut reg, "bob", owner, 100, 1, 0);
    let h = reg.get_hash("bob");
    assert_eq!(reg.unregister(h, acct(2)).unwrap_err(), Error::NotOwner);
    let (ev, p) = reg.unregister(h, owner).unwrap();
    assert_eq!(ev.name, h);
    assert_eq!(p.to, owner);
    assert_eq!(p.amount, 10);
    assert!(reg.available("bob", 1));
}

#[test]
fn eviction_of_an_absent_record_is_a_no_op() {
    let owner = acct(1);
    let mut reg = fresh_registry();
    register_name(&mut reg, "bob", owner, 100, 1, 0);
    let h = reg.get_hash("bob");
    let first = reg.unregister_unchecked(h);
    assert!(first.is_some());
    // Evicting again finds nothing: no duplicate refund, no change.
    let second = reg.unregister_unchecked(h);
    assert_eq!(second, None);
    let third = reg.unregister_unchecked(h);
    assert_eq!(third, None);
}
