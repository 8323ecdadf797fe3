use name_registry::clock::{Epoch, EpochProxy};
use name_registry::dispute::Dispute;
use name_registry::errors::Error;
use name_registry::subscription::Subscription;

fn acct(b: u8) -> [u8; 32] {
    [b; 32]
}

fn proxy() -> EpochProxy {
    EpochProxy::new(Epoch::new(0, 1))
}

fn subscribed(name: [u8; 32], sub: [u8; 32]) -> Subscription {
    let mut subs = Subscription::new(proxy());
    subs.subscribe(name, sub, 300, 0).unwrap();
    subs
}

#[test]
fn raise_dispute_requires_a_subscription() {
    let subs = Subscription::new(proxy());
    let mut dispute = Dispute::new(acct(1), proxy());
    let e = dispute.raise_dispute(&subs, [9; 32], [3; 32], acct(2), 0);
    assert_eq!(e.unwrap_err(), Error::NotSubscribed);
}

#[test]
fn raising_makes_the_cid_votable_until_the_window_closes() {
    let name = [9; 32];
    let sub = acct(2);
    let subs = subscribed(name, sub);
    let mut dispute = Dispute::new(acct(1), proxy());
    let cid = [3; 32];
    assert!(!dispute.cid_exists(cid, 0));
    let ev = dispute.raise_dispute(&subs, name, cid, sub, 0).unwrap();
    assert_eq!(ev.cid, cid);
    // Votable at once, and until the expiration window closes.
    assert!(dispute.cid_exists(cid, 0));
    assert!(dispute.cid_exists(cid, 9));
    assert!(!dispute.cid_exists(cid, 10));
    assert_eq!(dispute.get_cid(name, sub), Some((cid, 0)));
}

#[test]
fn one_live_dispute_per_pair() {
    let name = [9; 32];
    let sub = acct(2);
    let subs = subscribed(name, sub);
    let mut dispute = Dispute::new(acct(1), proxy());
    dispute.raise_dispute(&subs, name, [3; 32], sub, 0).unwrap();
    let e = dispute.raise_dispute(&subs, name, [4; 32], sub, 10);
    assert_eq!(e.unwrap_err(), Error::DisputeStillOpen);
    // Past the window the entry may be overwritten in place.
    let ev = dispute.raise_dispute(&subs, name, [4; 32], sub, 11).unwrap();
    assert_eq!(ev.cid, [4; 32]);
    assert_eq!(dispute.get_cid(name, sub), Some(([4; 32], 11)));
}

#[test]
fn withdraw_dispute_purges_the_verdicts() {
    let name = [9; 32];
    let sub = acct(2);
    let judge = acct(1);
    let subs = subscribed(name, sub);
    let mut dispute = Dispute::new(judge, proxy());
    let cid = [3; 32];
    dispute.raise_dispute(&subs, name, cid, sub, 0).unwrap();
    dispute.submit_vote(cid, true, judge, 0).unwrap();
    let ev = dispute.withdraw_dispute(&subs, name, sub).unwrap();
    assert_eq!(ev.cid, cid);
    assert_eq!(dispute.get_cid(name, sub), None);
    assert!(!dispute.cid_exists(cid, 0));
    // With the dispute and its verdicts gone, the same cid can be contested
    // afresh and the old vote is no longer on file.
    let e = dispute.withdraw_dispute(&subs, name, sub);
    assert_eq!(e.unwrap_err(), Error::DisputeNotFound);
}

#[test]
fn withdraw_dispute_requires_subscription_and_entry() {
    let name = [9; 32];
    let sub = acct(2);
    let subs = subscribed(name, sub);
    let mut dispute = Dispute::new(acct(1), proxy());
    let e = dispute.withdraw_dispute(&subs, name, acct(3));
    assert_eq!(e.unwrap_err(), Error::NotSubscribed);
    let e = dispute.withdraw_dispute(&subs, name, sub);
    assert_eq!(e.unwrap_err(), Error::NameNotFound);
}

#[test]
fn votes_on_an_uncontested_cid_are_refused() {
    // A judge who votes on a content id with no open dispute referencing it
    // is turned away with a not-found error.
    let judge = acct(1);
    let mut dispute = Dispute::new(judge, proxy());
    let e = dispute.submit_vote([3; 32], true, judge, 0);
    assert_eq!(e.unwrap_err(), Error::CidNotFound);
}

#[test]
fn votes_are_judge_only() {
    let name = [9; 32];
    let sub = acct(2);
    let subs = subscribed(name, sub);
    let mut dispute = Dispute::new(acct(1), proxy());
    let cid = [3; 32];
    dispute.raise_dispute(&subs, name, cid, sub, 0).unwrap();
    let e = dispute.submit_vote(cid, true, acct(7), 0);
    assert_eq!(e.unwrap_err(), Error::NotJudge);
}

#[test]
fn votes_expire_with_the_dispute() {
    let name = [9; 32];
    let sub = acct(2);
    let judge = acct(1);
    let subs = subscribed(name, sub);
    let mut dispute = Dispute::new(judge, proxy());
    let cid = [3; 32];
    dispute.raise_dispute(&subs, name, cid, sub, 0).unwrap();
    assert!(dispute.submit_vote(cid, true, judge, 9).is_ok());
    let e = dispute.submit_vote(cid, true, judge, 10);
    assert_eq!(e.unwrap_err(), Error::CidNotFound);
}

#[test]
fn judges_co_opt_new_judges() {
    let first = acct(1);
    let second = acct(7);
    let name = [9; 32];
    let sub = acct(2);
    let subs = subscribed(name, sub);
    let mut dispute = Dispute::new(first, proxy());
    assert_eq!(dispute.insert_judge(second, second).unwrap_err(), Error::NotJudge);
    dispute.insert_judge(second, first).unwrap();
    assert!(dispute.is_judge(second));
    let cid = [3; 32];
    dispute.raise_dispute(&subs, name, cid, sub, 0).unwrap();
    assert!(dispute.submit_vote(cid, false, second, 0).is_ok());
}
