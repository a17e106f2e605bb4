use janus_sfu::userid::{AtomicUserId, UserId};

#[test]
fn basic_functionality() {
    let mut a = AtomicUserId::empty();
    let b = AtomicUserId::first();
    assert_eq!(None, a.next());
    assert_eq!(a.load(), b.load());
}

#[test]
fn try_from_rejects_zero() {
    assert!(UserId::try_from(0).is_err());
    assert!(UserId::try_from(1).is_ok());
    assert!(UserId::try_from(17).is_ok());
}

#[test]
fn next_hands_out_successive_ids() {
    let mut c = AtomicUserId::first();
    let first = c.next().unwrap();
    let second = c.next().unwrap();
    assert_eq!(first, UserId::try_from(1).unwrap());
    assert_eq!(second, UserId::try_from(2).unwrap());
}

#[test]
fn store_overwrites() {
    let mut c = AtomicUserId::empty();
    c.store(UserId::try_from(7).unwrap());
    assert_eq!(c.load(), Some(UserId::try_from(7).unwrap()));
}
