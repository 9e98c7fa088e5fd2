use ammaccare::caveat::{
    starts_with_test_prefix, EncryptedChallenge, LookupCid, TestValidator, ThirdParty, Validator,
};
use ammaccare::Caveat;

#[test]
fn new_caveat_is_first_party() {
    let c = Caveat::new(b"account = 42".to_vec());
    assert!(!c.is_third_party());
    assert_eq!(c.cid(), b"account = 42");
    assert!(c.vid().is_empty());
    assert_eq!(c.cl(), None);
}

#[test]
fn set_vid_makes_third_party() {
    let mut c = Caveat::new(b"cid".to_vec());
    c.set_vid(vec![7, 8, 9]);
    assert!(c.is_third_party());
    assert_eq!(c.vid(), vec![7, 8, 9]);
    assert_eq!(c.cid(), b"cid");
}

#[test]
fn test_prefix_has_validator() {
    let c = Caveat::new(b"TEST//anything".to_vec());
    assert!(c.get_validator().is_some());
    assert!(c.validate());
    assert!(Caveat::new(b"TEST//".to_vec()).validate());
}

#[test]
fn unknown_predicates_are_rejected() {
    assert!(!Caveat::new(b"broken test".to_vec()).validate());
    assert!(!Caveat::new(b"TEST/".to_vec()).validate());
    assert!(!Caveat::new(b"test//lower case".to_vec()).validate());
    assert!(!Caveat::new(Vec::new()).validate());
    assert!(Caveat::new(b"TEST/".to_vec()).get_validator().is_none());
}

#[test]
fn non_utf8_predicate_is_rejected() {
    let mut cid = b"TEST//".to_vec();
    cid.push(0xff);
    assert!(starts_with_test_prefix(&cid));
    assert!(!Caveat::new(cid).validate());
}

#[test]
fn test_validator_accepts_everything() {
    assert!(TestValidator.validate(&Caveat::new(b"whatever".to_vec())));
}

#[test]
fn lookup_round_trip() {
    let mut tp = LookupCid::new();
    let cid = tp.get_cid(b"key".to_vec(), b"identifier".to_vec());
    assert_eq!(cid.len(), 32);
    let cid2 = tp.get_cid(b"key two".to_vec(), b"identifier two".to_vec());
    assert_eq!(tp.from_cid(&cid), Some((b"key".to_vec(), b"identifier".to_vec())));
    assert_eq!(tp.from_cid(&cid2), Some((b"key two".to_vec(), b"identifier two".to_vec())));
    assert_eq!(tp.from_cid(b"unknown"), None);
    assert_eq!(LookupCid::default().from_cid(&cid), None);
}

#[test]
fn encrypted_challenge_round_trip() {
    let mut tp = EncryptedChallenge::new(b"shared secret");
    let key = b"Some new freshly generated key..".to_vec();
    let cid = tp.get_cid(key.clone(), b"Validation test for the third party".to_vec());
    assert_eq!(
        tp.from_cid(&cid),
        Some((key.clone(), b"Validation test for the third party".to_vec()))
    );
    let same = EncryptedChallenge::new(b"shared secret");
    assert_eq!(same.from_cid(&cid), Some((key, b"Validation test for the third party".to_vec())));
}

#[test]
fn encrypted_challenge_rejects_foreign_and_short_cids() {
    let mut tp = EncryptedChallenge::new(b"shared secret");
    let cid = tp.get_cid(vec![1u8; 32], b"id".to_vec());
    let other = EncryptedChallenge::new(b"another secret");
    assert_eq!(other.from_cid(&cid), None);
    assert_eq!(tp.from_cid(b"short"), None);
    let short = tp.get_cid(vec![1u8; 5], Vec::new());
    assert_eq!(tp.from_cid(&short), None);
}

#[test]
fn fresh_challenge_resolves_to_its_key() {
    let tp = EncryptedChallenge::new(b"shared secret");
    let (caveat, key) = tp.fresh();
    assert_eq!(key.len(), 32);
    assert!(!caveat.is_third_party());
    let (k, id) = tp.from_cid(caveat.cid()).unwrap();
    assert_eq!(k, key);
    assert_eq!(id.len(), 32);
}
