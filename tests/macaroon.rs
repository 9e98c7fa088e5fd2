use ammaccare::caveat;
use ammaccare::caveat::ThirdParty;
use ammaccare::crypto::Signature;
use ammaccare::Caveat;
use ammaccare::Macaroon;

const ROOT_KEY: &[u8; 32] = b"Kee.sh service macaroon root key";

#[test]
fn plain_macaroon() {
    let key = b"Kee.sh service macaroon root key";

    let macaroon = Macaroon::new(key, b"test id".to_vec());

    assert!(macaroon.verify(key));
}

#[test]
fn with_caveat() {
    let key = b"Kee.sh service macaroon root key";

    let mut macaroon = Macaroon::new(key, b"test id".to_vec());

    let caveat = Caveat::new(b"TEST//this is a test".to_vec());
    macaroon.add_first_party_caveat(caveat);

    assert!(macaroon.verify(key));
}

#[test]
fn with_wrong_caveat() {
    let key = b"Kee.sh service macaroon root key";

    let mut macaroon = Macaroon::new(key, b"test id".to_vec());

    let caveat = Caveat::new(b"broken test".to_vec());
    macaroon.add_first_party_caveat(caveat);

    assert!(!macaroon.verify(key));
}

#[test]
fn with_third_party_caveat() {
    let key = b"Kee.sh service macaroon root key";

    let mut third_party = caveat::LookupCid::new();

    let mut macaroon = Macaroon::new(key, b"test id".to_vec());

    let ck = b"Some new freshly generated key..".to_vec();
    let cid = third_party.get_cid(ck.clone(), b"Validation test for the third party".to_vec());

    let caveat = Caveat::new(cid.clone());
    macaroon.add_third_party_caveat(caveat, &ck);

    // will not verify without discharge
    assert!(!macaroon.verify(key));

    // "send" the cid to the other party
    let (ck, _preds) = third_party.from_cid(&cid).unwrap();
    // receive discharge
    let discharge = Macaroon::new(&ck, cid);

    // bind to macaroon
    macaroon.prepare(discharge);

    assert!(macaroon.verify(key));
    println!("{:#?}", macaroon);
}

/// A copy of `m` that shares no storage with it, with `discharges` attached
/// in place of its own.
fn rebuild(m: &Macaroon, discharges: Vec<Macaroon>) -> Macaroon {
    Macaroon::from_parts(
        m.identifier().to_vec(),
        *m.signature(),
        m.caveats().to_vec(),
        discharges,
    )
}

/// A target minted with `id`, holding a third-party caveat for `cid` keyed
/// with `ck`.
fn target_with_caveat(id: &[u8], cid: &[u8], ck: &[u8]) -> Macaroon {
    let mut m = Macaroon::new(ROOT_KEY, id.to_vec());
    m.add_third_party_caveat(Caveat::new(cid.to_vec()), ck);
    m
}

#[test]
fn minted_signature_matches_reference_vector() {
    let m = Macaroon::new(ROOT_KEY, b"test id".to_vec());
    let expected: [u8; 32] = [
        38, 246, 145, 6, 23, 103, 4, 228, 106, 87, 93, 100, 204, 160, 122, 91, 164, 133, 163,
        171, 251, 94, 0, 131, 214, 62, 200, 113, 242, 236, 70, 245,
    ];
    assert_eq!(m.signature().as_slice(), &expected[..]);
    assert_eq!(m.identifier(), b"test id");
    assert!(m.caveats().is_empty());
    assert!(m.discharges().is_empty());
}

#[test]
fn first_party_caveat_advances_signature_over_empty_vid_and_cid() {
    let mut m = Macaroon::new(ROOT_KEY, b"test id".to_vec());
    m.add_first_party_caveat(Caveat::new(b"TEST//this is a test".to_vec()));
    let expected: [u8; 32] = [
        39, 226, 10, 225, 16, 217, 45, 189, 98, 196, 67, 26, 172, 6, 178, 34, 134, 181, 90,
        151, 186, 191, 112, 60, 253, 112, 246, 21, 21, 187, 107, 18,
    ];
    assert_eq!(m.signature().as_slice(), &expected[..]);
    assert_eq!(m.caveats().len(), 1);
}

#[test]
fn verify_rejects_other_root_key() {
    let m = Macaroon::new(ROOT_KEY, b"test id".to_vec());
    assert!(!m.verify(b"Kee.sh service macaroon root kez"));
    assert!(!m.verify(b""));
}

#[test]
fn minted_with_empty_key_and_identifier_verifies() {
    let m = Macaroon::new(b"", Vec::new());
    assert!(m.verify(b""));
}

#[test]
fn accepted_caveat_keeps_verification() {
    let mut m = Macaroon::new(ROOT_KEY, b"test id".to_vec());
    assert!(m.verify(ROOT_KEY));
    m.add_first_party_caveat(Caveat::new(b"TEST//first".to_vec()));
    assert!(m.verify(ROOT_KEY));
    m.add_first_party_caveat(Caveat::new(b"TEST//second".to_vec()));
    assert!(m.verify(ROOT_KEY));
}

#[test]
fn rejected_caveat_after_accepted_one_blocks() {
    let mut m = Macaroon::new(ROOT_KEY, b"test id".to_vec());
    m.add_first_party_caveat(Caveat::new(b"TEST//first".to_vec()));
    m.add_first_party_caveat(Caveat::new(b"time < tomorrow".to_vec()));
    m.add_first_party_caveat(Caveat::new(b"TEST//third".to_vec()));
    assert!(!m.verify(ROOT_KEY));
}

#[test]
fn caveat_order_changes_signature() {
    let mut a = Macaroon::new(ROOT_KEY, b"test id".to_vec());
    a.add_first_party_caveat(Caveat::new(b"TEST//one".to_vec()));
    a.add_first_party_caveat(Caveat::new(b"TEST//two".to_vec()));
    let mut b = Macaroon::new(ROOT_KEY, b"test id".to_vec());
    b.add_first_party_caveat(Caveat::new(b"TEST//two".to_vec()));
    b.add_first_party_caveat(Caveat::new(b"TEST//one".to_vec()));
    assert!(a.signature() != b.signature());
    assert!(a.verify(ROOT_KEY));
    assert!(b.verify(ROOT_KEY));
}

#[test]
fn reordered_caveats_do_not_verify() {
    let mut a = Macaroon::new(ROOT_KEY, b"test id".to_vec());
    a.add_first_party_caveat(Caveat::new(b"TEST//one".to_vec()));
    a.add_first_party_caveat(Caveat::new(b"TEST//two".to_vec()));
    let mut swapped = a.caveats().to_vec();
    swapped.swap(0, 1);
    let forged = Macaroon::from_parts(b"test id".to_vec(), *a.signature(), swapped, Vec::new());
    assert!(!forged.verify(ROOT_KEY));
}

#[test]
fn third_party_caveat_records_encrypted_key() {
    let mut m = Macaroon::new(ROOT_KEY, b"test id".to_vec());
    let before = *m.signature();
    let ck = b"Some new freshly generated key..".to_vec();
    let mut caveat = Caveat::new(b"opaque cid".to_vec());
    caveat.cl = Some(b"https://auth.example".to_vec());
    m.add_third_party_caveat(caveat, &ck);
    let stored = &m.caveats()[0];
    assert!(stored.is_third_party());
    assert_eq!(stored.cid(), b"opaque cid");
    assert_eq!(stored.cl(), Some(&b"https://auth.example"[..]));
    let vid = stored.vid();
    assert_eq!(vid.len(), 24 + 16 + ck.len());
    assert_eq!(ammaccare::crypto::sdec(&before, &vid), Ok(ck));
}

#[test]
fn unbound_discharge_rejected() {
    let mut third_party = caveat::LookupCid::new();
    let ck = b"Some new freshly generated key..".to_vec();
    let cid = third_party.get_cid(ck.clone(), b"Validation test for the third party".to_vec());
    let m = target_with_caveat(b"test id", &cid, &ck);
    let (ck, _preds) = third_party.from_cid(&cid).unwrap();
    let discharge = Macaroon::new(&ck, cid);
    let attached = rebuild(&m, vec![discharge]);
    assert!(!attached.verify(ROOT_KEY));
}

#[test]
fn cross_target_replay_fails() {
    let ck = b"Some new freshly generated key..".to_vec();
    let cid = b"shared caveat identifier".to_vec();
    let mut m1 = target_with_caveat(b"first target", &cid, &ck);
    let m2 = target_with_caveat(b"second target", &cid, &ck);

    m1.prepare(Macaroon::new(&ck, cid.clone()));
    assert!(m1.verify(ROOT_KEY));

    let bound = &m1.discharges()[0];
    let replayed = rebuild(bound, Vec::new());
    let m2 = rebuild(&m2, vec![replayed]);
    assert!(!m2.verify(ROOT_KEY));
}

#[test]
fn discharge_with_wrong_key_rejected() {
    let ck = b"Some new freshly generated key..".to_vec();
    let cid = b"caveat".to_vec();
    let mut m = target_with_caveat(b"test id", &cid, &ck);
    m.prepare(Macaroon::new(b"another key, not the caveat key", cid));
    assert!(!m.verify(ROOT_KEY));
}

#[test]
fn discharge_for_other_identifier_rejected() {
    let ck = b"Some new freshly generated key..".to_vec();
    let mut m = target_with_caveat(b"test id", b"caveat", &ck);
    m.prepare(Macaroon::new(&ck, b"other caveat".to_vec()));
    assert!(!m.verify(ROOT_KEY));
}

#[test]
fn later_valid_discharge_is_found() {
    let ck = b"Some new freshly generated key..".to_vec();
    let cid = b"caveat".to_vec();
    let mut m = target_with_caveat(b"test id", &cid, &ck);
    m.prepare(Macaroon::new(b"wrong key", cid.clone()));
    m.prepare(Macaroon::new(&ck, cid));
    assert!(m.verify(ROOT_KEY));
}

#[test]
fn discharge_with_its_own_caveats() {
    let ck = b"Some new freshly generated key..".to_vec();
    let cid = b"caveat".to_vec();
    let mut m = target_with_caveat(b"test id", &cid, &ck);
    let mut accepted = Macaroon::new(&ck, cid.clone());
    accepted.add_first_party_caveat(Caveat::new(b"TEST//discharge predicate".to_vec()));
    m.prepare(accepted);
    assert!(m.verify(ROOT_KEY));

    let mut m = target_with_caveat(b"test id", &cid, &ck);
    let mut rejected = Macaroon::new(&ck, cid);
    rejected.add_first_party_caveat(Caveat::new(b"unknown predicate".to_vec()));
    m.prepare(rejected);
    assert!(!m.verify(ROOT_KEY));
}

#[test]
fn attenuating_after_prepare_breaks_binding() {
    let ck = b"Some new freshly generated key..".to_vec();
    let cid = b"caveat".to_vec();
    let mut m = target_with_caveat(b"test id", &cid, &ck);
    m.prepare(Macaroon::new(&ck, cid));
    assert!(m.verify(ROOT_KEY));
    m.add_first_party_caveat(Caveat::new(b"TEST//late".to_vec()));
    assert!(!m.verify(ROOT_KEY));
}

#[test]
fn truncated_vid_fails_verification() {
    let ck = b"Some new freshly generated key..".to_vec();
    let m = target_with_caveat(b"test id", b"caveat", &ck);
    let mut caveats = m.caveats().to_vec();
    caveats[0].vid = Some(vec![1, 2, 3]);
    let forged = Macaroon::from_parts(b"test id".to_vec(), *m.signature(), caveats, Vec::new());
    assert!(!forged.verify(ROOT_KEY));
}

#[test]
fn signature_bytes_round_trip() {
    let m = Macaroon::new(ROOT_KEY, b"test id".to_vec());
    let bytes = m.signature().to_bytes();
    let back = Signature::from_bytes(bytes);
    assert!(back == *m.signature());
    assert!(back.equals(m.signature()));
}
