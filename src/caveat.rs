//! Caveats, the validators of first-party predicates, and the third-party
//! services that mint and resolve caveat identifiers.
use crate::crypto::{self, Signature, decrypted, hmac_of};
use vstd::prelude::*;
use vstd::utf8::valid_utf8;

verus! {

/// Bytes in a third-party caveat key.
pub const CAVEAT_KEY_LEN: usize = 32;

/// Bytes in the predicate prefix that the test validator accepts.
pub const TEST_PREFIX_LEN: usize = 6;

/// The predicate prefix `TEST//`.
pub open spec fn test_prefix() -> Seq<u8> {
    seq![84u8, 69, 83, 84, 47, 47]
}

/// Whether `cid` starts with `TEST//`.
pub open spec fn has_test_prefix(cid: Seq<u8>) -> bool {
    cid.len() >= TEST_PREFIX_LEN && cid.subrange(0, TEST_PREFIX_LEN as int) == test_prefix()
}

/// Whether a validator is known for the first-party predicate `cid`: it is
/// UTF-8 text that starts with `TEST//`.
pub open spec fn has_validator(cid: Seq<u8>) -> bool {
    valid_utf8(cid) && has_test_prefix(cid)
}

/// Relies on `std::str::from_utf8`, which succeeds exactly on valid UTF-8.
#[verifier::external_body]
fn is_utf8(bytes: &[u8]) -> (r: bool)
    ensures
        r == valid_utf8(bytes@),
{
    std::str::from_utf8(bytes).is_ok()
}

/// A copy of `bytes`.
pub fn copy_bytes(bytes: &[u8]) -> (r: Vec<u8>)
    ensures
        r@ == bytes@,
{
    let mut r: Vec<u8> = Vec::new();
    let mut i: usize = 0;
    while i < bytes.len()
        invariant
            i <= bytes@.len(),
            r@ =~= bytes@.subrange(0, i as int),
        decreases bytes@.len() - i,
    {
        r.push(bytes[i]);
        i = i + 1;
    }
    assert(r@ =~= bytes@);
    r
}

/// Whether `cid` starts with `TEST//`.
pub fn starts_with_test_prefix(cid: &[u8]) -> (r: bool)
    ensures
        r == has_test_prefix(cid@),
{
    if cid.len() < TEST_PREFIX_LEN {
        return false;
    }
    let r = cid[0] == 84u8 && cid[1] == 69u8 && cid[2] == 83u8 && cid[3] == 84u8 && cid[4] == 47u8
        && cid[5] == 47u8;
    assert(r == (cid@.subrange(0, TEST_PREFIX_LEN as int) =~= test_prefix()));
    r
}

/// A caveat: its identifier, and for a third-party caveat the verifier
/// identifier (the caveat key encrypted under the rolling signature) and an
/// optional location hint.
#[derive(Clone, Debug)]
pub struct Caveat {
    pub cid: Vec<u8>,
    pub vid: Option<Vec<u8>>,
    pub cl: Option<Vec<u8>>,
}

impl Caveat {
    /// The verifier identifier's bytes; empty for a first-party caveat.
    pub open spec fn vid_bytes(&self) -> Seq<u8> {
        match self.vid {
            Some(v) => v@,
            None => Seq::empty(),
        }
    }

    /// What this caveat feeds into the signature chain: `vid ‖ cid`.
    pub open spec fn mac_input(&self) -> Seq<u8> {
        self.vid_bytes() + self.cid@
    }

    /// A first-party caveat with the given predicate.
    pub fn new(predicate: Vec<u8>) -> (r: Self)
        ensures
            r.cid@ == predicate@,
            r.vid is None,
            r.cl is None,
    {
        Caveat { cid: predicate, vid: None, cl: None }
    }

    /// Whether the caveat carries a verifier identifier.
    pub fn is_third_party(&self) -> (r: bool)
        ensures
            r == (self.vid is Some),
    {
        self.vid.is_some()
    }

    /// Whether the first-party predicate holds; `false` where no validator
    /// is known for it.
    pub fn validate(&self) -> (r: bool)
        ensures
            r == has_validator(self.cid@),
    {
        match self.get_validator() {
            Some(val) => val.validate(self),
            None => false,
        }
    }

    /// The validator of this caveat's predicate, if one is known.
    pub fn get_validator(&self) -> (r: Option<TestValidator>)
        ensures
            r is Some == has_validator(self.cid@),
    {
        if !is_utf8(self.cid.as_slice()) {
            return None;
        }
        if starts_with_test_prefix(self.cid.as_slice()) {
            Some(TestValidator)
        } else {
            None
        }
    }

    /// The caveat identifier.
    pub fn cid(&self) -> (r: &[u8])
        ensures
            r@ == self.cid@,
    {
        self.cid.as_slice()
    }

    /// The verifier identifier; empty for a first-party caveat.
    pub fn vid(&self) -> (r: Vec<u8>)
        ensures
            r@ == self.vid_bytes(),
    {
        match &self.vid {
            Some(v) => copy_bytes(v.as_slice()),
            None => Vec::new(),
        }
    }

    /// The location hint, if any.
    pub fn cl(&self) -> (r: Option<&[u8]>)
        ensures
            match self.cl {
                Some(c) => r is Some && r->0@ == c@,
                None => r is None,
            },
    {
        match &self.cl {
            Some(c) => Some(c.as_slice()),
            None => None,
        }
    }

    /// Sets the verifier identifier, which makes this a third-party caveat.
    pub fn set_vid(&mut self, vid: Vec<u8>)
        ensures
            final(self).cid == old(self).cid,
            final(self).cl == old(self).cl,
            final(self).vid == Some(vid),
    {
        self.vid = Some(vid)
    }
}

/// A check of first-party predicates.
pub trait Validator {
    /// Whether this validator accepts `caveat`.
    spec fn accepts(&self, caveat: &Caveat) -> bool;

    /// Checks `caveat`.
    fn validate(&self, caveat: &Caveat) -> (r: bool)
        ensures
            r == self.accepts(caveat),
    ;
}

/// The validator of `TEST//` predicates: it accepts every caveat.
pub struct TestValidator;

impl Validator for TestValidator {
    open spec fn accepts(&self, caveat: &Caveat) -> bool {
        true
    }

    fn validate(&self, caveat: &Caveat) -> (r: bool) {
        true
    }
}

/// A service that mints opaque caveat identifiers for third-party caveats
/// and later resolves them to the caveat key and identifier they stand for.
pub trait ThirdParty {
    /// The caveat key and identifier that `cid` stands for, if any.
    spec fn resolves(&self, cid: Seq<u8>) -> Option<(Seq<u8>, Seq<u8>)>;

    /// Mints a caveat identifier for `key` and `identifier`. Identifiers
    /// minted before keep what they resolve to.
    fn get_cid(&mut self, key: Vec<u8>, identifier: Vec<u8>) -> (r: Vec<u8>)
        ensures
            key@.len() == CAVEAT_KEY_LEN ==> final(self).resolves(r@) == Some((key@, identifier@)),
            forall|c: Seq<u8>| c != r@ ==> final(self).resolves(c) == old(self).resolves(c),
    ;

    /// Resolves `cid` to its caveat key and identifier.
    fn from_cid(&self, cid: &[u8]) -> (r: Option<(Vec<u8>, Vec<u8>)>)
        ensures
            match r {
                Some((k, i)) => self.resolves(cid@) == Some((k@, i@)),
                None => self.resolves(cid@) is None,
            },
    ;
}

/// The entry that a table holds for `cid`: the latest one recorded.
pub open spec fn table_lookup(entries: Seq<(Vec<u8>, Vec<u8>, Vec<u8>)>, cid: Seq<u8>) -> Option<
    (Seq<u8>, Seq<u8>),
>
    decreases entries.len(),
{
    if entries.len() == 0 {
        None
    } else {
        let e = entries.last();
        if e.0@ == cid {
            Some((e.1@, e.2@))
        } else {
            table_lookup(entries.drop_last(), cid)
        }
    }
}

/// A third-party service that keeps the caveat keys and identifiers in a
/// table of its own, under random caveat identifiers.
pub struct LookupCid {
    table: Vec<(Vec<u8>, Vec<u8>, Vec<u8>)>,
}

impl LookupCid {
    /// What the table resolves each caveat identifier to.
    pub closed spec fn entries(&self) -> Seq<(Vec<u8>, Vec<u8>, Vec<u8>)> {
        self.table@
    }

    /// A service with an empty table.
    pub fn new() -> (r: Self)
        ensures
            forall|c: Seq<u8>| #[trigger] r.resolves(c) is None,
    {
        LookupCid { table: Vec::new() }
    }
}

impl Default for LookupCid {
    fn default() -> (r: Self)
        ensures
            forall|c: Seq<u8>| #[trigger] r.resolves(c) is None,
    {
        LookupCid::new()
    }
}

impl ThirdParty for LookupCid {
    open spec fn resolves(&self, cid: Seq<u8>) -> Option<(Seq<u8>, Seq<u8>)> {
        table_lookup(self.entries(), cid)
    }

    fn get_cid(&mut self, key: Vec<u8>, identifier: Vec<u8>) -> (r: Vec<u8>)
        ensures
            final(self).resolves(r@) == Some((key@, identifier@)),
    {
        let cid = crypto::random_bytes(CAVEAT_KEY_LEN);
        let stored = copy_bytes(cid.as_slice());
        self.table.push((stored, key, identifier));
        assert(self.table@.drop_last() =~= old(self).table@);
        cid
    }

    fn from_cid(&self, cid: &[u8]) -> (r: Option<(Vec<u8>, Vec<u8>)>) {
        let mut i: usize = self.table.len();
        assert(self.table@.subrange(0, i as int) =~= self.table@);
        while i > 0
            invariant
                i <= self.table@.len(),
                table_lookup(self.table@, cid@) == table_lookup(self.table@.subrange(0, i as int), cid@),
            decreases i,
        {
            let e = &self.table[i - 1];
            assert(self.table@.subrange(0, i - 1) =~= self.table@.subrange(0, i as int).drop_last());
            if slices_equal(e.0.as_slice(), cid) {
                return Some((copy_bytes(e.1.as_slice()), copy_bytes(e.2.as_slice())));
            }
            i = i - 1;
        }
        None
    }
}

/// Whether `a` and `b` hold the same bytes.
pub fn slices_equal(a: &[u8], b: &[u8]) -> (r: bool)
    ensures
        r == (a@ == b@),
{
    if a.len() != b.len() {
        return false;
    }
    let mut i: usize = 0;
    while i < a.len()
        invariant
            i <= a@.len(),
            a@.len() == b@.len(),
            forall|j: int| 0 <= j < i ==> a@[j] == b@[j],
        decreases a@.len() - i,
    {
        if a[i] != b[i] {
            return false;
        }
        i = i + 1;
    }
    assert(a@ =~= b@);
    true
}

/// The domain key from which an `EncryptedChallenge` derives its shared key:
/// the 32 bytes `ammaccare-encryptedchallenge-key`.
pub open spec fn challenge_domain() -> Seq<u8> {
    seq![
        97u8, 109, 109, 97, 99, 99, 97, 114, 101, 45, 101, 110, 99, 114, 121, 112,
        116, 101, 100, 99, 104, 97, 108, 108, 101, 110, 103, 101, 45, 107, 101, 121,
    ]
}

/// The bytes of `challenge_domain`.
pub fn challenge_domain_bytes() -> (r: [u8; 32])
    ensures
        r@ == challenge_domain(),
{
    let r: [u8; 32] = [
        97u8, 109, 109, 97, 99, 99, 97, 114, 101, 45, 101, 110, 99, 114, 121, 112,
        116, 101, 100, 99, 104, 97, 108, 108, 101, 110, 103, 101, 45, 107, 101, 121,
    ];
    assert(r@ =~= challenge_domain());
    r
}

/// What a decrypted challenge stands for: its first `CAVEAT_KEY_LEN` bytes
/// are the caveat key, the rest the identifier.
pub open spec fn split_challenge(pt: Option<Seq<u8>>) -> Option<(Seq<u8>, Seq<u8>)> {
    match pt {
        Some(p) => if p.len() >= CAVEAT_KEY_LEN {
            Some((p.subrange(0, CAVEAT_KEY_LEN as int), p.subrange(CAVEAT_KEY_LEN as int, p.len() as int)))
        } else {
            None
        },
        None => None,
    }
}

/// A third-party service that needs no table: the caveat identifier is the
/// caveat key and identifier encrypted under a key shared with the
/// discharging service.
pub struct EncryptedChallenge {
    shared_key: Signature,
}

impl EncryptedChallenge {
    /// The shared key.
    pub closed spec fn shared(&self) -> Seq<u8> {
        self.shared_key@
    }

    /// A service whose shared key is the HMAC of `key` under the challenge
    /// domain key.
    pub fn new(key: &[u8]) -> (r: Self)
        ensures
            r.shared() == hmac_of(challenge_domain(), key@),
    {
        let domain = Signature::from_bytes(challenge_domain_bytes());
        EncryptedChallenge { shared_key: crypto::mac(&domain, key) }
    }

    /// The challenge for `key` and `identifier`: `key ‖ identifier`
    /// encrypted under the shared key.
    fn challenge(&self, key: &[u8], identifier: &[u8]) -> (r: Vec<u8>)
        ensures
            decrypted(self.shared(), r@) == Some(key@ + identifier@),
    {
        let mut pt = copy_bytes(key);
        let mut rest = copy_bytes(identifier);
        pt.append(&mut rest);
        crypto::senc(&self.shared_key, pt.as_slice())
    }

    /// A fresh first-party caveat whose identifier is the challenge for a
    /// random caveat key and a random identifier, and that caveat key.
    pub fn fresh(&self) -> (r: (Caveat, Vec<u8>))
        ensures
            r.1@.len() == CAVEAT_KEY_LEN,
            r.0.vid is None,
            r.0.cl is None,
            self.resolves(r.0.cid@) matches Some((k, i)) && k == r.1@ && i.len() == CAVEAT_KEY_LEN,
    {
        let key = crypto::random_bytes(CAVEAT_KEY_LEN);
        let id = crypto::random_bytes(CAVEAT_KEY_LEN);
        let cid = self.challenge(key.as_slice(), id.as_slice());
        proof {
            let p = key@ + id@;
            assert(p.subrange(0, CAVEAT_KEY_LEN as int) =~= key@);
            assert(p.subrange(CAVEAT_KEY_LEN as int, p.len() as int) =~= id@);
        }
        (Caveat::new(cid), key)
    }
}

impl ThirdParty for EncryptedChallenge {
    open spec fn resolves(&self, cid: Seq<u8>) -> Option<(Seq<u8>, Seq<u8>)> {
        split_challenge(decrypted(self.shared(), cid))
    }

    fn get_cid(&mut self, key: Vec<u8>, identifier: Vec<u8>) -> (r: Vec<u8>) {
        let r = self.challenge(key.as_slice(), identifier.as_slice());
        proof {
            let p = key@ + identifier@;
            if key@.len() == CAVEAT_KEY_LEN {
                assert(p.subrange(0, CAVEAT_KEY_LEN as int) =~= key@);
                assert(p.subrange(CAVEAT_KEY_LEN as int, p.len() as int) =~= identifier@);
            }
        }
        r
    }

    fn from_cid(&self, cid: &[u8]) -> (r: Option<(Vec<u8>, Vec<u8>)>) {
        match crypto::sdec(&self.shared_key, cid) {
            Ok(pt) => {
                if pt.len() < CAVEAT_KEY_LEN {
                    None
                } else {
                    let mut key = pt;
                    let identifier = key.split_off(CAVEAT_KEY_LEN);
                    Some((key, identifier))
                }
            },
            Err(_) => None,
        }
    }
}

} // verus!
