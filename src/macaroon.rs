//! Macaroons: minting, attenuation with caveats, binding discharges to the
//! macaroon they serve, and verification.
use crate::caveat::{Caveat, copy_bytes, has_validator, slices_equal};
use crate::crypto::{self, Signature, decrypted, hmac_of, root_key_of};
use vstd::prelude::*;

verus! {

/// How deep discharge macaroons may nest below the macaroon under
/// verification; deeper ones are rejected.
pub const MAX_DEPTH: u64 = 16;

/// A macaroon: an identifier, a rolling signature, an ordered list of
/// caveats, and the discharge macaroons attached for verification.
#[derive(Debug)]
pub struct Macaroon {
    identifier: Vec<u8>,
    signature: Signature,
    caveats: Vec<Caveat>,
    discharges: Vec<Macaroon>,
}

impl Macaroon {
    /// The identifier.
    pub closed spec fn ident(&self) -> Seq<u8> {
        self.identifier@
    }

    /// The rolling signature.
    pub closed spec fn sig(&self) -> Seq<u8> {
        self.signature@
    }

    /// The caveats, in the order they were added.
    pub closed spec fn caveat_list(&self) -> Seq<Caveat> {
        self.caveats@
    }

    /// The attached discharge macaroons.
    pub closed spec fn discharge_list(&self) -> Seq<Macaroon> {
        self.discharges@
    }
}

/// The signature that minting gives for raw root key `key` and `identifier`.
pub open spec fn minted_sig(key: Seq<u8>, identifier: Seq<u8>) -> Seq<u8> {
    hmac_of(root_key_of(key), identifier)
}

/// `m` is what minting with raw root key `key` and `identifier` gives.
pub open spec fn is_minted(m: Macaroon, key: Seq<u8>, identifier: Seq<u8>) -> bool {
    &&& m.ident() == identifier
    &&& m.sig() == minted_sig(key, identifier)
    &&& m.caveat_list().len() == 0
    &&& m.discharge_list().len() == 0
}

/// `after` is `before` with caveat `c` appended and the signature advanced
/// over it: `sig ← HMAC(sig, vid ‖ cid)`.
pub open spec fn extended(before: Macaroon, after: Macaroon, c: Caveat) -> bool {
    &&& after.ident() == before.ident()
    &&& after.caveat_list() == before.caveat_list().push(c)
    &&& after.discharge_list() == before.discharge_list()
    &&& after.sig() == hmac_of(before.sig(), c.mac_input())
}

/// `after` is `before` with a third-party caveat for `caveat`'s identifier
/// and location appended, whose verifier identifier decrypts to `key` under
/// the signature `before` had.
pub open spec fn third_party_added(before: Macaroon, after: Macaroon, caveat: Caveat, key: Seq<u8>) -> bool {
    let c = after.caveat_list().last();
    &&& c.cid == caveat.cid
    &&& c.cl == caveat.cl
    &&& c.vid is Some
    &&& decrypted(before.sig(), c.vid_bytes()) == Some(key)
    &&& extended(before, after, c)
}

/// `d2` is the discharge `d` bound to a macaroon with signature `target`:
/// its signature is `HMAC(d.sig, target)`, the rest is kept.
pub open spec fn rebound(d: Macaroon, d2: Macaroon, target: Seq<u8>) -> bool {
    &&& d2.ident() == d.ident()
    &&& d2.caveat_list() == d.caveat_list()
    &&& d2.discharge_list() == d.discharge_list()
    &&& d2.sig() == hmac_of(d.sig(), target)
}

/// `after` is `before` with discharge `d` bound to it and attached.
pub open spec fn prepared(before: Macaroon, after: Macaroon, d: Macaroon) -> bool {
    &&& after.ident() == before.ident()
    &&& after.sig() == before.sig()
    &&& after.caveat_list() == before.caveat_list()
    &&& after.discharge_list().len() == before.discharge_list().len() + 1
    &&& after.discharge_list().drop_last() == before.discharge_list()
    &&& rebound(d, after.discharge_list().last(), before.sig())
}

/// The rolling signature after checking the first `n` caveats of `m`,
/// starting from `sig0`; `None` once a check fails. A first-party caveat
/// passes when its predicate has a validator; a third-party caveat when its
/// verifier identifier decrypts under the rolling signature and one of `m`'s
/// discharges for its identifier verifies under the decrypted key, bound to
/// `target` (the signature of the macaroon under verification), with
/// `depth` levels of nesting left.
pub open spec fn walk(m: Macaroon, sig0: Seq<u8>, target: Seq<u8>, depth: nat, n: nat) -> Option<Seq<u8>>
    decreases depth, 1nat, n,
{
    if n == 0 {
        Some(sig0)
    } else if n > m.caveat_list().len() {
        None
    } else {
        match walk(m, sig0, target, depth, (n - 1) as nat) {
            None => None,
            Some(s) => {
                let c = m.caveat_list()[n - 1];
                let next = hmac_of(s, c.mac_input());
                if c.vid is Some {
                    match decrypted(s, c.vid_bytes()) {
                        None => None,
                        Some(key) => if depth > 0 && discharged(
                            m.discharge_list(),
                            c.cid@,
                            key,
                            target,
                            (depth - 1) as nat,
                            m.discharge_list().len(),
                        ) {
                            Some(next)
                        } else {
                            None
                        },
                    }
                } else if has_validator(c.cid@) {
                    Some(next)
                } else {
                    None
                }
            },
        }
    }
}

/// Whether one of the first `j` discharges in `ds` has identifier `cid` and
/// verifies under raw key `key`, bound to `target`.
pub open spec fn discharged(ds: Seq<Macaroon>, cid: Seq<u8>, key: Seq<u8>, target: Seq<u8>, depth: nat, j: nat) -> bool
    decreases depth, 3nat, j,
{
    if j == 0 || j > ds.len() {
        false
    } else {
        discharged(ds, cid, key, target, depth, (j - 1) as nat) || (ds[j - 1].ident() == cid
            && discharge_valid(ds[j - 1], key, target, depth))
    }
}

/// Whether discharge `d` verifies under raw key `key`: its caveats pass and
/// its signature is the recomputed one bound to `target`.
pub open spec fn discharge_valid(d: Macaroon, key: Seq<u8>, target: Seq<u8>, depth: nat) -> bool
    decreases depth, 2nat, 0nat,
{
    match walk(d, minted_sig(key, d.ident()), target, depth, d.caveat_list().len()) {
        Some(s) => hmac_of(s, target) == d.sig(),
        None => false,
    }
}

/// Whether `m` verifies under raw root key `key`: its caveats pass and its
/// signature is the recomputed one.
pub open spec fn valid(m: Macaroon, key: Seq<u8>) -> bool {
    match walk(m, minted_sig(key, m.ident()), m.sig(), MAX_DEPTH as nat, m.caveat_list().len()) {
        Some(s) => s == m.sig(),
        None => false,
    }
}

/// Once a check has failed, the walk stays failed.
pub(crate) proof fn lemma_walk_failure_persists(m: Macaroon, sig0: Seq<u8>, target: Seq<u8>, depth: nat, i: nat, n: nat)
    requires
        i <= n,
        walk(m, sig0, target, depth, i) is None,
    ensures
        walk(m, sig0, target, depth, n) is None,
    decreases n - i,
{
    if i < n {
        lemma_walk_failure_persists(m, sig0, target, depth, i, (n - 1) as nat);
    }
}

impl Macaroon {
    /// Mints a macaroon: the signature is `HMAC(derive_root(key), identifier)`.
    pub fn new(key: &[u8], identifier: Vec<u8>) -> (r: Self)
        ensures
            is_minted(r, key@, identifier@),
    {
        let root = crypto::macaroon_key(key);
        let signature = crypto::mac(&root, identifier.as_slice());
        Macaroon { identifier, signature, caveats: Vec::new(), discharges: Vec::new() }
    }

    /// A macaroon made of the given parts, as read back from an encoding.
    pub fn from_parts(
        identifier: Vec<u8>,
        signature: Signature,
        caveats: Vec<Caveat>,
        discharges: Vec<Macaroon>,
    ) -> (r: Self)
        ensures
            r.ident() == identifier@,
            r.sig() == signature@,
            r.caveat_list() == caveats@,
            r.discharge_list() == discharges@,
    {
        Macaroon { identifier, signature, caveats, discharges }
    }

    /// The identifier.
    pub fn identifier(&self) -> (r: &[u8])
        ensures
            r@ == self.ident(),
    {
        self.identifier.as_slice()
    }

    /// The rolling signature.
    pub fn signature(&self) -> (r: &Signature)
        ensures
            r@ == self.sig(),
    {
        &self.signature
    }

    /// The caveats, in the order they were added.
    pub fn caveats(&self) -> (r: &[Caveat])
        ensures
            r@ == self.caveat_list(),
    {
        self.caveats.as_slice()
    }

    /// The attached discharge macaroons.
    pub fn discharges(&self) -> (r: &[Macaroon])
        ensures
            r@ == self.discharge_list(),
    {
        self.discharges.as_slice()
    }

    /// Appends `caveat` and advances the signature over its `vid ‖ cid`.
    fn add_caveat(&mut self, caveat: Caveat)
        ensures
            extended(*old(self), *final(self), caveat),
    {
        let vid = caveat.vid();
        let sig = crypto::mac2(&self.signature, vid.as_slice(), caveat.cid());
        self.caveats.push(caveat);
        self.signature = sig;
    }

    /// Adds a third-party caveat: its verifier identifier is `caveat_key`
    /// encrypted under the current signature, which then advances over it.
    pub fn add_third_party_caveat(&mut self, caveat: Caveat, caveat_key: &[u8])
        ensures
            third_party_added(*old(self), *final(self), caveat, caveat_key@),
    {
        let mut caveat = caveat;
        let vid = crypto::senc(&self.signature, caveat_key);
        caveat.set_vid(vid);
        self.add_caveat(caveat);
    }

    /// Adds a first-party caveat.
    pub fn add_first_party_caveat(&mut self, caveat: Caveat)
        ensures
            extended(*old(self), *final(self), caveat),
    {
        self.add_caveat(caveat);
    }

    /// Binds the signature of a discharge to this macaroon:
    /// `HMAC(signature, self.signature)`.
    pub fn bind_for_request(&self, signature: &Signature) -> (r: Signature)
        ensures
            r@ == hmac_of(signature@, self.sig()),
    {
        crypto::mac(signature, self.signature.as_slice())
    }

    /// Binds `discharge` to this macaroon and attaches it.
    pub fn prepare(&mut self, discharge: Macaroon)
        ensures
            prepared(*old(self), *final(self), discharge),
    {
        let mut discharge = discharge;
        discharge.signature = self.bind_for_request(&discharge.signature);
        self.discharges.push(discharge);
        assert(self.discharges@.drop_last() =~= old(self).discharges@);
    }

    /// Checks the caveats in order, advancing `sig` over each that passes.
    /// `target` is the macaroon under verification, to which discharges are
    /// bound; `depth` is how many levels of discharges may still nest.
    pub fn verify_caveats(&self, sig: &mut Signature, target: &Macaroon, depth: u64) -> (r: bool)
        ensures
            r == walk(*self, old(sig)@, target.sig(), depth as nat, self.caveat_list().len()) is Some,
            r ==> walk(*self, old(sig)@, target.sig(), depth as nat, self.caveat_list().len())
                == Some(final(sig)@),
        decreases depth, 1nat,
    {
        let ghost sig0 = sig@;
        let ghost n = self.caveats@.len();
        let mut i: usize = 0;
        while i < self.caveats.len()
            invariant
                i <= n,
                n == self.caveats@.len(),
                sig0 == old(sig)@,
                walk(*self, sig0, target.sig(), depth as nat, i as nat) == Some(sig@),
            decreases n - i,
        {
            let caveat = &self.caveats[i];
            if caveat.is_third_party() {
                let vid = caveat.vid();
                let caveat_key = match crypto::sdec(sig, vid.as_slice()) {
                    Ok(ck) => ck,
                    Err(_) => {
                        proof {
                            lemma_walk_failure_persists(*self, sig0, target.sig(), depth as nat, (i + 1) as nat, n);
                        }
                        return false;
                    },
                };
                if depth == 0 {
                    proof {
                        lemma_walk_failure_persists(*self, sig0, target.sig(), depth as nat, (i + 1) as nat, n);
                    }
                    return false;
                }
                let ghost ds = self.discharges@;
                let mut checked = false;
                let mut j: usize = 0;
                while j < self.discharges.len() && !checked
                    invariant
                        j <= ds.len(),
                        ds == self.discharges@,
                        depth > 0,
                        checked == discharged(ds, caveat.cid@, caveat_key@, target.sig(), (depth - 1) as nat, j as nat),
                    decreases ds.len() - j,
                {
                    let d = &self.discharges[j];
                    if slices_equal(d.identifier.as_slice(), caveat.cid()) && d.verify_inner(
                        caveat_key.as_slice(),
                        target,
                        depth - 1,
                    ) {
                        checked = true;
                    }
                    j = j + 1;
                }
                if !checked {
                    proof {
                        lemma_walk_failure_persists(*self, sig0, target.sig(), depth as nat, (i + 1) as nat, n);
                    }
                    return false;
                } else {
                    proof {
                        lemma_discharged_stays_true(ds, caveat.cid@, caveat_key@, target.sig(), (depth - 1) as nat, j as nat, ds.len());
                    }
                }
            } else if !caveat.validate() {
                proof {
                    lemma_walk_failure_persists(*self, sig0, target.sig(), depth as nat, (i + 1) as nat, n);
                }
                return false;
            }
            let vid = caveat.vid();
            *sig = crypto::mac2(sig, vid.as_slice(), caveat.cid());
            i = i + 1;
        }
        true
    }

    /// Whether this macaroon verifies under raw root key `key`.
    pub fn verify(&self, key: &[u8]) -> (r: bool)
        ensures
            r == valid(*self, key@),
    {
        let root = crypto::macaroon_key(key);
        let mut sig = crypto::mac(&root, self.identifier.as_slice());
        let checked = self.verify_caveats(&mut sig, self, MAX_DEPTH);
        checked && sig.equals(&self.signature)
    }

    /// Whether this discharge verifies under raw key `key`, bound to
    /// `target`.
    fn verify_inner(&self, key: &[u8], target: &Macaroon, depth: u64) -> (r: bool)
        ensures
            r == discharge_valid(*self, key@, target.sig(), depth as nat),
        decreases depth, 2nat,
    {
        let root = crypto::macaroon_key(key);
        let mut sig = crypto::mac(&root, self.identifier.as_slice());
        let checked = self.verify_caveats(&mut sig, target, depth);
        let bound = target.bind_for_request(&sig);
        checked && bound.equals(&self.signature)
    }
}

/// A discharge found among the first `j` is found among the first `n >= j`.
proof fn lemma_discharged_stays_true(ds: Seq<Macaroon>, cid: Seq<u8>, key: Seq<u8>, target: Seq<u8>, depth: nat, j: nat, n: nat)
    requires
        j <= n <= ds.len(),
        discharged(ds, cid, key, target, depth, j),
    ensures
        discharged(ds, cid, key, target, depth, n),
    decreases n - j,
{
    if j < n {
        lemma_discharged_stays_true(ds, cid, key, target, depth, j, (n - 1) as nat);
    }
}

/// A tentative identifier layout for service macaroons.
#[derive(Clone, Debug)]
pub struct Identifier {
    query_type: String,
    app_id: String,
    secret_name: String,
}

} // verus!
