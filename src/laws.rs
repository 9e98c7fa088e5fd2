//! Properties that relate minting, attenuation, preparation and
//! verification, proved over the contracts of those operations.
use crate::caveat::{Caveat, has_validator};
use crate::macaroon::{
    MAX_DEPTH, Macaroon, discharge_valid, discharged, extended, is_minted, lemma_walk_failure_persists,
    minted_sig, prepared, third_party_added, valid, walk,
};
use vstd::prelude::*;

verus! {

/// A freshly minted macaroon verifies under the root key it was minted with.
pub proof fn lemma_minted_verifies(m: Macaroon, key: Seq<u8>, identifier: Seq<u8>)
    requires
        is_minted(m, key, identifier),
    ensures
        valid(m, key),
{
}

/// Two macaroons whose first `n` caveats agree and are all first-party walk
/// those caveats alike, whatever their discharges and binding targets.
proof fn lemma_walk_first_party(
    m1: Macaroon,
    m2: Macaroon,
    sig0: Seq<u8>,
    t1: Seq<u8>,
    t2: Seq<u8>,
    depth: nat,
    n: nat,
)
    requires
        n <= m1.caveat_list().len(),
        n <= m2.caveat_list().len(),
        forall|i: int|
            0 <= i < n ==> m1.caveat_list()[i] == m2.caveat_list()[i] && (#[trigger] m1.caveat_list()[i]).vid is None,
    ensures
        walk(m1, sig0, t1, depth, n) == walk(m2, sig0, t2, depth, n),
    decreases n,
{
    if n > 0 {
        lemma_walk_first_party(m1, m2, sig0, t1, t2, depth, (n - 1) as nat);
        assert(m1.caveat_list()[n - 1] == m2.caveat_list()[n - 1]);
    }
}

/// Adding a first-party caveat whose predicate is accepted keeps a valid
/// macaroon valid, where all its caveats are first-party. (Where it has
/// third-party caveats, its discharges were bound to the signature it had
/// before, which the new caveat changes.)
pub proof fn lemma_accepted_caveat_keeps_validity(m: Macaroon, after: Macaroon, c: Caveat, key: Seq<u8>)
    requires
        valid(m, key),
        forall|i: int| 0 <= i < m.caveat_list().len() ==> (#[trigger] m.caveat_list()[i]).vid is None,
        c.vid is None,
        has_validator(c.cid@),
        extended(m, after, c),
    ensures
        valid(after, key),
{
    let n = m.caveat_list().len();
    let s0 = minted_sig(key, m.ident());
    assert forall|i: int| 0 <= i < n implies m.caveat_list()[i] == after.caveat_list()[i] && (
    #[trigger] m.caveat_list()[i]).vid is None by {
        assert(after.caveat_list()[i] == m.caveat_list().push(c)[i]);
    }
    lemma_walk_first_party(m, after, s0, m.sig(), after.sig(), MAX_DEPTH as nat, n);
    assert(after.caveat_list()[n as int] == c);
    assert(walk(after, s0, after.sig(), MAX_DEPTH as nat, n + 1) == Some(after.sig()));
}

/// Adding a first-party caveat whose predicate no validator accepts makes
/// any macaroon fail verification.
pub proof fn lemma_rejected_caveat_blocks(m: Macaroon, after: Macaroon, c: Caveat, key: Seq<u8>)
    requires
        c.vid is None,
        !has_validator(c.cid@),
        extended(m, after, c),
    ensures
        !valid(after, key),
{
    let n = m.caveat_list().len();
    assert(after.caveat_list()[n as int] == c);
    assert(walk(after, minted_sig(key, after.ident()), after.sig(), MAX_DEPTH as nat, n + 1) is None);
}

/// A macaroon that holds a third-party caveat and has no discharges
/// attached does not verify.
pub proof fn lemma_undischarged_fails(m: Macaroon, key: Seq<u8>, i: int)
    requires
        0 <= i < m.caveat_list().len(),
        m.caveat_list()[i].vid is Some,
        m.discharge_list().len() == 0,
    ensures
        !valid(m, key),
{
    let s0 = minted_sig(key, m.ident());
    let t = m.sig();
    let c = m.caveat_list()[i];
    if let Some(s) = walk(m, s0, t, MAX_DEPTH as nat, i as nat) {
        if let Some(k) = crate::crypto::decrypted(s, c.vid_bytes()) {
            assert(!discharged(m.discharge_list(), c.cid@, k, t, (MAX_DEPTH - 1) as nat, 0));
        }
    }
    assert(walk(m, s0, t, MAX_DEPTH as nat, (i + 1) as nat) is None);
    lemma_walk_failure_persists(m, s0, t, MAX_DEPTH as nat, (i + 1) as nat, m.caveat_list().len());
}

/// A macaroon that was minted, given a third-party caveat, and then had a
/// discharge prepared onto it verifies, where the discharge was minted with
/// the caveat key and the caveat's identifier.
pub proof fn lemma_prepared_discharge_verifies(
    m0: Macaroon,
    m1: Macaroon,
    m2: Macaroon,
    caveat: Caveat,
    d: Macaroon,
    key: Seq<u8>,
    identifier: Seq<u8>,
    caveat_key: Seq<u8>,
)
    requires
        is_minted(m0, key, identifier),
        third_party_added(m0, m1, caveat, caveat_key),
        is_minted(d, caveat_key, caveat.cid@),
        prepared(m1, m2, d),
    ensures
        valid(m2, key),
{
    let s0 = minted_sig(key, m2.ident());
    let t = m2.sig();
    let c = m2.caveat_list()[0];
    let ds = m2.discharge_list();
    let bound = ds[0];
    assert(c == m1.caveat_list().last());
    assert(bound == ds.last());
    assert(walk(bound, minted_sig(caveat_key, bound.ident()), t, (MAX_DEPTH - 1) as nat, 0) == Some(d.sig()));
    assert(discharge_valid(bound, caveat_key, t, (MAX_DEPTH - 1) as nat));
    assert(discharged(ds, c.cid@, caveat_key, t, (MAX_DEPTH - 1) as nat, 1));
    assert(s0 == m0.sig());
    assert(walk(m2, s0, t, MAX_DEPTH as nat, 0) == Some(s0));
    assert(crate::crypto::decrypted(s0, c.vid_bytes()) == Some(caveat_key));
    assert(ds.len() == 1);
    assert(MAX_DEPTH > 0);
    assert(walk(m2, s0, t, MAX_DEPTH as nat, 1) == Some(t));
}

} // verus!
