//! The cryptographic primitives behind concealment and blinding: SHA-256
//! digests, Pedersen commitments and arithmetic on secp256k1 scalars.
//!
//! Each executable function here is a trusted wrapper around an outside
//! crate: Verus believes its contract and does not read its body.
//! Scalars are thirty-two bytes read big-endian, as libsecp256k1 reads them.
use secp256k1zkp::{ContextFlag, Secp256k1, SecretKey};
use vstd::prelude::*;

verus! {

/// The order of the secp256k1 group: blinding factors are scalars modulo it.
pub open spec fn curve_order() -> nat {
    0xFFFFFFFFFFFFFFFFFFFFFFFFFFFFFFFEBAAEDCE6AF48A03BBFD25E8CD0364141nat
}

/// The number that `s` writes in big-endian order.
pub open spec fn be_nat(s: Seq<u8>) -> nat
    decreases s.len(),
{
    if s.len() == 0 {
        0
    } else {
        be_nat(s.drop_last()) * 256 + s.last() as nat
    }
}

/// The last `len` big-endian base-256 digits of `v`.
pub open spec fn be_bytes(v: nat, len: nat) -> Seq<u8>
    decreases len,
{
    if len == 0 {
        Seq::empty()
    } else {
        be_bytes(v / 256, (len - 1) as nat).push((v % 256) as u8)
    }
}

pub proof fn lemma_be_bytes_len(v: nat, len: nat)
    ensures
        be_bytes(v, len).len() == len,
    decreases len,
{
    if len > 0 {
        lemma_be_bytes_len(v / 256, (len - 1) as nat);
    }
}

pub proof fn lemma_be_bytes_len32()
    ensures
        forall|v: nat| #[trigger] be_bytes(v, 32).len() == 32,
{
    assert forall|v: nat| #[trigger] be_bytes(v, 32).len() == 32 by {
        lemma_be_bytes_len(v, 32);
    }
}

/// `256` to the power `len`.
pub open spec fn pow256(len: nat) -> nat
    decreases len,
{
    if len == 0 {
        1
    } else {
        256 * pow256((len - 1) as nat)
    }
}

pub proof fn lemma_pow256_pos(len: nat)
    ensures
        pow256(len) > 0,
    decreases len,
{
    if len > 0 {
        lemma_pow256_pos((len - 1) as nat);
    }
}

/// The last `len` digits of `v` read back as `v` modulo `256` to the `len`.
pub proof fn lemma_be_nat_be_bytes(v: nat, len: nat)
    ensures
        be_nat(be_bytes(v, len)) == v % pow256(len),
    decreases len,
{
    if len == 0 {
        assert(be_bytes(v, len) =~= Seq::<u8>::empty());
    } else {
        let prev = be_bytes(v / 256, (len - 1) as nat);
        let s = prev.push((v % 256) as u8);
        assert(s.drop_last() =~= prev);
        lemma_be_nat_be_bytes(v / 256, (len - 1) as nat);
        lemma_pow256_pos((len - 1) as nat);
        vstd::arithmetic::div_mod::lemma_mod_breakdown(v as int, 256, pow256((len - 1) as nat) as int);
    }
}

/// Below the group order, thirty-two digits read back as the number.
pub proof fn lemma_be_nat_be_bytes32(v: nat)
    requires
        v < curve_order(),
    ensures
        be_nat(be_bytes(v, 32)) == v,
{
    lemma_be_nat_be_bytes(v, 32);
    reveal_with_fuel(pow256, 33);
    assert(pow256(32) == 0x10000000000000000000000000000000000000000000000000000000000000000nat);
}

/// Zeros read as zero.
pub proof fn lemma_be_nat_zeros(len: nat)
    ensures
        be_nat(Seq::new(len, |i: int| 0u8)) == 0,
    decreases len,
{
    if len > 0 {
        let s = Seq::new(len, |i: int| 0u8);
        assert(s.drop_last() =~= Seq::new((len - 1) as nat, |i: int| 0u8));
        lemma_be_nat_zeros((len - 1) as nat);
    }
}

/// The sum of the big-endian numbers in `keys`.
pub open spec fn be_sum(keys: Seq<Seq<u8>>) -> int
    decreases keys.len(),
{
    if keys.len() == 0 {
        0
    } else {
        be_sum(keys.drop_last()) + be_nat(keys.last())
    }
}

/// Replacing one key changes the sum by the difference.
pub proof fn lemma_be_sum_update(keys: Seq<Seq<u8>>, k: int, key: Seq<u8>)
    requires
        0 <= k < keys.len(),
    ensures
        be_sum(keys.update(k, key)) == be_sum(keys) - be_nat(keys[k]) + be_nat(key),
    decreases keys.len(),
{
    let updated = keys.update(k, key);
    if k == keys.len() - 1 {
        assert(updated.drop_last() =~= keys.drop_last());
    } else {
        assert(updated.drop_last() =~= keys.drop_last().update(k, key));
        lemma_be_sum_update(keys.drop_last(), k, key);
    }
}

/// Whether every key is thirty-two bytes that read below the group order.
pub open spec fn all_valid_scalars(keys: Seq<Seq<u8>>) -> bool {
    forall|i: int|
        0 <= i < keys.len() ==> (#[trigger] keys[i]).len() == 32 && be_nat(keys[i])
            < curve_order()
}

/// `Secp256k1::blind_sum`: the positive keys minus the negative ones modulo
/// the group order; no key when that difference is zero.
pub open spec fn spec_blind_sum(positive: Seq<Seq<u8>>, negative: Seq<Seq<u8>>) -> Option<
    Seq<u8>,
> {
    let s = (be_sum(positive) - be_sum(negative)) % (curve_order() as int);
    if s == 0 {
        None
    } else {
        Some(be_bytes(s as nat, 32))
    }
}

/// `SecretKey::neg_assign`: the key's negation modulo the group order; no key
/// when the key does not read below the group order.
pub open spec fn spec_scalar_neg(key: Seq<u8>) -> Option<Seq<u8>> {
    if be_nat(key) >= curve_order() {
        None
    } else {
        Some(be_bytes(((curve_order() - be_nat(key)) as nat) % curve_order(), 32))
    }
}

/// `SecretKey::add_assign`: the sum of the two keys modulo the group order;
/// no key when the tweak does not read below the group order or the sum is zero.
pub open spec fn spec_scalar_add(key: Seq<u8>, tweak: Seq<u8>) -> Option<Seq<u8>> {
    if be_nat(tweak) >= curve_order() {
        None
    } else {
        let s = (be_nat(key) % curve_order() + be_nat(tweak)) % curve_order();
        if s == 0 {
            None
        } else {
            Some(be_bytes(s, 32))
        }
    }
}

/// The SHA-256 digest of the bytes.
pub uninterp spec fn spec_sha256(data: Seq<u8>) -> Seq<u8>;

/// The serialised Pedersen commitment to `value` under the blinding factor,
/// where libsecp256k1-zkp produces one.
pub uninterp spec fn spec_pedersen_commit(value: u64, blinding: Seq<u8>) -> Option<Seq<u8>>;

/// Calls `bitcoin_hashes::sha256::hash`. The digest is named by
/// `spec_sha256`, a function of the input alone, and is thirty-two bytes
/// long; nothing more of it is stated.
#[verifier::external_body]
pub(crate) fn sha256(data: &[u8]) -> (digest: Vec<u8>)
    ensures
        digest@ == spec_sha256(data@),
        digest@.len() == 32,
{
    bitcoin_hashes::sha256::hash(data).to_byte_array().to_vec()
}

/// Calls `Secp256k1::commit` on a context with commitment capabilities.
/// The serialised commitment is named by `spec_pedersen_commit`, a function
/// of the value and the blinding factor alone, and is thirty-three bytes long.
/// The source fails when the blinding factor does not read below the group
/// order, which is stated; its other failure, a commitment at infinity, is
/// covered by the name and not stated further.
#[verifier::external_body]
pub(crate) fn pedersen_commit(value: u64, blinding: &[u8]) -> (commitment: Option<Vec<u8>>)
    requires
        blinding@.len() == 32,
    ensures
        commitment matches Some(c) ==> spec_pedersen_commit(value, blinding@) == Some(c@)
            && c@.len() == 33,
        commitment is None ==> spec_pedersen_commit(value, blinding@) is None,
        be_nat(blinding@) >= curve_order() ==> commitment is None,
{
    let secp = Secp256k1::with_caps(ContextFlag::Commit);
    let mut key = [0u8; 32];
    key.copy_from_slice(blinding);
    match secp.commit(value, SecretKey(key)) {
        Ok(c) => Some(c.0.to_vec()),
        Err(_) => None,
    }
}

/// Calls `Secp256k1::blind_sum`: the sum of the positive blinding factors
/// minus the negative ones, modulo the group order, as libsecp256k1-zkp's
/// `secp256k1_pedersen_blind_sum` computes it; `None` where the sum is zero
/// and `SecretKey::from_slice` refuses it. The source panics on a factor that
/// does not read below the group order, which `requires` leaves out.
#[verifier::external_body]
pub(crate) fn blind_sum(positive: &Vec<Vec<u8>>, negative: &Vec<Vec<u8>>) -> (sum: Option<Vec<u8>>)
    requires
        all_valid_scalars(positive@.map_values(|k: Vec<u8>| k@)),
        all_valid_scalars(negative@.map_values(|k: Vec<u8>| k@)),
    ensures
        sum matches Some(v) ==> spec_blind_sum(
            positive@.map_values(|k: Vec<u8>| k@),
            negative@.map_values(|k: Vec<u8>| k@),
        ) == Some(v@),
        sum is None ==> spec_blind_sum(
            positive@.map_values(|k: Vec<u8>| k@),
            negative@.map_values(|k: Vec<u8>| k@),
        ) is None,
{
    let secp = Secp256k1::with_caps(ContextFlag::Commit);
    let to_key = |k: &Vec<u8>| {
        let mut key = [0u8; 32];
        key.copy_from_slice(k);
        SecretKey(key)
    };
    match secp.blind_sum(positive.iter().map(to_key).collect(), negative.iter().map(to_key).collect()) {
        Ok(k) => Some(k.0.to_vec()),
        Err(_) => None,
    }
}

/// Calls `SecretKey::neg_assign`: the negation of the key modulo the group
/// order (libsecp256k1's `secp256k1_ec_privkey_tweak_neg`); `None` where the
/// key does not read below the group order.
#[verifier::external_body]
pub(crate) fn scalar_neg(key: &[u8]) -> (neg: Option<Vec<u8>>)
    requires
        key@.len() == 32,
    ensures
        neg matches Some(v) ==> spec_scalar_neg(key@) == Some(v@),
        neg is None ==> spec_scalar_neg(key@) is None,
{
    let secp = Secp256k1::with_caps(ContextFlag::Commit);
    let mut bytes = [0u8; 32];
    bytes.copy_from_slice(key);
    let mut k = SecretKey(bytes);
    match k.neg_assign(&secp) {
        Ok(()) => Some(k.0.to_vec()),
        Err(_) => None,
    }
}

/// Calls `SecretKey::add_assign`: the key plus the tweak modulo the group
/// order (libsecp256k1's `secp256k1_ec_privkey_tweak_add`, which reduces the
/// key first); `None` where the tweak does not read below the group order or
/// the sum is zero.
#[verifier::external_body]
pub(crate) fn scalar_add(key: &[u8], tweak: &[u8]) -> (sum: Option<Vec<u8>>)
    requires
        key@.len() == 32,
        tweak@.len() == 32,
    ensures
        sum matches Some(v) ==> spec_scalar_add(key@, tweak@) == Some(v@),
        sum is None ==> spec_scalar_add(key@, tweak@) is None,
{
    let secp = Secp256k1::with_caps(ContextFlag::Commit);
    let mut bytes = [0u8; 32];
    bytes.copy_from_slice(key);
    let mut k = SecretKey(bytes);
    let mut t = [0u8; 32];
    t.copy_from_slice(tweak);
    match k.add_assign(&secp, &SecretKey(t)) {
        Ok(()) => Some(k.0.to_vec()),
        Err(_) => None,
    }
}

/// Calls `SecretKey::new` with `rand::thread_rng()`: a fresh random key. The
/// source draws thirty-two random bytes until they read as a non-zero number
/// below the group order, which is all that is stated of the result.
#[verifier::external_body]
pub(crate) fn random_scalar() -> (key: Vec<u8>)
    ensures
        key@.len() == 32,
        0 < be_nat(key@) < curve_order(),
{
    let secp = Secp256k1::with_caps(ContextFlag::Commit);
    SecretKey::new(&secp, &mut rand::thread_rng()).0.to_vec()
}

/// Returns the bytes of `secp256k1zkp::key::ZERO_KEY`, thirty-two zeros.
#[verifier::external_body]
pub(crate) fn zero_scalar() -> (key: Vec<u8>)
    ensures
        key@ == Seq::new(32, |i: int| 0u8),
{
    secp256k1zkp::key::ZERO_KEY.0.to_vec()
}

} // verus!
