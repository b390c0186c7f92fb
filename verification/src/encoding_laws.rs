//! What the strict encoding of each value is, byte by byte, stated over its
//! parts; and what concealing a value hashes or commits to.
use crate::amount;
use crate::assignment::{Assignment, HashStrategy, PedersenStrategy, StateTypes, VoidStrategy};
use crate::assignments::{spec_items_encoding, AssignmentsVariantV};
use crate::bytes32::Bytes32;
use crate::crypto::{spec_pedersen_commit, spec_sha256};
use crate::data;
use crate::encoding::{ErrorV, StrictEncoding};
use crate::seal;
use vstd::bytes::{
    lemma_auto_spec_u16_to_from_le_bytes, lemma_auto_spec_u32_to_from_le_bytes,
    lemma_auto_spec_u64_to_from_le_bytes, spec_u16_to_le_bytes, spec_u32_to_le_bytes,
    spec_u64_to_le_bytes,
};
use vstd::prelude::*;

verus! {

/// An assignment is encoded as the tag of its variant (concealed seal and
/// state 0, both revealed 1, concealed seal with revealed state 2, revealed
/// seal with concealed state 3), then the encoding of its seal, then the
/// encoding of its state.
pub proof fn law_assignment_encoding<S: StateTypes>(
    sc: seal::Confidential,
    sr: seal::Revealed,
    tc: S::Confidential,
    tr: S::Revealed,
)
    ensures
        (Assignment::<S>::Confidential { seal_definition: sc, assigned_state: tc }).spec_encode()
            == seq![0u8] + sc.spec_encode() + tc.spec_encode(),
        (Assignment::<S>::Revealed { seal_definition: sr, assigned_state: tr }).spec_encode()
            == seq![1u8] + sr.spec_encode() + tr.spec_encode(),
        (Assignment::<S>::ConfidentialSeal { seal_definition: sc, assigned_state: tr }).spec_encode()
            == seq![2u8] + sc.spec_encode() + tr.spec_encode(),
        (Assignment::<S>::ConfidentialAmount { seal_definition: sr, assigned_state: tc }).spec_encode()
            == seq![3u8] + sr.spec_encode() + tc.spec_encode(),
{
    assert(Assignment::<S>::Confidential { seal_definition: sc, assigned_state: tc }.spec_encode()
        =~= seq![0u8] + sc.spec_encode() + tc.spec_encode());
    assert(Assignment::<S>::Revealed { seal_definition: sr, assigned_state: tr }.spec_encode()
        =~= seq![1u8] + sr.spec_encode() + tr.spec_encode());
    assert(Assignment::<S>::ConfidentialSeal { seal_definition: sc, assigned_state: tr }.spec_encode()
        =~= seq![2u8] + sc.spec_encode() + tr.spec_encode());
    assert(Assignment::<S>::ConfidentialAmount { seal_definition: sr, assigned_state: tc }.spec_encode()
        =~= seq![3u8] + sr.spec_encode() + tc.spec_encode());
}

/// Decoding an assignment reads the tag of its variant, then its seal, then
/// its state, and consumes exactly these bytes, whatever follows them.
pub proof fn law_assignment_decoding<S: StateTypes>(
    sc: seal::Confidential,
    sr: seal::Revealed,
    tc: S::Confidential,
    tr: S::Revealed,
    rest: Seq<u8>,
)
    ensures
        Assignment::<S>::spec_decode(seq![0u8] + sc.spec_encode() + tc.spec_encode() + rest) == Ok::<
            (Assignment<S>, nat),
            ErrorV,
        >(
            (
                (Assignment::Confidential { seal_definition: sc, assigned_state: tc }),
                1 + sc.spec_encode().len() + tc.spec_encode().len(),
            ),
        ),
        Assignment::<S>::spec_decode(seq![1u8] + sr.spec_encode() + tr.spec_encode() + rest) == Ok::<
            (Assignment<S>, nat),
            ErrorV,
        >(
            (
                (Assignment::Revealed { seal_definition: sr, assigned_state: tr }),
                1 + sr.spec_encode().len() + tr.spec_encode().len(),
            ),
        ),
        Assignment::<S>::spec_decode(seq![2u8] + sc.spec_encode() + tr.spec_encode() + rest) == Ok::<
            (Assignment<S>, nat),
            ErrorV,
        >(
            (
                (Assignment::ConfidentialSeal { seal_definition: sc, assigned_state: tr }),
                1 + sc.spec_encode().len() + tr.spec_encode().len(),
            ),
        ),
        Assignment::<S>::spec_decode(seq![3u8] + sr.spec_encode() + tc.spec_encode() + rest) == Ok::<
            (Assignment<S>, nat),
            ErrorV,
        >(
            (
                (Assignment::ConfidentialAmount { seal_definition: sr, assigned_state: tc }),
                1 + sr.spec_encode().len() + tc.spec_encode().len(),
            ),
        ),
{
    law_assignment_encoding::<S>(sc, sr, tc, tr);
    let a0 = Assignment::<S>::Confidential { seal_definition: sc, assigned_state: tc };
    let a1 = Assignment::<S>::Revealed { seal_definition: sr, assigned_state: tr };
    let a2 = Assignment::<S>::ConfidentialSeal { seal_definition: sc, assigned_state: tr };
    let a3 = Assignment::<S>::ConfidentialAmount { seal_definition: sr, assigned_state: tc };
    a0.lemma_decode_encode(rest);
    a1.lemma_decode_encode(rest);
    a2.lemma_decode_encode(rest);
    a3.lemma_decode_encode(rest);
    assert(seq![0u8] + sc.spec_encode() + tc.spec_encode() + rest =~= a0.spec_encode() + rest);
    assert(seq![1u8] + sr.spec_encode() + tr.spec_encode() + rest =~= a1.spec_encode() + rest);
    assert(seq![2u8] + sc.spec_encode() + tr.spec_encode() + rest =~= a2.spec_encode() + rest);
    assert(seq![3u8] + sr.spec_encode() + tc.spec_encode() + rest =~= a3.spec_encode() + rest);
}

/// A data value is encoded as the tag of its type (0 for `U8`, 1 for
/// `U16`, 2 for `U32`, 3 for `U64`), then the value in little-endian order
/// in exactly its own width; decoding reads it back from those bytes.
pub proof fn law_data_encoding(v8: u8, v16: u16, v32: u32, v64: u64, rest: Seq<u8>)
    ensures
        data::Revealed::U8(v8).spec_encode() == seq![0u8, v8],
        data::Revealed::U16(v16).spec_encode() == seq![1u8] + spec_u16_to_le_bytes(v16),
        data::Revealed::U32(v32).spec_encode() == seq![2u8] + spec_u32_to_le_bytes(v32),
        data::Revealed::U64(v64).spec_encode() == seq![3u8] + spec_u64_to_le_bytes(v64),
        data::Revealed::U16(v16).spec_encode().len() == 3,
        data::Revealed::U32(v32).spec_encode().len() == 5,
        data::Revealed::U64(v64).spec_encode().len() == 9,
        data::Revealed::spec_decode(seq![0u8, v8] + rest) == Ok::<(data::Revealed, nat), ErrorV>(
            (data::Revealed::U8(v8), 2),
        ),
        data::Revealed::spec_decode(seq![1u8] + spec_u16_to_le_bytes(v16) + rest) == Ok::<
            (data::Revealed, nat),
            ErrorV,
        >((data::Revealed::U16(v16), 3)),
        data::Revealed::spec_decode(seq![2u8] + spec_u32_to_le_bytes(v32) + rest) == Ok::<
            (data::Revealed, nat),
            ErrorV,
        >((data::Revealed::U32(v32), 5)),
        data::Revealed::spec_decode(seq![3u8] + spec_u64_to_le_bytes(v64) + rest) == Ok::<
            (data::Revealed, nat),
            ErrorV,
        >((data::Revealed::U64(v64), 9)),
{
    lemma_auto_spec_u16_to_from_le_bytes();
    lemma_auto_spec_u32_to_from_le_bytes();
    lemma_auto_spec_u64_to_from_le_bytes();
    let d8 = data::Revealed::U8(v8);
    let d16 = data::Revealed::U16(v16);
    let d32 = data::Revealed::U32(v32);
    let d64 = data::Revealed::U64(v64);
    assert(d8.spec_encode() =~= seq![0u8, v8]);
    assert(d16.spec_encode() =~= seq![1u8] + spec_u16_to_le_bytes(v16));
    assert(d32.spec_encode() =~= seq![2u8] + spec_u32_to_le_bytes(v32));
    assert(d64.spec_encode() =~= seq![3u8] + spec_u64_to_le_bytes(v64));
    d8.lemma_decode_encode(rest);
    d16.lemma_decode_encode(rest);
    d32.lemma_decode_encode(rest);
    d64.lemma_decode_encode(rest);
}

/// A data value is concealed as the SHA-256 digest of its encoding: its
/// tag, then its value in little-endian order in exactly its own width.
pub proof fn law_data_conceal(v8: u8, v16: u16, v32: u32, v64: u64)
    ensures
        data::Revealed::U8(v8).spec_conceal() == (data::Confidential {
            hash: Bytes32::spec_from_bytes(spec_sha256(seq![0u8, v8])),
        }),
        data::Revealed::U16(v16).spec_conceal() == (data::Confidential {
            hash: Bytes32::spec_from_bytes(spec_sha256(seq![1u8] + spec_u16_to_le_bytes(v16))),
        }),
        data::Revealed::U32(v32).spec_conceal() == (data::Confidential {
            hash: Bytes32::spec_from_bytes(spec_sha256(seq![2u8] + spec_u32_to_le_bytes(v32))),
        }),
        data::Revealed::U64(v64).spec_conceal() == (data::Confidential {
            hash: Bytes32::spec_from_bytes(spec_sha256(seq![3u8] + spec_u64_to_le_bytes(v64))),
        }),
{
    law_data_encoding(v8, v16, v32, v64, Seq::empty());
}

/// Eight zero bytes are the little-endian encoding of zero.
proof fn lemma_u64_zero_bytes()
    ensures
        spec_u64_to_le_bytes(0) == Seq::new(8, |i: int| 0u8),
{
    vstd::bytes::spec_u64_to_le_bytes_to_open(0);
    assert((0u64 & 0xff) == 0 && ((0u64 >> 8) & 0xff) == 0 && ((0u64 >> 16) & 0xff) == 0 && ((0u64
        >> 24) & 0xff) == 0 && ((0u64 >> 32) & 0xff) == 0 && ((0u64 >> 40) & 0xff) == 0 && ((0u64
        >> 48) & 0xff) == 0 && ((0u64 >> 56) & 0xff) == 0) by (bit_vector);
    assert(spec_u64_to_le_bytes(0) =~= Seq::new(8, |i: int| 0u8));
}

/// A seal on a transaction output is encoded as 0, the transaction id, the
/// output number (two bytes) and the blinding factor (eight bytes), numbers
/// in little-endian order; a seal on an output of the witness transaction as
/// 1, the output number and the blinding factor; a concealed seal as its
/// thirty-two hash bytes. Concealing a seal hashes its blinding factor, its
/// transaction id (thirty-two zeros for the witness transaction) and its
/// output number.
pub proof fn law_seal_encoding(txid: Bytes32, vout: u16, blinding: u64, hash: Bytes32)
    ensures
        (seal::Revealed::TxOutpoint { txid, vout, blinding }).spec_encode() == seq![0u8]
            + txid.spec_bytes() + spec_u16_to_le_bytes(vout) + spec_u64_to_le_bytes(blinding),
        (seal::Revealed::WitnessVout { vout, blinding }).spec_encode() == seq![1u8]
            + spec_u16_to_le_bytes(vout) + spec_u64_to_le_bytes(blinding),
        (seal::Confidential { hash }).spec_encode() == hash.spec_bytes(),
        (seal::Revealed::TxOutpoint { txid, vout, blinding }).spec_conceal() == (seal::Confidential {
            hash: Bytes32::spec_from_bytes(
                spec_sha256(spec_u64_to_le_bytes(blinding) + txid.spec_bytes() + spec_u16_to_le_bytes(vout)),
            ),
        }),
        (seal::Revealed::WitnessVout { vout, blinding }).spec_conceal() == (seal::Confidential {
            hash: Bytes32::spec_from_bytes(
                spec_sha256(
                    spec_u64_to_le_bytes(blinding) + Seq::new(32, |i: int| 0u8) + spec_u16_to_le_bytes(
                        vout,
                    ),
                ),
            ),
        }),
{
    lemma_u64_zero_bytes();
    assert(Bytes32::spec_zero().spec_bytes() =~= Seq::new(32, |i: int| 0u8));
    assert(seal::Revealed::TxOutpoint { txid, vout, blinding }.spec_encode() =~= seq![0u8]
        + txid.spec_bytes() + spec_u16_to_le_bytes(vout) + spec_u64_to_le_bytes(blinding));
    assert(seal::Revealed::WitnessVout { vout, blinding }.spec_encode() =~= seq![1u8]
        + spec_u16_to_le_bytes(vout) + spec_u64_to_le_bytes(blinding));
}

/// A revealed amount is encoded as the amount (eight bytes, little-endian)
/// then its thirty-two byte blinding factor; a concealed amount as the
/// thirty-three bytes of its commitment, prefix first. Thirty-three bytes
/// read as a commitment keep the first byte as the prefix and the other
/// thirty-two as the point, in order.
pub proof fn law_amount_encoding(
    value: u64,
    blinding: amount::BlindingFactor,
    c: amount::Commitment,
    s: Seq<u8>,
)
    ensures
        (amount::Revealed { amount: value, blinding }).spec_encode() == spec_u64_to_le_bytes(value)
            + blinding.spec_bytes(),
        (amount::Confidential { commitment: c }).spec_encode() == seq![c.prefix] + c.point.spec_bytes(),
        s.len() == 33 ==> amount::Commitment::spec_from_bytes(s).prefix == s[0]
            && amount::Commitment::spec_from_bytes(s).point.spec_bytes() == s.subrange(1, 33),
        s.len() == 33 ==> seq![amount::Commitment::spec_from_bytes(s).prefix]
            + amount::Commitment::spec_from_bytes(s).point.spec_bytes() == s,
{
    assert(amount::Confidential { commitment: c }.spec_encode() =~= seq![c.prefix] + c.point.spec_bytes());
    if s.len() == 33 {
        Bytes32::lemma_bytes_of_from_bytes(s.subrange(1, 33));
        assert(seq![s[0]] + s.subrange(1, 33) =~= s);
    }
}

/// A concealed amount is, byte for byte, the thirty-three byte Pedersen
/// commitment to the amount under its blinding factor, and that is its
/// encoding.
pub proof fn law_amount_conceal(r: amount::Revealed)
    requires
        spec_pedersen_commit(r.amount, r.blinding.spec_bytes()) matches Some(c) && c.len() == 33,
    ensures
        seq![r.spec_conceal().commitment.prefix] + r.spec_conceal().commitment.point.spec_bytes()
            == spec_pedersen_commit(r.amount, r.blinding.spec_bytes()).unwrap(),
        r.spec_conceal().spec_encode() == spec_pedersen_commit(r.amount, r.blinding.spec_bytes()).unwrap(),
{
    let c = spec_pedersen_commit(r.amount, r.blinding.spec_bytes()).unwrap();
    law_amount_encoding(r.amount, r.blinding, r.spec_conceal().commitment, c);
}

/// A set of assignments is encoded as the kind of its state (0 for no
/// state, 1 and the `U64` tag 3 for amounts, 2 for data), the number of
/// assignments (two bytes, little-endian), then each assignment's encoding
/// in the set's order.
pub proof fn law_set_encoding<S: StateTypes>(
    void_items: Seq<Assignment<VoidStrategy>>,
    amount_items: Seq<Assignment<PedersenStrategy>>,
    data_items: Seq<Assignment<HashStrategy>>,
    items: Seq<Assignment<S>>,
    a: Assignment<S>,
)
    ensures
        AssignmentsVariantV::Declarative(void_items).spec_encode() == seq![0u8] + spec_u16_to_le_bytes(
            void_items.len() as u16,
        ) + spec_items_encoding(void_items),
        AssignmentsVariantV::PedersenBased(amount_items).spec_encode() == seq![1u8, 3u8]
            + spec_u16_to_le_bytes(amount_items.len() as u16) + spec_items_encoding(amount_items),
        AssignmentsVariantV::HashBased(data_items).spec_encode() == seq![2u8] + spec_u16_to_le_bytes(
            data_items.len() as u16,
        ) + spec_items_encoding(data_items),
        spec_items_encoding(Seq::<Assignment<S>>::empty()) == Seq::<u8>::empty(),
        spec_items_encoding(items.push(a)) == spec_items_encoding(items) + a.spec_encode(),
{
    assert(AssignmentsVariantV::Declarative(void_items).spec_encode() =~= seq![0u8]
        + spec_u16_to_le_bytes(void_items.len() as u16) + spec_items_encoding(void_items));
    assert(AssignmentsVariantV::PedersenBased(amount_items).spec_encode() =~= seq![1u8, 3u8]
        + spec_u16_to_le_bytes(amount_items.len() as u16) + spec_items_encoding(amount_items));
    assert(AssignmentsVariantV::HashBased(data_items).spec_encode() =~= seq![2u8]
        + spec_u16_to_le_bytes(data_items.len() as u16) + spec_items_encoding(data_items));
    crate::assignments::lemma_items_encoding_push(items, a);
}

} // verus!
