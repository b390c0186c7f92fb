use rgb_assignments::amount;
use rgb_assignments::assignment::{Assignment, HashStrategy, PedersenStrategy, VoidStrategy};
use rgb_assignments::assignments::AssignmentsVariant;
use rgb_assignments::bytes32::Bytes32;
use rgb_assignments::data;
use rgb_assignments::encoding::{Error, StrictEncoding};
use rgb_assignments::seal;
use secp256k1zkp::{ContextFlag, Secp256k1, SecretKey};

fn b32(bytes: [u8; 32]) -> Bytes32 {
    Bytes32::from_bytes(&bytes)
}

fn scalar(v: u8) -> Bytes32 {
    let mut bytes = [0u8; 32];
    bytes[31] = v;
    b32(bytes)
}

fn sha256(data: &[u8]) -> Bytes32 {
    b32(bitcoin_hashes::sha256::hash(data).to_byte_array())
}

fn commit(amount: u64, blinding: &Bytes32) -> amount::Confidential {
    let secp = Secp256k1::with_caps(ContextFlag::Commit);
    let mut key = [0u8; 32];
    key.copy_from_slice(&blinding.to_bytes());
    let c = secp.commit(amount, SecretKey(key)).unwrap();
    amount::Confidential { commitment: amount::Commitment::from_bytes(&c.0) }
}

fn txid(v: u8) -> Bytes32 {
    b32([v; 32])
}

fn outpoint(v: u8) -> seal::Revealed {
    seal::Revealed::TxOutpoint { txid: txid(v), vout: v as u16, blinding: 1000 + v as u64 }
}

fn hash_seal(v: u8) -> seal::Confidential {
    seal::Confidential { hash: txid(v) }
}

#[test]
fn kinds_are_exclusive() {
    let d = AssignmentsVariant::Declarative(vec![]);
    let p = AssignmentsVariant::PedersenBased(vec![]);
    let h = AssignmentsVariant::HashBased(vec![]);
    assert!(d.is_declarative() && !d.is_pederse_based() && !d.is_hash_based());
    assert!(!p.is_declarative() && p.is_pederse_based() && !p.is_hash_based());
    assert!(!h.is_declarative() && !h.is_pederse_based() && h.is_hash_based());
}

#[test]
fn seal_conceal_hashes_the_outpoint() {
    let s = outpoint(7);
    let mut bytes = Vec::new();
    bytes.extend_from_slice(&1007u64.to_le_bytes());
    bytes.extend_from_slice(&[7u8; 32]);
    bytes.extend_from_slice(&7u16.to_le_bytes());
    assert_eq!(s.conceal(), seal::Confidential { hash: sha256(&bytes) });

    let w = seal::Revealed::WitnessVout { vout: 3, blinding: 9 };
    let mut bytes = Vec::new();
    bytes.extend_from_slice(&9u64.to_le_bytes());
    bytes.extend_from_slice(&[0u8; 32]);
    bytes.extend_from_slice(&3u16.to_le_bytes());
    assert_eq!(w.conceal(), seal::Confidential { hash: sha256(&bytes) });
    assert_ne!(w.conceal(), s.conceal());
}

#[test]
fn data_conceal_hashes_the_encoding() {
    let d = data::Revealed::U16(0x1234);
    let mut enc = Vec::new();
    assert_eq!(d.strict_encode(&mut enc), 3);
    assert_eq!(enc, vec![1, 0x34, 0x12]);
    assert_eq!(d.conceal(), data::Confidential { hash: sha256(&[1, 0x34, 0x12]) });
}

#[test]
fn amount_conceal_is_the_pedersen_commitment() {
    let r = amount::Revealed { amount: 42, blinding: scalar(5) };
    assert_eq!(r.try_conceal(), Some(commit(42, &scalar(5))));
    let zero = amount::Revealed { amount: 0, blinding: scalar(0) };
    assert_eq!(zero.try_conceal(), None);
}

#[test]
fn accessors_follow_the_variant() {
    let s = outpoint(1);
    let c = hash_seal(2);
    let a: Assignment<VoidStrategy> =
        Assignment::Revealed { seal_definition: s, assigned_state: data::Void };
    assert_eq!(a.seal_definition(), Some(&s));
    assert_eq!(a.seal_definition_confidential(), s.conceal());
    assert_eq!(a.assigned_state(), Some(&data::Void));

    let b: Assignment<VoidStrategy> =
        Assignment::ConfidentialSeal { seal_definition: c, assigned_state: data::Void };
    assert_eq!(b.seal_definition(), None);
    assert_eq!(b.seal_definition_confidential(), c);
    assert_eq!(b.assigned_state(), Some(&data::Void));

    let st = data::Revealed::U8(9);
    let e: Assignment<HashStrategy> =
        Assignment::ConfidentialAmount { seal_definition: s, assigned_state: st.conceal() };
    assert_eq!(e.seal_definition(), Some(&s));
    assert_eq!(e.assigned_state(), None);
    assert_eq!(e.assigned_state_confidential(), st.conceal());

    let f: Assignment<HashStrategy> =
        Assignment::Confidential { seal_definition: c, assigned_state: st.conceal() };
    assert_eq!(f.seal_definition(), None);
    assert_eq!(f.assigned_state(), None);
    assert_eq!(f.seal_definition_confidential(), c);

    let g: Assignment<HashStrategy> =
        Assignment::Revealed { seal_definition: s, assigned_state: st };
    assert_eq!(g.assigned_state_confidential(), st.conceal());
    assert_eq!(g.try_assigned_state_confidential(), Some(st.conceal()));
}

#[test]
fn conceal_hides_the_state_only() {
    let s = outpoint(3);
    let c = hash_seal(4);
    let st = data::Revealed::U32(77);
    let a: Assignment<HashStrategy> = Assignment::Revealed { seal_definition: s, assigned_state: st };
    let ca = a.conceal();
    assert_eq!(ca, Assignment::ConfidentialAmount { seal_definition: s, assigned_state: st.conceal() });
    assert_eq!(ca.conceal(), ca);
    assert_eq!(ca.seal_definition_confidential(), a.seal_definition_confidential());

    let b: Assignment<HashStrategy> =
        Assignment::ConfidentialSeal { seal_definition: c, assigned_state: st };
    assert_eq!(b.conceal(), Assignment::Confidential { seal_definition: c, assigned_state: st.conceal() });
    assert_eq!(b.try_conceal(), Some(b.conceal()));

    let z: Assignment<PedersenStrategy> = Assignment::Revealed {
        seal_definition: s,
        assigned_state: amount::Revealed { amount: 0, blinding: scalar(0) },
    };
    assert_eq!(z.try_conceal(), None);
    assert_eq!(z.try_assigned_state_confidential(), None);
}

#[test]
fn conceal_except_keeps_listed_seals() {
    let s = outpoint(5);
    let st = data::Revealed::U64(1 << 40);
    let a: Assignment<HashStrategy> = Assignment::Revealed { seal_definition: s, assigned_state: st };

    let mut kept = a;
    assert_eq!(kept.conceal_except(&vec![s.conceal()]), 0);
    assert_eq!(kept, a);

    let mut hidden = a;
    assert_eq!(hidden.conceal_except(&vec![hash_seal(1)]), 1);
    assert_eq!(hidden, a.conceal());
    assert_eq!(hidden.conceal_except(&vec![hash_seal(1)]), 0);

    let c = hash_seal(6);
    let mut b: Assignment<HashStrategy> =
        Assignment::ConfidentialSeal { seal_definition: c, assigned_state: st };
    assert_eq!(b.conceal_except(&vec![c]), 0);
    assert_eq!(b.conceal_except(&vec![]), 1);
    assert_eq!(b, Assignment::Confidential { seal_definition: c, assigned_state: st.conceal() });

    let mut z: Assignment<PedersenStrategy> = Assignment::Revealed {
        seal_definition: s,
        assigned_state: amount::Revealed { amount: 0, blinding: scalar(0) },
    };
    assert_eq!(z.try_conceal_except(&vec![]), None);
    assert_eq!(z.try_conceal_except(&vec![s.conceal()]), Some(0));
}

#[test]
fn set_queries() {
    let s1 = outpoint(1);
    let c2 = hash_seal(2);
    let st1 = data::Revealed::U8(1);
    let st2 = data::Revealed::U16(2);
    let set = AssignmentsVariant::HashBased(vec![
        Assignment::Revealed { seal_definition: s1, assigned_state: st1 },
        Assignment::ConfidentialSeal { seal_definition: c2, assigned_state: st2 },
        Assignment::Confidential { seal_definition: c2, assigned_state: st1.conceal() },
    ]);
    assert_eq!(set.len(), 3);
    assert_eq!(set.known_seals(), vec![&s1]);
    assert_eq!(set.all_seals(), vec![s1.conceal(), c2, c2]);
    assert_eq!(set.known_state_data(), vec![&st1, &st2]);
    assert_eq!(set.all_state_hashed(), vec![st1.conceal(), st2.conceal(), st1.conceal()]);
    assert!(set.known_state_homomorphic().is_empty());
    assert!(set.all_state_pedersen().is_empty());

    let r1 = amount::Revealed { amount: 10, blinding: scalar(3) };
    let p = AssignmentsVariant::PedersenBased(vec![
        Assignment::ConfidentialSeal { seal_definition: c2, assigned_state: r1 },
        Assignment::ConfidentialAmount { seal_definition: s1, assigned_state: commit(4, &scalar(8)) },
    ]);
    assert_eq!(p.known_state_homomorphic(), vec![&r1]);
    assert_eq!(p.all_state_pedersen(), vec![commit(10, &scalar(3)), commit(4, &scalar(8))]);
    assert_eq!(p.try_all_state_pedersen(), Some(p.all_state_pedersen()));
    assert!(p.known_state_data().is_empty());
    assert!(p.all_state_hashed().is_empty());
    assert_eq!(p.known_seals(), vec![&s1]);

    let bad = AssignmentsVariant::PedersenBased(vec![Assignment::Revealed {
        seal_definition: s1,
        assigned_state: amount::Revealed { amount: 0, blinding: scalar(0) },
    }]);
    assert_eq!(bad.try_all_state_pedersen(), None);
}

#[test]
fn set_conceal_except_merges_equal_assignments() {
    let s = outpoint(8);
    let st = data::Revealed::U8(8);
    let mut set = AssignmentsVariant::HashBased(vec![
        Assignment::Revealed { seal_definition: s, assigned_state: st },
        Assignment::ConfidentialAmount { seal_definition: s, assigned_state: st.conceal() },
        Assignment::ConfidentialSeal { seal_definition: hash_seal(9), assigned_state: st },
    ]);
    let seals_before = set.all_seals();
    assert_eq!(set.conceal_except(&vec![hash_seal(9)]), 1);
    assert_eq!(set.len(), 2);
    match &set {
        AssignmentsVariant::HashBased(items) => {
            assert_eq!(items[0], Assignment::ConfidentialSeal { seal_definition: hash_seal(9), assigned_state: st });
            assert_eq!(items[1], Assignment::ConfidentialAmount { seal_definition: s, assigned_state: st.conceal() });
        }
        _ => panic!("kind changed"),
    }
    let seals_after = set.all_seals();
    for x in &seals_before {
        assert!(seals_after.contains(x));
    }
    assert_eq!(set.conceal_except(&vec![hash_seal(9)]), 0);
    assert_eq!(set.len(), 2);
}

#[test]
fn declarative_encoding_bytes() {
    let set = AssignmentsVariant::Declarative(vec![Assignment::Confidential {
        seal_definition: hash_seal(0xab),
        assigned_state: data::Void,
    }]);
    let mut out = Vec::new();
    assert_eq!(set.strict_encode(&mut out), Ok(36));
    let mut expected = vec![0u8, 1, 0, 0];
    expected.extend_from_slice(&[0xab; 32]);
    assert_eq!(out, expected);
    let (back, n) = AssignmentsVariant::strict_decode(&out, 0).unwrap();
    assert_eq!(n, 36);
    match back {
        AssignmentsVariant::Declarative(items) => {
            assert_eq!(items, vec![Assignment::Confidential { seal_definition: hash_seal(0xab), assigned_state: data::Void }]);
        }
        _ => panic!("wrong kind"),
    }
}

#[test]
fn pedersen_set_roundtrip() {
    let r = amount::Revealed { amount: 500, blinding: scalar(11) };
    let items = vec![
        Assignment::Confidential { seal_definition: hash_seal(3), assigned_state: commit(1, &scalar(1)) },
        Assignment::Revealed { seal_definition: outpoint(1), assigned_state: r },
        Assignment::ConfidentialSeal { seal_definition: hash_seal(2), assigned_state: r },
        Assignment::ConfidentialAmount { seal_definition: seal::Revealed::WitnessVout { vout: 1, blinding: 2 }, assigned_state: commit(500, &scalar(11)) },
    ];
    let set = AssignmentsVariant::PedersenBased(items.clone());
    let mut out = vec![0xee];
    let n = set.strict_encode(&mut out).unwrap();
    assert_eq!(n, out.len() - 1);
    assert_eq!(&out[1..4], &[1, 3, 4]);
    out.push(0x55);
    let (back, m) = AssignmentsVariant::strict_decode(&out, 1).unwrap();
    assert_eq!(m, n);
    match back {
        AssignmentsVariant::PedersenBased(decoded) => assert_eq!(decoded, items),
        _ => panic!("wrong kind"),
    }
}

#[test]
fn hash_set_roundtrip() {
    let items = vec![
        Assignment::Revealed { seal_definition: outpoint(4), assigned_state: data::Revealed::U32(4) },
        Assignment::ConfidentialSeal { seal_definition: hash_seal(5), assigned_state: data::Revealed::U64(5) },
    ];
    let set = AssignmentsVariant::HashBased(items.clone());
    let mut out = Vec::new();
    let n = set.strict_encode(&mut out).unwrap();
    assert_eq!(out[0], 2);
    let (back, m) = AssignmentsVariant::strict_decode(&out, 0).unwrap();
    assert_eq!(m, n);
    match back {
        AssignmentsVariant::HashBased(decoded) => assert_eq!(decoded, items),
        _ => panic!("wrong kind"),
    }
}

#[test]
fn assignment_roundtrip_and_unknown_tag() {
    let a: Assignment<HashStrategy> =
        Assignment::ConfidentialAmount { seal_definition: outpoint(6), assigned_state: data::Revealed::U8(6).conceal() };
    let mut out = Vec::new();
    let n = a.strict_encode(&mut out);
    assert_eq!(out[0], 3);
    assert_eq!(Assignment::<HashStrategy>::strict_decode(&out, 0), Ok((a, n)));
    out[0] = 4;
    assert_eq!(
        Assignment::<HashStrategy>::strict_decode(&out, 0),
        Err(Error::EnumValueNotKnown("Assignment".to_string(), 4))
    );
}

#[test]
fn decoding_errors() {
    assert_eq!(
        AssignmentsVariant::strict_decode(&[5], 0).unwrap_err(),
        Error::EnumValueNotKnown("StateType".to_string(), 5)
    );
    assert_eq!(
        AssignmentsVariant::strict_decode(&[1, 0, 0, 0], 0).unwrap_err(),
        Error::UnsupportedDataStructure("We support only homomorphic commitments to U64 data".to_string())
    );
    assert_eq!(
        AssignmentsVariant::strict_decode(&[1, 9], 0).unwrap_err(),
        Error::EnumValueNotKnown("EncodingTag".to_string(), 9)
    );
    assert_eq!(
        AssignmentsVariant::strict_decode(&[0, 1, 0, 7], 0).unwrap_err(),
        Error::EnumValueNotKnown("Assignment".to_string(), 7)
    );
    assert_eq!(AssignmentsVariant::strict_decode(&[0, 1], 0).unwrap_err(), Error::UnexpectedEof);
    assert_eq!(AssignmentsVariant::strict_decode(&[], 0).unwrap_err(), Error::UnexpectedEof);
    assert_eq!(
        AssignmentsVariant::strict_decode(&[0, 1, 0, 0, 1, 2], 0).unwrap_err(),
        Error::UnexpectedEof
    );
}

#[test]
fn decoding_merges_repeated_items() {
    let mut out = vec![0u8, 2, 0];
    for _ in 0..2 {
        out.push(0);
        out.extend_from_slice(&[0x11; 32]);
    }
    let (back, n) = AssignmentsVariant::strict_decode(&out, 0).unwrap();
    assert_eq!(n, out.len());
    assert_eq!(back.len(), 1);
}

#[test]
fn encoding_refuses_too_many_items() {
    let item: Assignment<VoidStrategy> =
        Assignment::Confidential { seal_definition: hash_seal(1), assigned_state: data::Void };
    let set = AssignmentsVariant::Declarative(vec![item; 65536]);
    let mut out = Vec::new();
    assert_eq!(set.strict_encode(&mut out), Err(Error::ExceedMaxItems(65536)));
    assert_eq!(out, vec![0]);
}

#[test]
fn zero_balanced_without_allocations_is_none() {
    let inputs = vec![amount::Revealed { amount: 3, blinding: scalar(2) }];
    assert!(AssignmentsVariant::zero_balanced(inputs, vec![], vec![]).is_none());
}

#[test]
fn zero_balanced_assigns_allocations() {
    let inputs = vec![amount::Revealed { amount: 15, blinding: scalar(2) }];
    let ours = vec![(outpoint(1), 10u64)];
    let theirs = vec![(hash_seal(2), 5u64)];
    let set = AssignmentsVariant::zero_balanced(inputs, ours, theirs).unwrap();
    assert!(set.is_pederse_based());
    assert_eq!(set.len(), 2);
    assert_eq!(set.known_seals(), vec![&outpoint(1)]);
    assert_eq!(set.all_seals(), vec![outpoint(1).conceal(), hash_seal(2)]);
    let amounts: Vec<u64> = set.known_state_homomorphic().iter().map(|r| r.amount).collect();
    assert_eq!(amounts, vec![10, 5]);
}

#[test]
fn zero_balanced_corrects_the_last_of_ours() {
    // blind_sum([1], [2, 4]) = 1 - 6, negated: 5; our last blinding 2 becomes 7.
    let inputs = vec![amount::Revealed { amount: 15, blinding: scalar(1) }];
    let ours = vec![(outpoint(1), 10u64)];
    let theirs = vec![(hash_seal(2), 5u64)];
    let set = AssignmentsVariant::zero_balanced_with_blindings(&inputs, &ours, &theirs, &vec![scalar(2), scalar(4)]).unwrap();
    match set {
        AssignmentsVariant::PedersenBased(items) => assert_eq!(
            items,
            vec![
                Assignment::Revealed { seal_definition: outpoint(1), assigned_state: amount::Revealed { amount: 10, blinding: scalar(7) } },
                Assignment::ConfidentialSeal { seal_definition: hash_seal(2), assigned_state: amount::Revealed { amount: 5, blinding: scalar(4) } },
            ]
        ),
        _ => panic!("wrong kind"),
    }
}

#[test]
fn zero_balanced_corrects_the_last_of_theirs_without_ours() {
    // No inputs: one zero key. blind_sum([0], [3, 5]) = -8, negated: 8; their last 5 becomes 13.
    let theirs = vec![(hash_seal(2), 5u64), (hash_seal(3), 6u64)];
    let set = AssignmentsVariant::zero_balanced_with_blindings(&vec![], &vec![], &theirs, &vec![scalar(3), scalar(5)]).unwrap();
    match set {
        AssignmentsVariant::PedersenBased(items) => assert_eq!(
            items,
            vec![
                Assignment::ConfidentialSeal { seal_definition: hash_seal(2), assigned_state: amount::Revealed { amount: 5, blinding: scalar(3) } },
                Assignment::ConfidentialSeal { seal_definition: hash_seal(3), assigned_state: amount::Revealed { amount: 6, blinding: scalar(13) } },
            ]
        ),
        _ => panic!("wrong kind"),
    }
}

#[test]
fn zero_balanced_refuses_a_zero_blinding_sum() {
    let inputs = vec![amount::Revealed { amount: 15, blinding: scalar(6) }];
    let ours = vec![(outpoint(1), 10u64)];
    assert!(AssignmentsVariant::zero_balanced_with_blindings(&inputs, &ours, &vec![], &vec![scalar(6)]).is_none());
}

#[test]
fn conceal_keeps_the_concealed_parts() {
    let r = amount::Revealed { amount: 9, blinding: scalar(4) };
    let a: Assignment<PedersenStrategy> =
        Assignment::ConfidentialSeal { seal_definition: hash_seal(1), assigned_state: r };
    let c = a.conceal();
    assert_eq!(c.assigned_state_confidential(), a.assigned_state_confidential());
    assert_eq!(c.assigned_state_confidential(), commit(9, &scalar(4)));
    assert_eq!(c.seal_definition_confidential(), hash_seal(1));
    assert_eq!(c.assigned_state(), None);
}

#[test]
fn seal_and_data_encodings_roundtrip() {
    let s = outpoint(2);
    let mut out = Vec::new();
    assert_eq!(s.strict_encode(&mut out), 43);
    assert_eq!(out[0], 0);
    assert_eq!(seal::Revealed::strict_decode(&out, 0), Ok((s, 43)));
    out[0] = 2;
    assert_eq!(
        seal::Revealed::strict_decode(&out, 0),
        Err(Error::EnumValueNotKnown("seal::Revealed".to_string(), 2))
    );

    let w = seal::Revealed::WitnessVout { vout: 0x0102, blinding: 3 };
    let mut out = Vec::new();
    assert_eq!(w.strict_encode(&mut out), 11);
    assert_eq!(out, vec![1, 2, 1, 3, 0, 0, 0, 0, 0, 0, 0]);
    assert_eq!(seal::Revealed::strict_decode(&out, 0), Ok((w, 11)));

    let d = data::Revealed::U64(0x0102030405060708);
    let mut out = Vec::new();
    assert_eq!(d.strict_encode(&mut out), 9);
    assert_eq!(out, vec![3, 8, 7, 6, 5, 4, 3, 2, 1]);
    assert_eq!(data::Revealed::strict_decode(&out, 0), Ok((d, 9)));
    assert_eq!(
        data::Revealed::strict_decode(&[7, 0], 0),
        Err(Error::EnumValueNotKnown("EncodingTag".to_string(), 7))
    );
    assert_eq!(data::Revealed::strict_decode(&[2, 0], 0), Err(Error::UnexpectedEof));

    let r = amount::Revealed { amount: 77, blinding: scalar(9) };
    let mut out = Vec::new();
    assert_eq!(r.strict_encode(&mut out), 40);
    assert_eq!(&out[..8], &77u64.to_le_bytes());
    assert_eq!(out[39], 9);
    assert_eq!(amount::Revealed::strict_decode(&out, 0), Ok((r, 40)));
}

fn decode_declarative(items: Vec<Assignment<VoidStrategy>>) -> Vec<Assignment<VoidStrategy>> {
    let mut out = Vec::new();
    AssignmentsVariant::Declarative(items).strict_encode(&mut out).unwrap();
    match AssignmentsVariant::strict_decode(&out, 0).unwrap().0 {
        AssignmentsVariant::Declarative(decoded) => decoded,
        _ => panic!("wrong kind"),
    }
}

#[test]
fn sets_keep_ascending_order() {
    let s1 = outpoint(1);
    let s2 = outpoint(2);
    let decoded = decode_declarative(vec![
        Assignment::ConfidentialAmount { seal_definition: s1, assigned_state: data::Void },
        Assignment::Revealed { seal_definition: s2, assigned_state: data::Void },
    ]);
    assert_eq!(
        decoded,
        vec![
            Assignment::Revealed { seal_definition: s2, assigned_state: data::Void },
            Assignment::ConfidentialAmount { seal_definition: s1, assigned_state: data::Void },
        ]
    );
    let set = AssignmentsVariant::Declarative(decoded);
    assert_eq!(set.known_seals(), vec![&s2, &s1]);
    assert_eq!(set.all_seals(), vec![s2.conceal(), s1.conceal()]);
    let mut out = Vec::new();
    set.strict_encode(&mut out).unwrap();
    assert_eq!(&out[0..4], &[0, 2, 0, 1]);
}

#[test]
fn sets_order_by_seal_bytes_within_a_variant() {
    let mut low = [0u8; 32];
    low[0] = 1;
    low[31] = 9;
    let mut high = [0u8; 32];
    high[0] = 2;
    let a = Assignment::Confidential { seal_definition: seal::Confidential { hash: b32(high) }, assigned_state: data::Void };
    let b = Assignment::Confidential { seal_definition: seal::Confidential { hash: b32(low) }, assigned_state: data::Void };
    assert_eq!(decode_declarative(vec![a, b, a]), vec![b, a]);
    assert!(b.precedes(&a));
    assert!(!a.precedes(&b));
    assert!(!a.precedes(&a));
    let w = Assignment::Revealed {
        seal_definition: seal::Revealed::WitnessVout { vout: 0, blinding: 0 },
        assigned_state: data::Void,
    };
    let t = Assignment::Revealed { seal_definition: outpoint(200), assigned_state: data::Void };
    assert!(t.precedes(&w));
    assert!(a.precedes(&t));
}

#[test]
fn equal_sets_encode_equally() {
    let x = Assignment::Confidential { seal_definition: hash_seal(4), assigned_state: data::Void };
    let y = Assignment::ConfidentialSeal { seal_definition: hash_seal(1), assigned_state: data::Void };
    let z = Assignment::Revealed { seal_definition: outpoint(3), assigned_state: data::Void };
    let one = decode_declarative(vec![z, y, x]);
    let two = decode_declarative(vec![y, x, z, y]);
    assert_eq!(one, two);
    assert_eq!(one, vec![x, z, y]);
    let (mut e1, mut e2) = (Vec::new(), Vec::new());
    AssignmentsVariant::Declarative(one).strict_encode(&mut e1).unwrap();
    AssignmentsVariant::Declarative(two).strict_encode(&mut e2).unwrap();
    assert_eq!(e1, e2);
}

#[test]
fn amounts_order_by_amount_then_blinding() {
    let a = amount::Revealed { amount: 5, blinding: scalar(9) };
    let b = amount::Revealed { amount: 7, blinding: scalar(1) };
    let c = amount::Revealed { amount: 7, blinding: scalar(2) };
    let s = hash_seal(1);
    let mk = |r| Assignment::<PedersenStrategy>::ConfidentialSeal { seal_definition: s, assigned_state: r };
    let mut out = Vec::new();
    AssignmentsVariant::PedersenBased(vec![mk(c), mk(a), mk(b)]).strict_encode(&mut out).unwrap();
    match AssignmentsVariant::strict_decode(&out, 0).unwrap().0 {
        AssignmentsVariant::PedersenBased(decoded) => assert_eq!(decoded, vec![mk(a), mk(b), mk(c)]),
        _ => panic!("wrong kind"),
    }
}

#[test]
fn set_conceal_except_keeps_revealed_seals_and_commitments() {
    let s = outpoint(5);
    let st = data::Revealed::U16(77);
    let mut set = AssignmentsVariant::HashBased(vec![
        Assignment::Revealed { seal_definition: s, assigned_state: st },
        Assignment::ConfidentialSeal { seal_definition: hash_seal(6), assigned_state: data::Revealed::U8(1) },
    ]);
    let known_before: Vec<seal::Revealed> = set.known_seals().into_iter().cloned().collect();
    let hashed_before = set.all_state_hashed();
    assert_eq!(set.conceal_except(&vec![]), 2);
    let known_after: Vec<seal::Revealed> = set.known_seals().into_iter().cloned().collect();
    assert_eq!(known_after, known_before);
    let hashed_after = set.all_state_hashed();
    assert_eq!(hashed_after.len(), hashed_before.len());
    for h in &hashed_before {
        assert!(hashed_after.contains(h));
    }
    assert!(set.known_state_data().is_empty());
}

#[test]
fn zero_balanced_calls_agree_but_for_blindings() {
    let inputs = vec![amount::Revealed { amount: 30, blinding: scalar(2) }];
    let ours = vec![(outpoint(7), 10u64), (outpoint(3), 12u64)];
    let theirs = vec![(hash_seal(5), 8u64)];
    let one = AssignmentsVariant::zero_balanced(inputs.clone(), ours.clone(), theirs.clone()).unwrap();
    let two = AssignmentsVariant::zero_balanced(inputs, ours, theirs).unwrap();
    assert_eq!(one.all_seals(), two.all_seals());
    assert_eq!(one.known_seals(), two.known_seals());
    assert_eq!(one.known_seals(), vec![&outpoint(3), &outpoint(7)]);
    let amounts = |s: &AssignmentsVariant| -> Vec<u64> {
        s.known_state_homomorphic().iter().map(|r| r.amount).collect()
    };
    assert_eq!(amounts(&one), vec![12, 10, 8]);
    assert_eq!(amounts(&one), amounts(&two));
}
