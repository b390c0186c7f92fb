//! The order of the values that sets of assignments hold.
//!
//! Each value has a sort key, a sequence of numbers that lists its variant's
//! rank and then its fields in declaration order (byte strings byte by
//! byte). Values are ordered by their keys lexicographically, where a key
//! comes before a longer key that it begins. This is the order that
//! deriving `Ord` gives: variants by rank, then fields one after the other,
//! byte arrays byte by byte.
use crate::amount;
use crate::bytes32::Bytes32;
use crate::data;
use crate::seal;
use vstd::prelude::*;

verus! {

/// Whether key `a` comes before key `b`.
pub open spec fn spec_key_less(a: Seq<u64>, b: Seq<u64>) -> bool
    decreases a.len(),
{
    if b.len() == 0 {
        false
    } else if a.len() == 0 {
        true
    } else if a[0] < b[0] {
        true
    } else if a[0] > b[0] {
        false
    } else {
        spec_key_less(a.drop_first(), b.drop_first())
    }
}

/// No key comes before itself.
pub proof fn lemma_key_less_irreflexive(a: Seq<u64>)
    ensures
        !spec_key_less(a, a),
    decreases a.len(),
{
    if a.len() > 0 {
        lemma_key_less_irreflexive(a.drop_first());
    }
}

/// The order of keys is transitive.
pub proof fn lemma_key_less_transitive(a: Seq<u64>, b: Seq<u64>, c: Seq<u64>)
    requires
        spec_key_less(a, b),
        spec_key_less(b, c),
    ensures
        spec_key_less(a, c),
    decreases a.len(),
{
    if a.len() > 0 && b.len() > 0 && c.len() > 0 && a[0] == b[0] && b[0] == c[0] {
        lemma_key_less_transitive(a.drop_first(), b.drop_first(), c.drop_first());
    }
}

/// Of two different keys, one comes before the other.
pub proof fn lemma_key_less_total(a: Seq<u64>, b: Seq<u64>)
    requires
        a != b,
    ensures
        spec_key_less(a, b) || spec_key_less(b, a),
    decreases a.len(),
{
    if a.len() > 0 && b.len() > 0 && a[0] == b[0] {
        if a.drop_first() == b.drop_first() {
            assert(a =~= seq![a[0]] + a.drop_first());
            assert(b =~= seq![b[0]] + b.drop_first());
        }
        lemma_key_less_total(a.drop_first(), b.drop_first());
    } else if a.len() == 0 && b.len() == 0 {
        assert(a =~= b);
    }
}

/// Whether key `a` comes before key `b`.
pub fn key_less(a: &Vec<u64>, b: &Vec<u64>) -> (r: bool)
    ensures
        r == spec_key_less(a@, b@),
{
    let mut i: usize = 0;
    assert(a@.skip(0) =~= a@);
    assert(b@.skip(0) =~= b@);
    while i < a.len() && i < b.len()
        invariant
            i <= a@.len(),
            i <= b@.len(),
            spec_key_less(a@, b@) == spec_key_less(a@.skip(i as int), b@.skip(i as int)),
        decreases a@.len() - i,
    {
        if a[i] < b[i] {
            return true;
        }
        if a[i] > b[i] {
            return false;
        }
        assert(a@.skip(i as int).drop_first() =~= a@.skip(i + 1));
        assert(b@.skip(i as int).drop_first() =~= b@.skip(i + 1));
        i = i + 1;
    }
    i < b.len()
}

/// Whether two keys are equal.
pub fn key_equal(a: &Vec<u64>, b: &Vec<u64>) -> (r: bool)
    ensures
        r == (a@ == b@),
{
    proof {
        lemma_key_less_irreflexive(a@);
        if a@ != b@ {
            lemma_key_less_total(a@, b@);
        }
    }
    !key_less(a, b) && !key_less(b, a)
}

/// The key of a byte string: its bytes, one by one.
pub open spec fn bytes_key(s: Seq<u8>) -> Seq<u64> {
    s.map_values(|x: u8| x as u64)
}

/// Byte strings with the same key are equal.
pub proof fn lemma_bytes_key_injective(s: Seq<u8>, t: Seq<u8>)
    ensures
        bytes_key(s) == bytes_key(t) ==> s == t,
{
    if bytes_key(s) == bytes_key(t) {
        assert(bytes_key(s).len() == s.len() && bytes_key(t).len() == t.len());
        assert forall|i: int| 0 <= i < s.len() implies s[i] == t[i] by {
            assert(bytes_key(s)[i] == s[i] as u64);
            assert(bytes_key(t)[i] == t[i] as u64);
        }
        assert(s =~= t);
    }
}

/// Appends the key of `bytes` to `key`.
pub fn push_bytes_key(key: &mut Vec<u64>, bytes: &Vec<u8>)
    ensures
        final(key)@ == old(key)@ + bytes_key(bytes@),
{
    let ghost start = key@;
    let mut i: usize = 0;
    while i < bytes.len()
        invariant
            i <= bytes@.len(),
            key@ =~= start + bytes_key(bytes@.take(i as int)),
        decreases bytes@.len() - i,
    {
        key.push(bytes[i] as u64);
        i = i + 1;
        assert(key@ =~= start + bytes_key(bytes@.take(i as int)));
    }
    assert(bytes@.take(bytes@.len() as int) =~= bytes@);
}

/// A value with a sort key; values with the same key are equal.
pub trait SortKey: Sized {
    /// The sort key.
    spec fn spec_key(&self) -> Seq<u64>;

    /// Computes the sort key.
    fn sort_key(&self) -> (k: Vec<u64>)
        ensures
            k@ == self.spec_key(),
    ;

    /// Values with the same key are equal.
    proof fn lemma_key_injective(&self, other: &Self)
        ensures
            self.spec_key() == other.spec_key() ==> *self == *other,
    ;
}

/// Thirty-two bytes are keyed by their bytes.
impl SortKey for Bytes32 {
    open spec fn spec_key(&self) -> Seq<u64> {
        bytes_key(self.spec_bytes())
    }

    fn sort_key(&self) -> (k: Vec<u64>) {
        let mut k: Vec<u64> = Vec::new();
        push_bytes_key(&mut k, &self.to_bytes());
        assert(k@ =~= self.spec_key());
        k
    }

    proof fn lemma_key_injective(&self, other: &Self) {
        lemma_bytes_key_injective(self.spec_bytes(), other.spec_bytes());
        self.lemma_from_bytes_of_bytes();
        other.lemma_from_bytes_of_bytes();
    }
}

/// A concealed seal is keyed by its hash.
impl SortKey for seal::Confidential {
    open spec fn spec_key(&self) -> Seq<u64> {
        self.hash.spec_key()
    }

    fn sort_key(&self) -> (k: Vec<u64>) {
        self.hash.sort_key()
    }

    proof fn lemma_key_injective(&self, other: &Self) {
        self.hash.lemma_key_injective(&other.hash);
    }
}

/// A revealed seal is keyed by its variant's rank, then its fields.
impl SortKey for seal::Revealed {
    open spec fn spec_key(&self) -> Seq<u64> {
        match *self {
            seal::Revealed::TxOutpoint { txid, vout, blinding } => seq![0u64] + txid.spec_key()
                + seq![vout as u64, blinding],
            seal::Revealed::WitnessVout { vout, blinding } => seq![1u64, vout as u64, blinding],
        }
    }

    fn sort_key(&self) -> (k: Vec<u64>) {
        let mut k: Vec<u64> = Vec::new();
        match self {
            seal::Revealed::TxOutpoint { txid, vout, blinding } => {
                k.push(0);
                push_bytes_key(&mut k, &txid.to_bytes());
                k.push(*vout as u64);
                k.push(*blinding);
            },
            seal::Revealed::WitnessVout { vout, blinding } => {
                k.push(1);
                k.push(*vout as u64);
                k.push(*blinding);
            },
        }
        assert(k@ =~= self.spec_key());
        k
    }

    proof fn lemma_key_injective(&self, other: &Self) {
        let (a, b) = (self.spec_key(), other.spec_key());
        if a == b {
            match (*self, *other) {
                (
                    seal::Revealed::TxOutpoint { txid: t1, vout: v1, blinding: b1 },
                    seal::Revealed::TxOutpoint { txid: t2, vout: v2, blinding: b2 },
                ) => {
                    t1.lemma_bytes_len();
                    t2.lemma_bytes_len();
                    assert(a.subrange(1, 33) =~= t1.spec_key());
                    assert(b.subrange(1, 33) =~= t2.spec_key());
                    t1.lemma_key_injective(&t2);
                    assert(a[33] == v1 as u64 && b[33] == v2 as u64);
                    assert(a[34] == b1 && b[34] == b2);
                },
                (
                    seal::Revealed::TxOutpoint { .. },
                    seal::Revealed::WitnessVout { .. },
                ) => {
                    assert(a[0] != b[0]);
                },
                (
                    seal::Revealed::WitnessVout { .. },
                    seal::Revealed::TxOutpoint { .. },
                ) => {
                    assert(a[0] != b[0]);
                },
                (
                    seal::Revealed::WitnessVout { vout: v1, blinding: b1 },
                    seal::Revealed::WitnessVout { vout: v2, blinding: b2 },
                ) => {
                    assert(a[1] == v1 as u64 && b[1] == v2 as u64);
                    assert(a[2] == b1 && b[2] == b2);
                },
            }
        }
    }
}

/// The empty state has the empty key.
impl SortKey for data::Void {
    open spec fn spec_key(&self) -> Seq<u64> {
        Seq::empty()
    }

    fn sort_key(&self) -> (k: Vec<u64>) {
        let k: Vec<u64> = Vec::new();
        assert(k@ =~= self.spec_key());
        k
    }

    proof fn lemma_key_injective(&self, other: &Self) {
    }
}

/// A data value is keyed by its variant's rank, then its value.
impl SortKey for data::Revealed {
    open spec fn spec_key(&self) -> Seq<u64> {
        match *self {
            data::Revealed::U8(v) => seq![0u64, v as u64],
            data::Revealed::U16(v) => seq![1u64, v as u64],
            data::Revealed::U32(v) => seq![2u64, v as u64],
            data::Revealed::U64(v) => seq![3u64, v],
        }
    }

    fn sort_key(&self) -> (k: Vec<u64>) {
        let mut k: Vec<u64> = Vec::new();
        match self {
            data::Revealed::U8(v) => {
                k.push(0);
                k.push(*v as u64);
            },
            data::Revealed::U16(v) => {
                k.push(1);
                k.push(*v as u64);
            },
            data::Revealed::U32(v) => {
                k.push(2);
                k.push(*v as u64);
            },
            data::Revealed::U64(v) => {
                k.push(3);
                k.push(*v);
            },
        }
        assert(k@ =~= self.spec_key());
        k
    }

    proof fn lemma_key_injective(&self, other: &Self) {
        let (a, b) = (self.spec_key(), other.spec_key());
        if a == b {
            assert(a[0] == b[0]);
            assert(a[1] == b[1]);
        }
    }
}

/// A data hash is keyed by its bytes.
impl SortKey for data::Confidential {
    open spec fn spec_key(&self) -> Seq<u64> {
        self.hash.spec_key()
    }

    fn sort_key(&self) -> (k: Vec<u64>) {
        self.hash.sort_key()
    }

    proof fn lemma_key_injective(&self, other: &Self) {
        self.hash.lemma_key_injective(&other.hash);
    }
}

/// A revealed amount is keyed by the amount, then its blinding factor.
impl SortKey for amount::Revealed {
    open spec fn spec_key(&self) -> Seq<u64> {
        seq![self.amount] + self.blinding.spec_key()
    }

    fn sort_key(&self) -> (k: Vec<u64>) {
        let mut k: Vec<u64> = Vec::new();
        k.push(self.amount);
        push_bytes_key(&mut k, &self.blinding.to_bytes());
        assert(k@ =~= self.spec_key());
        k
    }

    proof fn lemma_key_injective(&self, other: &Self) {
        let (a, b) = (self.spec_key(), other.spec_key());
        if a == b {
            assert(a[0] == b[0]);
            assert(a.drop_first() =~= self.blinding.spec_key());
            assert(b.drop_first() =~= other.blinding.spec_key());
            self.blinding.lemma_key_injective(&other.blinding);
        }
    }
}

/// A commitment is keyed by its thirty-three bytes.
impl SortKey for amount::Confidential {
    open spec fn spec_key(&self) -> Seq<u64> {
        seq![self.commitment.prefix as u64] + self.commitment.point.spec_key()
    }

    fn sort_key(&self) -> (k: Vec<u64>) {
        let mut k: Vec<u64> = Vec::new();
        k.push(self.commitment.prefix as u64);
        push_bytes_key(&mut k, &self.commitment.point.to_bytes());
        assert(k@ =~= self.spec_key());
        k
    }

    proof fn lemma_key_injective(&self, other: &Self) {
        let (a, b) = (self.spec_key(), other.spec_key());
        if a == b {
            assert(a[0] == b[0]);
            assert(a.drop_first() =~= self.commitment.point.spec_key());
            assert(b.drop_first() =~= other.commitment.point.spec_key());
            self.commitment.point.lemma_key_injective(&other.commitment.point);
        }
    }
}

} // verus!
