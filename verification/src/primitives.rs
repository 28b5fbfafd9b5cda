//! Hash values and the stand-in hash functions used for commitments:
//! byte-lane accumulators with the shape of Poseidon, Blake3 and a Merkle
//! root.

use vstd::prelude::*;

verus! {

/// A 32-byte digest.
#[derive(Debug, Clone, Copy, Eq)]
pub struct Hash(pub(crate) [u8; 32]);

/// The digest whose every byte is zero.
pub open spec fn zero_digest() -> Seq<u8> {
    Seq::new(32, |i: int| 0u8)
}

impl View for Hash {
    type V = Seq<u8>;

    closed spec fn view(&self) -> Seq<u8> {
        self.0@
    }
}

impl PartialEq for Hash {
    /// Compares the digests byte by byte.
    fn eq(&self, other: &Self) -> (r: bool) {
        let mut i: usize = 0;
        while i < 32
            invariant
                i <= 32,
                self.0@.len() == 32,
                other.0@.len() == 32,
                forall|k: int| 0 <= k < i ==> self.0@[k] == other.0@[k],
            decreases 32 - i,
        {
            if self.0[i] != other.0[i] {
                return false;
            }
            i = i + 1;
        }
        assert(self.0@ =~= other.0@);
        true
    }
}

impl vstd::std_specs::cmp::PartialEqSpecImpl for Hash {
    open spec fn obeys_eq_spec() -> bool {
        true
    }

    open spec fn eq_spec(&self, other: &Self) -> bool {
        self@ == other@
    }
}

impl Hash {
    /// A digest with the given bytes.
    pub fn new(data: [u8; 32]) -> (h: Self)
        ensures
            h@ == data@,
            h@.len() == 32,
    {
        Hash(data)
    }

    /// The bytes of the digest.
    pub fn as_bytes(&self) -> (b: &[u8; 32])
        ensures
            b@ == self@,
            self@.len() == 32,
    {
        &self.0
    }
}

/// Every digest has 32 bytes.
pub proof fn lemma_digest_len(h: Hash)
    ensures
        h@.len() == 32,
{
}

/// Digests are equal exactly when their bytes are.
pub proof fn lemma_digest_eq_iff_bytes_eq(a: Hash, b: Hash)
    ensures
        a == b <==> a@ == b@,
{
    if a@ == b@ {
        assert(a.0 =~= b.0);
    }
}

/// Lane `j` of the Poseidon stand-in: the sum, modulo 256, of the low bytes
/// of the inputs at positions congruent to `j` modulo 32.
pub open spec fn poseidon_lane(inputs: Seq<u32>, j: int) -> u8
    decreases inputs.len(),
{
    if inputs.len() == 0 {
        0
    } else {
        let prev = poseidon_lane(inputs.drop_last(), j);
        if (inputs.len() - 1) % 32 == j {
            ((prev + (inputs.last() as u8)) % 256) as u8
        } else {
            prev
        }
    }
}

/// The total of the low bytes (`x % 256`) of the inputs at positions
/// congruent to `j` modulo 32, without reduction.
pub open spec fn low_byte_total(inputs: Seq<u32>, j: int) -> int
    decreases inputs.len(),
{
    if inputs.len() == 0 {
        0
    } else {
        low_byte_total(inputs.drop_last(), j) + if (inputs.len() - 1) % 32 == j {
            inputs.last() % 256
        } else {
            0
        }
    }
}

proof fn lemma_poseidon_lane_is_total(inputs: Seq<u32>, j: int)
    ensures
        poseidon_lane(inputs, j) == low_byte_total(inputs, j) % 256,
        low_byte_total(inputs, j) >= 0,
    decreases inputs.len(),
{
    if inputs.len() > 0 {
        let rest = inputs.drop_last();
        lemma_poseidon_lane_is_total(rest, j);
        if (inputs.len() - 1) % 32 == j {
            let x = inputs.last();
            assert((x as u8) as int == x % 256) by (bit_vector);
            vstd::arithmetic::div_mod::lemma_add_mod_noop(low_byte_total(rest, j), (x % 256) as int, 256);
            vstd::arithmetic::div_mod::lemma_small_mod((x % 256) as nat, 256);
        }
    }
}

/// Lane `j` of the Poseidon digest is the sum, modulo 256, of the low
/// bytes of the inputs at positions congruent to `j` modulo 32.
pub proof fn law_poseidon_lane_sums_low_bytes(inputs: Seq<u32>, j: int)
    requires
        0 <= j < 32,
    ensures
        poseidon_digest(inputs)[j] == low_byte_total(inputs, j) % 256,
{
    lemma_poseidon_lane_is_total(inputs, j);
}

proof fn lemma_low_byte_total_of_low_bytes(inputs: Seq<u32>, j: int)
    ensures
        low_byte_total(inputs.map_values(|x: u32| x % 256), j) == low_byte_total(inputs, j),
    decreases inputs.len(),
{
    let low = inputs.map_values(|x: u32| x % 256);
    if inputs.len() > 0 {
        let rest = inputs.drop_last();
        assert(low.drop_last() =~= rest.map_values(|x: u32| x % 256));
        lemma_low_byte_total_of_low_bytes(rest, j);
        let x = inputs.last();
        assert(low.last() == x % 256);
        vstd::arithmetic::div_mod::lemma_small_mod((x % 256) as nat, 256);
    }
}

/// The Poseidon digest depends on the low byte of each input alone:
/// reducing every input modulo 256 leaves it unchanged.
pub proof fn law_poseidon_reads_low_bytes_only(inputs: Seq<u32>)
    ensures
        poseidon_digest(inputs.map_values(|x: u32| x % 256)) == poseidon_digest(inputs),
{
    let low = inputs.map_values(|x: u32| x % 256);
    assert forall|j: int| 0 <= j < 32 implies #[trigger] poseidon_digest(low)[j] == poseidon_digest(inputs)[j] by {
        lemma_poseidon_lane_is_total(low, j);
        lemma_poseidon_lane_is_total(inputs, j);
        lemma_low_byte_total_of_low_bytes(inputs, j);
    }
    assert(poseidon_digest(low) =~= poseidon_digest(inputs));
}

/// Lane `j` of the Blake3 stand-in: the exclusive or of the input bytes at
/// positions congruent to `j` modulo 32.
pub open spec fn blake3_lane(inputs: Seq<u8>, j: int) -> u8
    decreases inputs.len(),
{
    if inputs.len() == 0 {
        0
    } else {
        let prev = blake3_lane(inputs.drop_last(), j);
        if (inputs.len() - 1) % 32 == j {
            prev ^ inputs.last()
        } else {
            prev
        }
    }
}

/// Byte `j` of the Merkle root stand-in: the exclusive or of byte `j` of
/// every leaf.
pub open spec fn merkle_lane(leaves: Seq<Hash>, j: int) -> u8
    decreases leaves.len(),
{
    if leaves.len() == 0 {
        0
    } else {
        merkle_lane(leaves.drop_last(), j) ^ leaves.last()@[j]
    }
}

/// The Poseidon stand-in as a digest.
pub open spec fn poseidon_digest(inputs: Seq<u32>) -> Seq<u8> {
    Seq::new(32, |j: int| poseidon_lane(inputs, j))
}

/// The Blake3 stand-in as a digest.
pub open spec fn blake3_digest(inputs: Seq<u8>) -> Seq<u8> {
    Seq::new(32, |j: int| blake3_lane(inputs, j))
}

/// The Merkle root stand-in as a digest.
pub open spec fn merkle_root(leaves: Seq<Hash>) -> Seq<u8> {
    Seq::new(32, |j: int| merkle_lane(leaves, j))
}

/// The root over a single leaf is that leaf.
pub proof fn law_single_leaf_root(leaf: Hash)
    ensures
        merkle_root(seq![leaf]) == leaf@,
{
    let s = seq![leaf];
    assert forall|j: int| 0 <= j < 32 implies #[trigger] merkle_root(s)[j] == leaf@[j] by {
        assert(s.drop_last() =~= Seq::<Hash>::empty());
        assert(merkle_lane(s.drop_last(), j) == 0);
        let b = leaf@[j];
        assert(merkle_lane(s, j) == 0u8 ^ b);
        assert(0u8 ^ b == b) by (bit_vector);
    }
    assert(merkle_root(s) =~= leaf@);
}

/// Hashing nothing gives the zero digest, for both hashes.
pub proof fn law_empty_input_hashes_to_zero()
    ensures
        poseidon_digest(seq![]) == zero_digest(),
        blake3_digest(seq![]) == zero_digest(),
        merkle_root(seq![]) == zero_digest(),
{
    assert(poseidon_digest(seq![]) =~= zero_digest());
    assert(blake3_digest(seq![]) =~= zero_digest());
    assert(merkle_root(seq![]) =~= zero_digest());
}

/// The in-circuit hash.
pub struct Poseidon;

impl Poseidon {
    /// Accumulates the low byte of each input into lane `i % 32`, wrapping.
    pub fn hash(inputs: &[u32]) -> (h: Hash)
        ensures
            h@ == poseidon_digest(inputs@),
    {
        let mut out = [0u8; 32];
        let mut i: usize = 0;
        while i < inputs.len()
            invariant
                i <= inputs@.len(),
                forall|j: int| 0 <= j < 32 ==> #[trigger] out@[j] == poseidon_lane(inputs@.subrange(0, i as int), j),
            decreases inputs@.len() - i,
        {
            let lane = i % 32;
            let val = inputs[i];
            out[lane] = out[lane].wrapping_add(val as u8);
            i = i + 1;
            assert forall|j: int| 0 <= j < 32 implies #[trigger] out@[j] == poseidon_lane(inputs@.subrange(0, i as int), j) by {
                assert(inputs@.subrange(0, i as int).drop_last() =~= inputs@.subrange(0, i - 1));
            }
        }
        assert(inputs@.subrange(0, i as int) =~= inputs@);
        let h = Hash(out);
        assert(h@ =~= poseidon_digest(inputs@));
        h
    }
}

/// The out-of-circuit hash.
pub struct Blake3;

impl Blake3 {
    /// Folds each input byte into lane `i % 32` by exclusive or.
    pub fn hash(inputs: &[u8]) -> (h: Hash)
        ensures
            h@ == blake3_digest(inputs@),
    {
        let mut out = [0u8; 32];
        let mut i: usize = 0;
        while i < inputs.len()
            invariant
                i <= inputs@.len(),
                forall|j: int| 0 <= j < 32 ==> #[trigger] out@[j] == blake3_lane(inputs@.subrange(0, i as int), j),
            decreases inputs@.len() - i,
        {
            let lane = i % 32;
            out[lane] = out[lane] ^ inputs[i];
            i = i + 1;
            assert forall|j: int| 0 <= j < 32 implies #[trigger] out@[j] == blake3_lane(inputs@.subrange(0, i as int), j) by {
                assert(inputs@.subrange(0, i as int).drop_last() =~= inputs@.subrange(0, i - 1));
            }
        }
        assert(inputs@.subrange(0, i as int) =~= inputs@);
        let h = Hash(out);
        assert(h@ =~= blake3_digest(inputs@));
        h
    }
}

/// A commitment to a set of leaves.
pub struct MerkleTree {
    pub root: Hash,
}

impl MerkleTree {
    /// The root: the byte-wise exclusive or of all leaves.
    pub fn build(leaves: &[Hash]) -> (t: Self)
        ensures
            t.root@ == merkle_root(leaves@),
    {
        let mut root = [0u8; 32];
        let mut k: usize = 0;
        while k < leaves.len()
            invariant
                k <= leaves@.len(),
                forall|j: int| 0 <= j < 32 ==> #[trigger] root@[j] == merkle_lane(leaves@.subrange(0, k as int), j),
            decreases leaves@.len() - k,
        {
            let leaf = leaves[k];
            let mut i: usize = 0;
            while i < 32
                invariant
                    k < leaves@.len(),
                    leaf == leaves@[k as int],
                    i <= 32,
                    forall|j: int| 0 <= j < i ==> #[trigger] root@[j] == merkle_lane(leaves@.subrange(0, k + 1), j),
                    forall|j: int| i <= j < 32 ==> #[trigger] root@[j] == merkle_lane(leaves@.subrange(0, k as int), j),
                decreases 32 - i,
            {
                assert(leaves@.subrange(0, k + 1).drop_last() =~= leaves@.subrange(0, k as int));
                root[i] = root[i] ^ leaf.0[i];
                i = i + 1;
            }
            k = k + 1;
        }
        assert(leaves@.subrange(0, k as int) =~= leaves@);
        let t = MerkleTree { root: Hash(root) };
        assert(t.root@ =~= merkle_root(leaves@));
        t
    }
}

} // verus!
