use bit_set::BitSet;
use bit_vec::BitVec;
use vstd::prelude::*;

verus! {

/// Declared so that bit vectors can be built and handed to a `BitSet`.
#[verifier::external_type_specification]
#[verifier::external_body]
#[verifier::reject_recursive_types(B)]
pub struct ExBitVec<B>(BitVec<B>);

/// The bits of a bit vector, in order.
pub uninterp spec fn bitvec_bits(v: BitVec) -> Seq<bool>;

/// Relies on `BitVec::from_elem`: `len` bits, each equal to `bit`.
#[verifier::external_body]
pub fn bitvec_from_elem(len: usize, bit: bool) -> (r: BitVec)
    ensures
        bitvec_bits(r) == Seq::new(len as nat, |i: int| bit),
{
    BitVec::from_elem(len, bit)
}

/// A set of block numbers, kept in a `bit_set::BitSet`. (Verus does not take the
/// declaration of `BitSet` itself, whose parameter is bound by an outside trait.)
#[verifier::external_body]
pub struct BlockSet {
    bits: BitSet,
}

/// The members of a block set.
pub uninterp spec fn block_set_members(s: BlockSet) -> Set<int>;

impl BlockSet {
    /// Relies on `BitSet::from_bit_vec`: the members are the indices of the set bits.
    #[verifier::external_body]
    pub fn from_bit_vec(v: BitVec) -> (r: BlockSet)
        ensures
            block_set_members(r) == Set::new(
                |i: int| 0 <= i < bitvec_bits(v).len() && bitvec_bits(v)[i],
            ),
    {
        BlockSet { bits: BitSet::from_bit_vec(v) }
    }

    /// Relies on `BitSet::new`: an empty set.
    #[verifier::external_body]
    pub fn new() -> (r: BlockSet)
        ensures
            block_set_members(r) == Set::<int>::empty(),
    {
        BlockSet { bits: BitSet::new() }
    }

    /// Relies on `BitSet::contains`: membership.
    #[verifier::external_body]
    pub fn contains(&self, value: usize) -> (r: bool)
        ensures
            r == block_set_members(*self).contains(value as int),
    {
        self.bits.contains(value)
    }

    /// Relies on `BitSet::insert`: adds `value`, and says whether it was absent. The set
    /// grows to `value + 1` bits, which must not overflow.
    #[verifier::external_body]
    pub fn insert(&mut self, value: usize) -> (r: bool)
        requires
            value < usize::MAX,
        ensures
            block_set_members(*final(self)) == block_set_members(*old(self)).insert(value as int),
            r == !block_set_members(*old(self)).contains(value as int),
    {
        self.bits.insert(value)
    }

    /// Relies on `BitSet::remove`: takes `value` out, and says whether it was present.
    #[verifier::external_body]
    pub fn remove(&mut self, value: usize) -> (r: bool)
        ensures
            block_set_members(*final(self)) == block_set_members(*old(self)).remove(value as int),
            r == block_set_members(*old(self)).contains(value as int),
    {
        self.bits.remove(value)
    }
}

} // verus!
