use vstd::prelude::*;

verus! {

use crate::div_round_up;
use crate::spec_div_round_up;

/// Number of bits in one storage element.
pub const ELEMENT_BITS: usize = 32;

/// Bytes of one storage element.
pub const ELEMENT_BYTES: usize = 4;

/// Bytes taken by the bit-set header (capacity word and element pointer) when
/// the set is carved out of a caller-supplied buffer.
pub const HEADER_BYTES: usize = 16;

/// Number of storage elements required for `bit_count` bits.
pub open spec fn spec_element_count(bit_count: nat) -> nat {
    spec_div_round_up(bit_count, ELEMENT_BITS as nat)
}

/// Value of bit `i` within the element sequence `elements`.
pub open spec fn spec_bit(elements: Seq<u32>, i: int) -> bool {
    elements[i / 32] & (1u32 << ((i % 32) as u32)) != 0
}

/// All bits in `[i, i + count)` of `bits` equal `value`.
pub open spec fn run_matches(bits: Seq<bool>, i: int, count: int, value: bool) -> bool {
    forall|j: int| i <= j < i + count ==> bits[j] == value
}

/// Returns the number of storage elements required for `bit_count` bits.
pub fn get_element_count(bit_count: usize) -> (r: usize)
    ensures
        r == spec_element_count(bit_count as nat),
{
    div_round_up(bit_count, ELEMENT_BITS)
}

/// Returns the number of bytes required for `bit_count` bits.
pub fn get_byte_count(bit_count: usize) -> (r: usize)
    ensures
        r == ELEMENT_BYTES * spec_element_count(bit_count as nat),
{
    let elements = get_element_count(bit_count);
    proof {
        lemma_element_count_small(bit_count as nat);
    }
    elements * ELEMENT_BYTES
}

/// Returns the index of the storage element that contains the bit at
/// `bit_index`.
pub fn get_element_index(bit_index: usize) -> (r: usize)
    ensures
        r == bit_index as int / 32,
{
    bit_index / ELEMENT_BITS
}

/// Returns an element value in which only the bit corresponding to
/// `bit_index` is on.
pub fn mask(bit_index: usize) -> (r: u32)
    ensures
        r == (1u32 << ((bit_index as int % 32) as u32)),
{
    1u32 << ((bit_index % ELEMENT_BITS) as u32)
}

proof fn lemma_element_count_small(bit_count: nat)
    requires
        bit_count <= usize::MAX,
    ensures
        ELEMENT_BYTES * spec_element_count(bit_count) <= usize::MAX,
        HEADER_BYTES + ELEMENT_BYTES * spec_element_count(bit_count) <= usize::MAX,
{
    assert((bit_count + 31) / 32 <= bit_count / 32 + 1) by (nonlinear_arith);
    assert(bit_count / 32 <= usize::MAX as nat / 32) by (nonlinear_arith)
        requires
            bit_count <= usize::MAX,
    ;
}

/// A fixed-capacity array of `cap` bits backed by 32-bit elements.
///
/// A bit is addressed by its index in `[0, cap)`. The capacity is fixed at
/// construction.
pub struct BitSet {
    /// Number of bits in this collection.
    cap: usize,
    /// Storage elements holding the bits.
    elements: Vec<u32>,
}

impl BitSet {
    /// The storage holds exactly as many elements as the capacity needs.
    pub closed spec fn wf(self) -> bool {
        self.elements@.len() == spec_element_count(self.cap as nat)
    }

    /// Capacity in bits.
    pub closed spec fn spec_size(self) -> nat {
        self.cap as nat
    }

    /// The bits of this set, lowest index first.
    pub closed spec fn bits(self) -> Seq<bool> {
        Seq::new(self.cap as nat, |i: int| spec_bit(self.elements@, i))
    }

    /// Creates an empty bit-set with no storage.
    pub fn new() -> (r: BitSet)
        ensures
            r.wf(),
            r.spec_size() == 0,
    {
        BitSet { cap: 0, elements: Vec::new() }
    }

    /// Returns the number of bytes required to accommodate a bit-set with
    /// `cap` bits (for use with `from_buffer`).
    pub fn buffer_size(cap: usize) -> (r: usize)
        ensures
            r == spec_buffer_size(cap as nat),
    {
        proof {
            lemma_element_count_small(cap as nat);
        }
        HEADER_BYTES + get_byte_count(cap)
    }

    /// Creates a bit-set with capacity `cap` bits in `buf_size` bytes of
    /// storage, all bits initially off. `buf_size` must be at least the size
    /// that `buffer_size` reports; a smaller buffer is a fatal error in the
    /// kernel, so it is excluded here.
    pub fn from_buffer(cap: usize, buf_size: usize) -> (r: BitSet)
        requires
            buf_size >= spec_buffer_size(cap as nat),
        ensures
            r.wf(),
            r.spec_size() == cap,
            r.bits() =~= Seq::new(cap as nat, |i: int| false),
    {
        let count = get_element_count(cap);
        let mut elements: Vec<u32> = Vec::new();
        while elements.len() < count
            invariant
                elements@.len() <= count,
                forall|k: int| 0 <= k < elements@.len() ==> elements@[k] == 0u32,
            decreases count - elements@.len(),
        {
            elements.push(0u32);
        }
        let r = BitSet { cap, elements };
        proof {
            assert forall|i: int| 0 <= i < cap implies !spec_bit(r.elements@, i) by {
                assert(0 <= i / 32 < r.elements@.len()) by {
                    lemma_element_index_in_bounds(i, cap as nat);
                }
                let sh = (i % 32) as u32;
                assert(0u32 & (1u32 << sh) == 0) by (bit_vector);
            }
        }
        r
    }

    /// Returns the number of bits.
    pub fn size(&self) -> (r: usize)
        ensures
            r == self.spec_size(),
    {
        self.cap
    }

    /// Returns the value of the bit at `index`.
    pub fn get(&self, index: usize) -> (r: bool)
        requires
            self.wf(),
            index < self.spec_size(),
        ensures
            r == self.bits()[index as int],
    {
        proof {
            lemma_element_index_in_bounds(index as int, self.cap as nat);
        }
        let element = self.elements[get_element_index(index)];
        element & mask(index) != 0
    }

    /// Sets the bit at `index` to `true`.
    pub fn mark(&mut self, index: usize)
        requires
            old(self).wf(),
            index < old(self).spec_size(),
        ensures
            final(self).wf(),
            final(self).spec_size() == old(self).spec_size(),
            final(self).bits() =~= old(self).bits().update(index as int, true),
    {
        proof {
            lemma_element_index_in_bounds(index as int, self.cap as nat);
        }
        let e = get_element_index(index);
        let updated = self.elements[e] | mask(index);
        self.elements.set(e, updated);
        proof {
            let x = old(self).elements@[index as int / 32];
            let k = (index as int % 32) as u32;
            assert(self.elements@[index as int / 32] == x | (1u32 << k));
            assert(forall|j: u32|
                j < 32 ==> ((x | (1u32 << k)) & (1u32 << j) != 0) == (j == k || (x & (1u32 << j)
                    != 0))) by (bit_vector);
            self.lemma_single_element_update(*old(self), index as int, true);
        }
    }

    /// Sets the bit at `index` to `false`.
    pub fn reset(&mut self, index: usize)
        requires
            old(self).wf(),
            index < old(self).spec_size(),
        ensures
            final(self).wf(),
            final(self).spec_size() == old(self).spec_size(),
            final(self).bits() =~= old(self).bits().update(index as int, false),
    {
        proof {
            lemma_element_index_in_bounds(index as int, self.cap as nat);
        }
        let e = get_element_index(index);
        let updated = self.elements[e] & !mask(index);
        self.elements.set(e, updated);
        proof {
            let x = old(self).elements@[index as int / 32];
            let k = (index as int % 32) as u32;
            assert(self.elements@[index as int / 32] == x & !(1u32 << k));
            assert(forall|j: u32|
                j < 32 ==> ((x & !(1u32 << k)) & (1u32 << j) != 0) == (j != k && (x & (1u32 << j)
                    != 0))) by (bit_vector);
            self.lemma_single_element_update(*old(self), index as int, false);
        }
    }

    /// Sets the bit at `index` to `value`.
    pub fn set(&mut self, index: usize, value: bool)
        requires
            old(self).wf(),
            index < old(self).spec_size(),
        ensures
            final(self).wf(),
            final(self).spec_size() == old(self).spec_size(),
            final(self).bits() =~= old(self).bits().update(index as int, value),
    {
        if value {
            self.mark(index);
        } else {
            self.reset(index);
        }
    }

    /// Toggles the bit at `index`.
    pub fn flip(&mut self, index: usize)
        requires
            old(self).wf(),
            index < old(self).spec_size(),
        ensures
            final(self).wf(),
            final(self).spec_size() == old(self).spec_size(),
            final(self).bits() =~= old(self).bits().update(
                index as int,
                !old(self).bits()[index as int],
            ),
    {
        proof {
            lemma_element_index_in_bounds(index as int, self.cap as nat);
        }
        let e = get_element_index(index);
        let updated = self.elements[e] ^ mask(index);
        self.elements.set(e, updated);
        proof {
            let v = !old(self).bits()[index as int];
            let x = old(self).elements@[index as int / 32];
            let k = (index as int % 32) as u32;
            assert(self.elements@[index as int / 32] == x ^ (1u32 << k));
            assert(forall|j: u32|
                j < 32 ==> ((x ^ (1u32 << k)) & (1u32 << j) != 0) == (if j == k {
                    !(x & (1u32 << j) != 0)
                } else {
                    (x & (1u32 << j) != 0)
                })) by (bit_vector);
            assert(old(self).bits()[index as int] == (x & (1u32 << k) != 0));
            self.lemma_single_element_update(*old(self), index as int, v);
        }
    }

    /// Sets all bits to `value`.
    pub fn set_all(&mut self, value: bool)
        requires
            old(self).wf(),
        ensures
            final(self).wf(),
            final(self).spec_size() == old(self).spec_size(),
            final(self).bits() =~= Seq::new(old(self).spec_size(), |i: int| value),
    {
        let size = self.size();
        self.set_many(0, size, value);
    }

    /// Sets `count` bits starting from `start` to `value`.
    pub fn set_many(&mut self, start: usize, count: usize, value: bool)
        requires
            old(self).wf(),
            start + count <= old(self).spec_size(),
        ensures
            final(self).wf(),
            final(self).spec_size() == old(self).spec_size(),
            final(self).bits() =~= Seq::new(
                old(self).spec_size(),
                |j: int|
                    if start <= j < start + count {
                        value
                    } else {
                        old(self).bits()[j]
                    },
            ),
    {
        let mut i = start;
        while i < start + count
            invariant
                self.wf(),
                start <= i <= start + count,
                start + count <= self.spec_size(),
                self.spec_size() == old(self).spec_size(),
                self.bits() =~= Seq::new(
                    old(self).spec_size(),
                    |j: int|
                        if start <= j < i {
                            value
                        } else {
                            old(self).bits()[j]
                        },
                ),
            decreases start + count - i,
        {
            self.set(i, value);
            i = i + 1;
        }
    }

    /// Finds and returns the starting index of the first group of `count`
    /// consecutive bits at or after `start` that are all set to `value`.
    ///
    /// If there is no such group, returns `None`.
    pub fn scan(&self, start: usize, count: usize, value: bool) -> (r: Option<usize>)
        requires
            self.wf(),
        ensures
            match r {
                Some(i) => start <= i && i + count <= self.spec_size() && run_matches(
                    self.bits(),
                    i as int,
                    count as int,
                    value,
                ) && (forall|k: int|
                    start <= k < i ==> !run_matches(self.bits(), k, count as int, value)),
                None => forall|k: int|
                    start <= k && k + count <= self.spec_size() ==> !run_matches(
                        self.bits(),
                        k,
                        count as int,
                        value,
                    ),
            },
    {
        if count == 0 {
            // A zero-length run begins at any index up to the capacity; the
            // lowest at or after `start` is `start` itself.
            if start <= self.cap {
                return Some(start);
            } else {
                return None;
            }
        }
        if count > self.cap || start > self.cap - count {
            return None;
        }
        let limit = self.cap - count;
        let mut i = start;
        while i <= limit
            invariant
                self.wf(),
                1 <= count,
                count <= self.cap,
                limit == self.cap - count,
                start <= i <= limit + 1,
                forall|k: int| start <= k < i ==> !run_matches(self.bits(), k, count as int, value),
            decreases limit + 1 - i,
        {
            if !self.contains(i, count, !value) {
                proof {
                    assert forall|j: int| i <= j < i + count implies self.bits()[j] == value by {
                        assert(!(self.bits()[j] == !value));
                    }
                }
                return Some(i);
            }
            i = i + 1;
        }
        None
    }

    /// Returns `true` if any bit in the `start..start + count` range is set
    /// to `value`.
    pub fn contains(&self, start: usize, count: usize, value: bool) -> (r: bool)
        requires
            self.wf(),
            start + count <= self.spec_size(),
        ensures
            r == exists|j: int| start <= j < start + count && self.bits()[j] == value,
    {
        let mut i = start;
        while i < start + count
            invariant
                self.wf(),
                start <= i <= start + count,
                start + count <= self.spec_size(),
                forall|j: int| start <= j < i ==> self.bits()[j] != value,
            decreases start + count - i,
        {
            if self.get(i) == value {
                return true;
            }
            i = i + 1;
        }
        false
    }

    /// After a single element is rewritten, every bit outside `index` keeps
    /// its value provided the rewritten element agrees outside the bit
    /// position of `index`, and the whole view is the pointwise update.
    proof fn lemma_single_element_update(self, prev: BitSet, index: int, value: bool)
        requires
            prev.wf(),
            0 <= index < prev.cap,
            self.cap == prev.cap,
            self.elements@.len() == prev.elements@.len(),
            forall|e: int|
                0 <= e < prev.elements@.len() && e != index / 32 ==> self.elements@[e]
                    == prev.elements@[e],
            forall|j: u32|
                j < 32 ==> ((self.elements@[index / 32] & (1u32 << j)) != 0) == (if j == (index
                    % 32) as u32 {
                    value
                } else {
                    (prev.elements@[index / 32] & (1u32 << j)) != 0
                }),
        ensures
            self.wf(),
            self.bits() =~= prev.bits().update(index, value),
    {
        assert forall|i: int| 0 <= i < self.cap implies self.bits()[i] == prev.bits().update(
            index,
            value,
        )[i] by {
            lemma_element_index_in_bounds(i, prev.cap as nat);
            vstd::arithmetic::div_mod::lemma_fundamental_div_mod(i, 32);
            vstd::arithmetic::div_mod::lemma_fundamental_div_mod(index, 32);
            let ji = (i % 32) as u32;
            if i / 32 == index / 32 {
                assert(((self.elements@[index / 32] & (1u32 << ji)) != 0) == (if ji == (index
                    % 32) as u32 {
                    value
                } else {
                    (prev.elements@[index / 32] & (1u32 << ji)) != 0
                }));
            }
        }
    }
}

/// Number of bytes that `from_buffer` requires for `cap` bits.
pub open spec fn spec_buffer_size(cap: nat) -> nat {
    (HEADER_BYTES + ELEMENT_BYTES * spec_element_count(cap)) as nat
}

/// The view has exactly one bit per unit of capacity.
pub proof fn lemma_bits_len(s: BitSet)
    ensures
        s.bits().len() == s.spec_size(),
{
}

/// The buffer a bit-set needs grows with its capacity.
pub proof fn lemma_buffer_size_monotonic(small: nat, large: nat)
    requires
        small <= large,
    ensures
        spec_buffer_size(small) <= spec_buffer_size(large),
{
    crate::lemma_div_round_up_monotonic(small, large, ELEMENT_BITS as nat);
}

/// The element holding bit `i` exists when `i` is within capacity.
proof fn lemma_element_index_in_bounds(i: int, cap: nat)
    requires
        0 <= i < cap,
    ensures
        0 <= i / 32 < spec_element_count(cap),
{
    assert(i / 32 < (cap + 31) / 32) by (nonlinear_arith)
        requires
            0 <= i < cap,
    ;
}

} // verus!
