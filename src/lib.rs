//! A list of unsigned integers that keeps short lists of small values packed
//! inside one 64-bit word and moves to a heap vector otherwise.
//!
//! Packed layout of the word, from the least significant bit:
//!
//! ```text
//! I LLLL 0000 1111 2222 3333 4444 5555 6666 7777 8888 9999 aaaa bbbb cccc
//! ```
//!
//! `I` is the tag bit (always 1 in packed form), `LLLL` the length and each
//! following group of four bits one element.
use vstd::prelude::*;

pub mod laws;

verus! {

/// Most elements a packed word holds.
pub const MAX_LENGTH: usize = 13;

/// Width of the length field of a packed word.
pub const LENGTH_BITS: usize = 4;

/// Largest element value a packed word holds.
pub const MAX_IMMEDIATE_VALUE: usize = 15;

/// Whether a sequence can be stored packed: short enough and every value
/// fits in four bits.
pub open spec fn inline_eligible(s: Seq<usize>) -> bool {
    &&& s.len() <= MAX_LENGTH
    &&& forall|i: int| 0 <= i < s.len() ==> #[trigger] s[i] <= MAX_IMMEDIATE_VALUE
}

/// The result of a bounds-checked lookup in `s`.
pub open spec fn lookup(s: Seq<usize>, index: int) -> Option<usize> {
    if 0 <= index < s.len() {
        Some(s[index])
    } else {
        None
    }
}

/// Bit position of element `index` in a packed word.
pub open spec fn slot_offset(index: int) -> int {
    index * 4 + LENGTH_BITS + 1
}

/// The four bits at `offset` in a packed word.
pub open spec fn word_nibble(w: u64, offset: u64) -> u64 {
    (w >> offset) & 15u64
}

/// `w` with the four bits at `offset` replaced by `v`.
pub open spec fn nibble_written(w: u64, offset: u64, v: u64) -> u64 {
    (w & !(15u64 << offset)) | (v << offset)
}

/// The length field of a packed word.
pub open spec fn word_len(w: u64) -> u64 {
    word_nibble(w, 1)
}

/// The elements a packed word holds.
pub open spec fn word_seq(w: u64) -> Seq<usize> {
    Seq::new(word_len(w) as nat, |i: int| word_nibble(w, slot_offset(i) as u64) as usize)
}

/// A packed word is well formed when its tag bit is set and its length is
/// within capacity.
pub open spec fn word_wf(w: u64) -> bool {
    &&& w & 1u64 == 1u64
    &&& word_len(w) <= MAX_LENGTH
}

/// Writing four bits sets them, keeps every field that does not overlap
/// them, and keeps the tag bit.
proof fn lemma_nibble_written(w: u64, offset: u64, v: u64, other: u64)
    by (bit_vector)
    requires
        v <= 15,
        1 <= offset <= 60,
        other <= 60,
        offset + 4 <= other || other + 4 <= offset,
    ensures
        word_nibble(nibble_written(w, offset, v), offset) == v,
        word_nibble(nibble_written(w, offset, v), other) == word_nibble(w, other),
        nibble_written(w, offset, v) & 1u64 == w & 1u64,
{
}

/// Replaces the four bits at `offset` of `w` by `v`.
fn write_nibble(w: u64, offset: u64, v: u64) -> (r: u64)
    requires
        v <= 15,
        offset <= 60,
    ensures
        r == nibble_written(w, offset, v),
{
    (w & !(15u64 << offset)) | (v << offset)
}

/// The length of a packed word.
fn immediate_len(w: u64) -> (r: usize)
    requires
        word_wf(w),
    ensures
        r == word_len(w),
        r <= MAX_LENGTH,
{
    ((w >> 1u64) & 15u64) as usize
}

/// Element `index` of a packed word.
fn get_immediate_value(w: u64, index: usize) -> (r: usize)
    requires
        index < MAX_LENGTH,
    ensures
        r == word_nibble(w, slot_offset(index as int) as u64),
        r <= MAX_IMMEDIATE_VALUE,
{
    let bit_offset: u64 = (index * 4 + LENGTH_BITS + 1) as u64;
    let nibble = (w >> bit_offset) & 15u64;
    assert(nibble <= 15) by (bit_vector)
        requires
            nibble == (w >> bit_offset) & 15u64,
    ;
    nibble as usize
}

/// `w` with element `index` replaced by `value`.
fn set_immediate_value(w: u64, index: usize, value: usize) -> (r: u64)
    requires
        word_wf(w),
        index < word_len(w),
        value <= MAX_IMMEDIATE_VALUE,
    ensures
        word_wf(r),
        word_len(r) == word_len(w),
        word_seq(r) == word_seq(w).update(index as int, value),
{
    let bit_offset: u64 = (index * 4 + LENGTH_BITS + 1) as u64;
    let r = write_nibble(w, bit_offset, value as u64);
    proof {
        lemma_nibble_written(w, bit_offset, value as u64, 1);
        assert forall|j: int| 0 <= j < word_len(w) && j != index implies word_nibble(
            r,
            slot_offset(j) as u64,
        ) == word_nibble(w, slot_offset(j) as u64) by {
            lemma_nibble_written(w, bit_offset, value as u64, slot_offset(j) as u64);
        }
        assert(word_seq(r) =~= word_seq(w).update(index as int, value));
    }
    r
}

/// Every element of a well-formed packed word fits in four bits, so what it
/// holds is always eligible for packed form.
proof fn lemma_word_seq_eligible(w: u64)
    requires
        word_wf(w),
    ensures
        inline_eligible(word_seq(w)),
{
    assert forall|i: int| 0 <= i < word_seq(w).len() implies #[trigger] word_seq(w)[i]
        <= MAX_IMMEDIATE_VALUE by {
        let o = slot_offset(i) as u64;
        assert(word_nibble(w, o) <= 15) by (bit_vector);
    }
}

/// `w` with its length raised by one and `value` as its new last element.
fn push_immediate_value(w: u64, value: usize) -> (r: u64)
    requires
        word_wf(w),
        word_len(w) < MAX_LENGTH,
        value <= MAX_IMMEDIATE_VALUE,
    ensures
        word_wf(r),
        word_seq(r) == word_seq(w).push(value),
{
    let n = immediate_len(w);
    let grown = write_nibble(w, 1, (n + 1) as u64);
    proof {
        lemma_nibble_written(w, 1, (n + 1) as u64, 5);
        assert forall|j: int| 0 <= j < n implies word_nibble(grown, slot_offset(j) as u64)
            == word_nibble(w, slot_offset(j) as u64) by {
            lemma_nibble_written(w, 1, (n + 1) as u64, slot_offset(j) as u64);
        }
    }
    let r = set_immediate_value(grown, n, value);
    assert(word_seq(r) =~= word_seq(w).push(value));
    r
}

/// The elements of a packed word, in a vector.
fn immediate_values(w: u64) -> (r: Vec<usize>)
    requires
        word_wf(w),
    ensures
        r@ == word_seq(w),
{
    let n = immediate_len(w);
    let mut r: Vec<usize> = Vec::new();
    let mut i: usize = 0;
    while i < n
        invariant
            n == word_len(w) <= MAX_LENGTH,
            i <= n,
            r@ =~= word_seq(w).take(i as int),
        decreases n - i,
    {
        r.push(get_immediate_value(w, i));
        i += 1;
    }
    r
}

/// Whether `values` can be stored packed.
fn can_be_immediate(values: &[usize]) -> (r: bool)
    ensures
        r == inline_eligible(values@),
{
    if values.len() > MAX_LENGTH {
        return false;
    }
    let mut i: usize = 0;
    while i < values.len()
        invariant
            i <= values@.len() <= MAX_LENGTH,
            forall|j: int| 0 <= j < i ==> #[trigger] values@[j] <= MAX_IMMEDIATE_VALUE,
        decreases values@.len() - i,
    {
        let value = values[i];
        if value & 15 != value {
            assert(value > 15) by (bit_vector)
                requires
                    value & 15 != value,
            ;
            return false;
        }
        assert(value <= 15) by (bit_vector)
            requires
                value & 15 == value,
        ;
        i += 1;
    }
    true
}

enum Storage {
    Immediate(u64),
    Heap(Vec<usize>),
}

/// An ordered list of `usize` values, packed into one word while it is short
/// and its values are small.
pub struct IndexList {
    storage: Storage,
}

impl View for IndexList {
    type V = Seq<usize>;

    closed spec fn view(&self) -> Seq<usize> {
        match self.storage {
            Storage::Immediate(w) => word_seq(w),
            Storage::Heap(v) => v@,
        }
    }
}

impl IndexList {
    /// Whether the list is in packed form.
    pub closed spec fn immediate(&self) -> bool {
        self.storage is Immediate
    }

    /// The internal invariant: a packed word is well formed.
    pub closed spec fn wf(&self) -> bool {
        match self.storage {
            Storage::Immediate(w) => word_wf(w),
            Storage::Heap(_) => true,
        }
    }

    /// An empty list, in packed form.
    pub fn empty() -> (r: IndexList)
        ensures
            r.wf(),
            r@ == Seq::<usize>::empty(),
            r.immediate(),
    {
        let w: u64 = 1;
        assert(w & 1u64 == 1u64 && word_len(w) == 0) by (bit_vector)
            requires
                w == 1u64,
        ;
        assert(word_seq(w) =~= Seq::<usize>::empty());
        IndexList { storage: Storage::Immediate(w) }
    }

    /// A list holding a copy of `values`, packed exactly when they are
    /// eligible.
    pub fn from_slice(values: &[usize]) -> (r: IndexList)
        ensures
            r.wf(),
            r@ == values@,
            r.immediate() == inline_eligible(values@),
    {
        if can_be_immediate(values) {
            let n: usize = values.len();
            let mut w: u64 = 1u64 | ((n as u64) << 1u64);
            assert(w & 1u64 == 1u64 && word_len(w) == n) by (bit_vector)
                requires
                    w == 1u64 | ((n as u64) << 1u64),
                    n <= 13,
            ;
            let mut i: usize = 0;
            while i < n
                invariant
                    n == values@.len(),
                    inline_eligible(values@),
                    i <= n,
                    word_wf(w),
                    word_len(w) == n,
                    forall|j: int| 0 <= j < i ==> #[trigger] word_seq(w)[j] == values@[j],
                decreases n - i,
            {
                let old_w = w;
                assert(values@[i as int] <= MAX_IMMEDIATE_VALUE);
                w = set_immediate_value(w, i, values[i]);
                assert forall|j: int| 0 <= j < i + 1 implies #[trigger] word_seq(w)[j]
                    == values@[j] by {
                    if j < i {
                        assert(word_seq(old_w)[j] == values@[j]);
                    }
                }
                i += 1;
            }
            assert(word_seq(w) =~= values@);
            IndexList { storage: Storage::Immediate(w) }
        } else {
            IndexList { storage: Storage::Heap(vstd::slice::slice_to_vec(values)) }
        }
    }

    /// The number of elements.
    pub fn len(&self) -> (r: usize)
        requires
            self.wf(),
        ensures
            r == self@.len(),
    {
        match &self.storage {
            Storage::Immediate(w) => immediate_len(*w),
            Storage::Heap(v) => v.len(),
        }
    }

    /// Element `index`, or `None` past the end.
    pub fn get(&self, index: usize) -> (r: Option<usize>)
        requires
            self.wf(),
        ensures
            r == lookup(self@, index as int),
    {
        match &self.storage {
            Storage::Immediate(w) => {
                if index >= immediate_len(*w) {
                    None
                } else {
                    Some(get_immediate_value(*w, index))
                }
            },
            Storage::Heap(v) => {
                if index < v.len() {
                    Some(v[index])
                } else {
                    None
                }
            },
        }
    }

    /// The packed word of a list in packed form.
    fn ptr_as_bits(&self) -> (r: u64)
        requires
            self.immediate(),
        ensures
            self.storage == Storage::Immediate(r),
    {
        match &self.storage {
            Storage::Immediate(w) => *w,
            Storage::Heap(_) => 0,
        }
    }

    /// Appends `value`. A packed list stays packed while the result is
    /// eligible and otherwise moves to the heap with its elements in order.
    pub fn push(&mut self, value: usize)
        requires
            old(self).wf(),
        ensures
            final(self).wf(),
            final(self)@ == old(self)@.push(value),
            final(self).immediate() == (old(self).immediate() && inline_eligible(final(self)@)),
    {
        if self.is_immediate() {
            let w = self.ptr_as_bits();
            if immediate_len(w) < MAX_LENGTH && value <= MAX_IMMEDIATE_VALUE {
                let r = push_immediate_value(w, value);
                proof {
                    lemma_word_seq_eligible(r);
                }
                self.storage = Storage::Immediate(r);
            } else {
                let mut v = immediate_values(w);
                v.push(value);
                assert(v@[v@.len() - 1] == value);
                self.storage = Storage::Heap(v);
            }
        } else {
            match &mut self.storage {
                Storage::Heap(v) => v.push(value),
                Storage::Immediate(_) => {},
            }
        }
    }

    /// Replaces element `index` by `value`. A packed list stays packed when
    /// `value` fits in four bits and otherwise moves to the heap.
    pub fn set(&mut self, index: usize, value: usize)
        requires
            old(self).wf(),
            index < old(self)@.len(),
        ensures
            final(self).wf(),
            final(self)@ == old(self)@.update(index as int, value),
            final(self).immediate() == (old(self).immediate() && inline_eligible(final(self)@)),
    {
        if self.is_immediate() {
            let w = self.ptr_as_bits();
            if value <= MAX_IMMEDIATE_VALUE {
                let r = set_immediate_value(w, index, value);
                proof {
                    lemma_word_seq_eligible(r);
                }
                self.storage = Storage::Immediate(r);
            } else {
                let mut v = immediate_values(w);
                v.set(index, value);
                assert(v@[index as int] == value);
                self.storage = Storage::Heap(v);
            }
        } else {
            match &mut self.storage {
                Storage::Heap(v) => v.set(index, value),
                Storage::Immediate(_) => {},
            }
        }
    }

    /// Whether the list is in packed form.
    pub fn is_immediate(&self) -> (r: bool)
        ensures
            r == self.immediate(),
    {
        match &self.storage {
            Storage::Immediate(_) => true,
            Storage::Heap(_) => false,
        }
    }
}

} // verus!
