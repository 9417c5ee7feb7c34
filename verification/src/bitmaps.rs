//! Fixed-capacity bitmap allocators with first-fit search: one instance
//! tracks inode identifiers, one tracks data-block identifiers. Bit value 1
//! means "in use", 0 means "free". Capacity is fixed for the image's
//! lifetime; bits beyond the capacity in the final word are permanently 0 and
//! are never reported by the search.

use vstd::prelude::*;

verus! {

use crate::error::FsError;

/// Whether bit `b` of word `w` is set (meaningful for `b < 64`).
pub open spec fn bit_of(w: u64, b: u64) -> bool {
    (w >> b) & 1u64 == 1u64
}

proof fn lemma_zero_word_bits()
    by (bit_vector)
    ensures
        forall|b: u64| #[trigger] ((0u64 >> b) & 1u64) == 0u64,
{
}

proof fn lemma_full_word_bits()
    by (bit_vector)
    ensures
        forall|b: u64| b < 64 ==> #[trigger] ((0xFFFF_FFFF_FFFF_FFFFu64 >> b) & 1u64) == 1u64,
{
}

proof fn lemma_word_index(id: u64, cap: u64)
    by (bit_vector)
    requires
        id < cap,
        cap <= 0xFFFF_FFFFu64,
    ensures
        id / 64 < (cap + 63) / 64,
        id % 64 < 64,
{
}

proof fn lemma_div_mod_same(a: u64, b: u64)
    by (bit_vector)
    ensures
        a / 64 == b / 64 && a % 64 == b % 64 ==> a == b,
{
}

proof fn lemma_or_sets_bit(w: u64, b: u64)
    by (bit_vector)
    requires
        b < 64,
    ensures
        ((w | (1u64 << b)) >> b) & 1u64 == 1u64,
        forall|c: u64| c < 64 && c != b ==> #[trigger] (((w | (1u64 << b)) >> c) & 1u64) == (w >> c)
            & 1u64,
{
}

proof fn lemma_and_clears_bit(w: u64, b: u64)
    by (bit_vector)
    requires
        b < 64,
    ensures
        ((w & !(1u64 << b)) >> b) & 1u64 == 0u64,
        forall|c: u64| c < 64 && c != b ==> #[trigger] (((w & !(1u64 << b)) >> c) & 1u64) == (w
            >> c) & 1u64,
{
}

proof fn lemma_mask_test(w: u64, b: u64)
    by (bit_vector)
    requires
        b < 64,
    ensures
        (w & (1u64 << b) != 0) == (((w >> b) & 1u64) == 1u64),
{
}

proof fn lemma_words_bound(cap: u64)
    by (bit_vector)
    requires
        cap <= 0xFFFF_FFFFu64,
    ensures
        (cap + 63) / 64 <= 0x400_0000u64,
{
}


/// The number of set entries of a bit sequence.
pub open spec fn count_set(s: Seq<bool>) -> nat
    decreases s.len(),
{
    if s.len() == 0 {
        0
    } else {
        count_set(s.drop_last()) + (if s.last() {
            1nat
        } else {
            0nat
        })
    }
}

/// A bit sequence holds at most as many set entries as it is long.
pub proof fn lemma_count_set_le_len(s: Seq<bool>)
    ensures
        count_set(s) <= s.len(),
    decreases s.len(),
{
    if s.len() > 0 {
        lemma_count_set_le_len(s.drop_last());
    }
}

/// An all-clear bit sequence holds no set entry.
pub proof fn lemma_count_set_zero(s: Seq<bool>)
    requires
        forall|i: int| 0 <= i < s.len() ==> !s[i],
    ensures
        count_set(s) == 0,
    decreases s.len(),
{
    if s.len() > 0 {
        lemma_count_set_zero(s.drop_last());
    }
}

/// A bit sequence whose set count reaches its length is all set.
pub proof fn lemma_count_set_full(s: Seq<bool>)
    requires
        count_set(s) == s.len(),
    ensures
        forall|i: int| 0 <= i < s.len() ==> s[i],
    decreases s.len(),
{
    if s.len() > 0 {
        lemma_count_set_le_len(s.drop_last());
        lemma_count_set_full(s.drop_last());
        assert forall|i: int| 0 <= i < s.len() implies s[i] by {
            if i < s.len() - 1 {
                assert(s.drop_last()[i]);
            }
        }
    }
}

/// An all-set bit sequence's set count is its length.
pub proof fn lemma_count_set_all(s: Seq<bool>)
    requires
        forall|i: int| 0 <= i < s.len() ==> s[i],
    ensures
        count_set(s) == s.len(),
    decreases s.len(),
{
    if s.len() > 0 {
        lemma_count_set_all(s.drop_last());
    }
}

/// A bit sequence with a set entry has a positive set count.
pub proof fn lemma_count_set_pos(s: Seq<bool>, i: int)
    requires
        0 <= i < s.len(),
        s[i],
    ensures
        count_set(s) >= 1,
    decreases s.len(),
{
    if i < s.len() - 1 {
        lemma_count_set_pos(s.drop_last(), i);
    }
}

/// How updating one entry moves the set count.
pub proof fn lemma_count_set_update(s: Seq<bool>, i: int, v: bool)
    requires
        0 <= i < s.len(),
    ensures
        count_set(s.update(i, v)) as int == count_set(s) as int - (if s[i] {
            1int
        } else {
            0int
        }) + (if v {
            1int
        } else {
            0int
        }),
    decreases s.len(),
{
    let t = s.update(i, v);
    if i == s.len() - 1 {
        assert(t.drop_last() =~= s.drop_last());
        assert(t.last() == v);
    } else {
        assert(t.drop_last() =~= s.drop_last().update(i, v));
        assert(t.last() == s.last());
        lemma_count_set_update(s.drop_last(), i, v);
    }
}

/// The bitmap tracking inode identifiers: bit `i` is 1 exactly when inode
/// identifier `i` is in use.
pub struct IBitmap {
    pub bitmap: Vec<u64>,
    pub icount: u64,  // inode count: the capacity in bits
}

/// The bitmap tracking data-block identifiers: bit `i` is 1 exactly when
/// block identifier `i` is in use.
pub struct DBitmap {
    pub bitmap: Vec<u64>,
    pub bcount: u64,  // block count: the capacity in bits
}

impl IBitmap {
    /// The fixed capacity: identifiers `0 .. capacity()` are meaningful.
    pub open spec fn capacity(self) -> u64 {
        self.icount
    }

    /// Whether identifier `i` is marked in use (meaningful for
    /// `i < capacity()`; padding bits beyond it are kept 0 by `wf`).
    pub open spec fn bit(self, i: u64) -> bool {
        bit_of(self.bitmap@[(i / 64) as int], i % 64)
    }

    /// Well-formedness: the word vector is sized to the capacity and the
    /// padding bits of the final word are all clear.
    pub open spec fn wf(self) -> bool {
        &&& self.icount <= 0xFFFF_FFFFu64
        &&& self.bitmap@.len() == (self.icount + 63) / 64
        &&& forall|i: u64|
            self.icount <= i && (i as int) < 64 * self.bitmap@.len() ==> !self.bit(i)
    }

    /// The per-identifier view: entry `i` is the in-use flag of identifier
    /// `i`; entries beyond the capacity are not part of the view.
    pub open spec fn bits(self) -> Seq<bool> {
        Seq::new(self.icount as nat, |i: int| self.bit(i as u64))
    }

    /// `k` is the lowest-numbered free identifier.
    pub open spec fn first_free_is(self, k: u64) -> bool {
        &&& k < self.icount
        &&& !self.bit(k)
        &&& forall|j: u64| j < k ==> self.bit(j)
    }

    /// Creates a bitmap of the given capacity with every identifier free.
    pub fn new(inode_count: u64) -> (r: Self)
        requires
            inode_count <= 0xFFFF_FFFFu64,
        ensures
            r.wf(),
            r.icount == inode_count,
            forall|i: u64| (i as int) < 64 * r.bitmap@.len() ==> !r.bit(i),
    {
        let words = ((inode_count + 63) / 64) as usize;
        let mut bitmap: Vec<u64> = Vec::new();
        let mut w: usize = 0;
        while w < words
            invariant
                w <= words,
                bitmap@.len() == w,
                forall|x: int| 0 <= x < w ==> bitmap@[x] == 0u64,
            decreases words - w,
        {
            bitmap.push(0u64);
            w += 1;
        }
        proof {
            lemma_zero_word_bits();
        }
        IBitmap { bitmap, icount: inode_count }
    }

    /// Marks `inode_id` in use (idempotent); every other bit is unchanged.
    /// Fails with `OutOfBounds`, touching nothing, when `inode_id` is not
    /// below the capacity.
    pub fn set(&mut self, inode_id: u64) -> (r: Result<(), FsError>)
        requires
            old(self).wf(),
        ensures
            final(self).wf(),
            final(self).icount == old(self).icount,
            final(self).bitmap@.len() == old(self).bitmap@.len(),
            match r {
                Ok(()) => {
                    &&& inode_id < final(self).icount
                    &&& final(self).bit(inode_id)
                    &&& forall|j: u64|
                        (j as int) < 64 * final(self).bitmap@.len() && j != inode_id ==> final(self).bit(j)
                            == old(self).bit(j)
                },
                Err(e) => {
                    &&& e == FsError::OutOfBounds
                    &&& inode_id >= final(self).icount
                    &&& final(self).bitmap@ == old(self).bitmap@
                },
            },
    {
        if inode_id >= self.icount {
            return Err(FsError::OutOfBounds);
        }
        proof {
            lemma_word_index(inode_id, self.icount);
        }
        let index = (inode_id / 64) as usize;
        let bit_index = inode_id % 64;
        let w = self.bitmap[index];
        let nw = w | (1u64 << bit_index);
        self.bitmap.set(index, nw);
        proof {
            lemma_or_sets_bit(w, bit_index);
            assert forall|j: u64|
                (j as int) < 64 * self.bitmap@.len() && j != inode_id implies self.bit(j) == old(
                self,
            ).bit(j) by {
                if j / 64 == inode_id / 64 {
                    lemma_div_mod_same(j, inode_id);
                } else {
                    assert(((j / 64) as int) < self.bitmap@.len());
                }
            }
        }
        Ok(())
    }

    /// Marks `inode_id` free by clearing only the target bit (AND with the
    /// complement of the single-bit mask); every other bit is unchanged.
    /// Fails with `OutOfBounds`, touching nothing, when `inode_id` is not
    /// below the capacity.
    pub fn clear(&mut self, inode_id: u64) -> (r: Result<(), FsError>)
        requires
            old(self).wf(),
        ensures
            final(self).wf(),
            final(self).icount == old(self).icount,
            final(self).bitmap@.len() == old(self).bitmap@.len(),
            match r {
                Ok(()) => {
                    &&& inode_id < final(self).icount
                    &&& !final(self).bit(inode_id)
                    &&& forall|j: u64|
                        (j as int) < 64 * final(self).bitmap@.len() && j != inode_id ==> final(self).bit(j)
                            == old(self).bit(j)
                },
                Err(e) => {
                    &&& e == FsError::OutOfBounds
                    &&& inode_id >= final(self).icount
                    &&& final(self).bitmap@ == old(self).bitmap@
                },
            },
    {
        if inode_id >= self.icount {
            return Err(FsError::OutOfBounds);
        }
        proof {
            lemma_word_index(inode_id, self.icount);
        }
        let index = (inode_id / 64) as usize;
        let bit_index = inode_id % 64;
        let w = self.bitmap[index];
        let nw = w & !(1u64 << bit_index);
        self.bitmap.set(index, nw);
        proof {
            lemma_and_clears_bit(w, bit_index);
            assert forall|j: u64|
                (j as int) < 64 * self.bitmap@.len() && j != inode_id implies self.bit(j) == old(
                self,
            ).bit(j) by {
                if j / 64 == inode_id / 64 {
                    lemma_div_mod_same(j, inode_id);
                } else {
                    assert(((j / 64) as int) < self.bitmap@.len());
                }
            }
        }
        Ok(())
    }

    /// Bounds-checked membership test: whether `inode_id` is marked in use.
    pub fn is_set(&self, inode_id: u64) -> (r: Result<bool, FsError>)
        requires
            self.wf(),
        ensures
            match r {
                Ok(b) => inode_id < self.icount && b == self.bit(inode_id),
                Err(e) => e == FsError::OutOfBounds && inode_id >= self.icount,
            },
    {
        if inode_id >= self.icount {
            return Err(FsError::OutOfBounds);
        }
        proof {
            lemma_word_index(inode_id, self.icount);
        }
        let index = (inode_id / 64) as usize;
        let bit_index = inode_id % 64;
        let w = self.bitmap[index];
        proof {
            lemma_mask_test(w, bit_index);
        }
        Ok(w & (1u64 << bit_index) != 0)
    }

    /// First-fit search: returns the lowest-numbered free identifier, scanning
    /// words in ascending order and bits from least significant upward, and
    /// `None` when every identifier below the capacity is in use. Padding
    /// bits beyond the capacity are never reported.
    pub fn find_first_available(&self) -> (r: Option<u64>)
        requires
            self.wf(),
        ensures
            match r {
                Some(k) => self.first_free_is(k),
                None => forall|j: u64| j < self.icount ==> self.bit(j),
            },
    {
        let words = self.bitmap.len();
        let mut i: usize = 0;
        while i < words
            invariant
                self.wf(),
                words == self.bitmap@.len(),
                i <= words,
                forall|j: u64| (j as int) < 64 * (i as int) ==> self.bit(j),
            decreases words - i,
        {
            let w = self.bitmap[i];
            if w != u64::MAX {
                let mut b: u64 = 0;
                while b < 64
                    invariant
                        self.wf(),
                        words == self.bitmap@.len(),
                        i < words,
                        w == self.bitmap@[i as int],
                        b <= 64,
                        forall|c: u64| c < b ==> bit_of(w, c),
                        forall|j: u64| (j as int) < 64 * (i as int) ==> self.bit(j),
                    decreases 64 - b,
                {
                    if w & (1u64 << b) == 0 {
                        proof {
                            lemma_mask_test(w, b);
                            lemma_words_bound(self.icount);
                        }
                        let id = (i as u64) * 64 + b;
                        proof {
                            assert(id / 64 == i as u64 && id % 64 == b);
                            assert(!self.bit(id));
                            assert forall|j: u64| j < id implies self.bit(j) by {
                                if (j as int) >= 64 * (i as int) {
                                    assert(j / 64 == i as u64 && j % 64 < b);
                                }
                            }
                        }
                        if id < self.icount {
                            return Some(id);
                        } else {
                            proof {
                                assert forall|j: u64| j < self.icount implies self.bit(j) by {
                                    assert(j < id);
                                }
                            }
                            return None;
                        }
                    }
                    proof {
                        lemma_mask_test(w, b);
                    }
                    b += 1;
                }
            } else {
                proof {
                    lemma_full_word_bits();
                }
            }
            proof {
                assert forall|j: u64| (j as int) < 64 * ((i + 1) as int) implies self.bit(j) by {
                    if (j as int) >= 64 * (i as int) {
                        assert(j / 64 == i as u64 && j % 64 < 64);
                    }
                }
            }
            i += 1;
        }
        proof {
            assert forall|j: u64| j < self.icount implies self.bit(j) by {
                assert((j as int) < 64 * self.bitmap@.len());
            }
        }
        None
    }
}

impl DBitmap {
    /// The fixed capacity: identifiers `0 .. capacity()` are meaningful.
    pub open spec fn capacity(self) -> u64 {
        self.bcount
    }

    /// Whether identifier `i` is marked in use (meaningful for
    /// `i < capacity()`; padding bits beyond it are kept 0 by `wf`).
    pub open spec fn bit(self, i: u64) -> bool {
        bit_of(self.bitmap@[(i / 64) as int], i % 64)
    }

    /// Well-formedness: the word vector is sized to the capacity and the
    /// padding bits of the final word are all clear.
    pub open spec fn wf(self) -> bool {
        &&& self.bcount <= 0xFFFF_FFFFu64
        &&& self.bitmap@.len() == (self.bcount + 63) / 64
        &&& forall|i: u64|
            self.bcount <= i && (i as int) < 64 * self.bitmap@.len() ==> !self.bit(i)
    }

    /// The per-identifier view: entry `i` is the in-use flag of identifier
    /// `i`; entries beyond the capacity are not part of the view.
    pub open spec fn bits(self) -> Seq<bool> {
        Seq::new(self.bcount as nat, |i: int| self.bit(i as u64))
    }

    /// `k` is the lowest-numbered free identifier.
    pub open spec fn first_free_is(self, k: u64) -> bool {
        &&& k < self.bcount
        &&& !self.bit(k)
        &&& forall|j: u64| j < k ==> self.bit(j)
    }

    /// Creates a bitmap of the given capacity with every identifier free.
    pub fn new(block_count: u64) -> (r: Self)
        requires
            block_count <= 0xFFFF_FFFFu64,
        ensures
            r.wf(),
            r.bcount == block_count,
            forall|i: u64| (i as int) < 64 * r.bitmap@.len() ==> !r.bit(i),
    {
        let words = ((block_count + 63) / 64) as usize;
        let mut bitmap: Vec<u64> = Vec::new();
        let mut w: usize = 0;
        while w < words
            invariant
                w <= words,
                bitmap@.len() == w,
                forall|x: int| 0 <= x < w ==> bitmap@[x] == 0u64,
            decreases words - w,
        {
            bitmap.push(0u64);
            w += 1;
        }
        proof {
            lemma_zero_word_bits();
        }
        DBitmap { bitmap, bcount: block_count }
    }

    /// Marks `block_id` in use (idempotent); every other bit is unchanged.
    /// Fails with `OutOfBounds`, touching nothing, when `block_id` is not
    /// below the capacity.
    pub fn set(&mut self, block_id: u64) -> (r: Result<(), FsError>)
        requires
            old(self).wf(),
        ensures
            final(self).wf(),
            final(self).bcount == old(self).bcount,
            final(self).bitmap@.len() == old(self).bitmap@.len(),
            match r {
                Ok(()) => {
                    &&& block_id < final(self).bcount
                    &&& final(self).bit(block_id)
                    &&& forall|j: u64|
                        (j as int) < 64 * final(self).bitmap@.len() && j != block_id ==> final(self).bit(j)
                            == old(self).bit(j)
                },
                Err(e) => {
                    &&& e == FsError::OutOfBounds
                    &&& block_id >= final(self).bcount
                    &&& final(self).bitmap@ == old(self).bitmap@
                },
            },
    {
        if block_id >= self.bcount {
            return Err(FsError::OutOfBounds);
        }
        proof {
            lemma_word_index(block_id, self.bcount);
        }
        let index = (block_id / 64) as usize;
        let bit_index = block_id % 64;
        let w = self.bitmap[index];
        let nw = w | (1u64 << bit_index);
        self.bitmap.set(index, nw);
        proof {
            lemma_or_sets_bit(w, bit_index);
            assert forall|j: u64|
                (j as int) < 64 * self.bitmap@.len() && j != block_id implies self.bit(j) == old(
                self,
            ).bit(j) by {
                if j / 64 == block_id / 64 {
                    lemma_div_mod_same(j, block_id);
                } else {
                    assert(((j / 64) as int) < self.bitmap@.len());
                }
            }
        }
        Ok(())
    }

    /// Marks `block_id` free by clearing only the target bit (AND with the
    /// complement of the single-bit mask); every other bit is unchanged.
    /// Fails with `OutOfBounds`, touching nothing, when `block_id` is not
    /// below the capacity.
    pub fn clear(&mut self, block_id: u64) -> (r: Result<(), FsError>)
        requires
            old(self).wf(),
        ensures
            final(self).wf(),
            final(self).bcount == old(self).bcount,
            final(self).bitmap@.len() == old(self).bitmap@.len(),
            match r {
                Ok(()) => {
                    &&& block_id < final(self).bcount
                    &&& !final(self).bit(block_id)
                    &&& forall|j: u64|
                        (j as int) < 64 * final(self).bitmap@.len() && j != block_id ==> final(self).bit(j)
                            == old(self).bit(j)
                },
                Err(e) => {
                    &&& e == FsError::OutOfBounds
                    &&& block_id >= final(self).bcount
                    &&& final(self).bitmap@ == old(self).bitmap@
                },
            },
    {
        if block_id >= self.bcount {
            return Err(FsError::OutOfBounds);
        }
        proof {
            lemma_word_index(block_id, self.bcount);
        }
        let index = (block_id / 64) as usize;
        let bit_index = block_id % 64;
        let w = self.bitmap[index];
        let nw = w & !(1u64 << bit_index);
        self.bitmap.set(index, nw);
        proof {
            lemma_and_clears_bit(w, bit_index);
            assert forall|j: u64|
                (j as int) < 64 * self.bitmap@.len() && j != block_id implies self.bit(j) == old(
                self,
            ).bit(j) by {
                if j / 64 == block_id / 64 {
                    lemma_div_mod_same(j, block_id);
                } else {
                    assert(((j / 64) as int) < self.bitmap@.len());
                }
            }
        }
        Ok(())
    }

    /// Bounds-checked membership test: whether `block_id` is marked in use.
    pub fn is_set(&self, block_id: u64) -> (r: Result<bool, FsError>)
        requires
            self.wf(),
        ensures
            match r {
                Ok(b) => block_id < self.bcount && b == self.bit(block_id),
                Err(e) => e == FsError::OutOfBounds && block_id >= self.bcount,
            },
    {
        if block_id >= self.bcount {
            return Err(FsError::OutOfBounds);
        }
        proof {
            lemma_word_index(block_id, self.bcount);
        }
        let index = (block_id / 64) as usize;
        let bit_index = block_id % 64;
        let w = self.bitmap[index];
        proof {
            lemma_mask_test(w, bit_index);
        }
        Ok(w & (1u64 << bit_index) != 0)
    }

    /// First-fit search: returns the lowest-numbered free identifier, scanning
    /// words in ascending order and bits from least significant upward, and
    /// `None` when every identifier below the capacity is in use. Padding
    /// bits beyond the capacity are never reported.
    pub fn find_first_available(&self) -> (r: Option<u64>)
        requires
            self.wf(),
        ensures
            match r {
                Some(k) => self.first_free_is(k),
                None => forall|j: u64| j < self.bcount ==> self.bit(j),
            },
    {
        let words = self.bitmap.len();
        let mut i: usize = 0;
        while i < words
            invariant
                self.wf(),
                words == self.bitmap@.len(),
                i <= words,
                forall|j: u64| (j as int) < 64 * (i as int) ==> self.bit(j),
            decreases words - i,
        {
            let w = self.bitmap[i];
            if w != u64::MAX {
                let mut b: u64 = 0;
                while b < 64
                    invariant
                        self.wf(),
                        words == self.bitmap@.len(),
                        i < words,
                        w == self.bitmap@[i as int],
                        b <= 64,
                        forall|c: u64| c < b ==> bit_of(w, c),
                        forall|j: u64| (j as int) < 64 * (i as int) ==> self.bit(j),
                    decreases 64 - b,
                {
                    if w & (1u64 << b) == 0 {
                        proof {
                            lemma_mask_test(w, b);
                            lemma_words_bound(self.bcount);
                        }
                        let id = (i as u64) * 64 + b;
                        proof {
                            assert(id / 64 == i as u64 && id % 64 == b);
                            assert(!self.bit(id));
                            assert forall|j: u64| j < id implies self.bit(j) by {
                                if (j as int) >= 64 * (i as int) {
                                    assert(j / 64 == i as u64 && j % 64 < b);
                                }
                            }
                        }
                        if id < self.bcount {
                            return Some(id);
                        } else {
                            proof {
                                assert forall|j: u64| j < self.bcount implies self.bit(j) by {
                                    assert(j < id);
                                }
                            }
                            return None;
                        }
                    }
                    proof {
                        lemma_mask_test(w, b);
                    }
                    b += 1;
                }
            } else {
                proof {
                    lemma_full_word_bits();
                }
            }
            proof {
                assert forall|j: u64| (j as int) < 64 * ((i + 1) as int) implies self.bit(j) by {
                    if (j as int) >= 64 * (i as int) {
                        assert(j / 64 == i as u64 && j % 64 < 64);
                    }
                }
            }
            i += 1;
        }
        proof {
            assert forall|j: u64| j < self.bcount implies self.bit(j) by {
                assert((j as int) < 64 * self.bitmap@.len());
            }
        }
        None
    }
}

/// With bits `0 .. k` in use and bit `k` free, the first-fit position is
/// exactly `k`: any two identifiers that both satisfy `first_free_is` are
/// equal, so the search's result is pinned to the lowest free identifier.
pub proof fn lemma_first_free_unique_block(bm: DBitmap, k1: u64, k2: u64)
    requires
        bm.first_free_is(k1),
        bm.first_free_is(k2),
    ensures
        k1 == k2,
{
    if k1 < k2 {
        assert(bm.bit(k1));
    }
    if k2 < k1 {
        assert(bm.bit(k2));
    }
}


/// Under well-formedness the word vector covers the whole capacity.
pub proof fn lemma_capacity_covered(cap: u64, words: int)
    requires
        words == (cap + 63) / 64,
    ensures
        cap as int <= 64 * words,
{
}

/// Successive allocations ascend and never repeat: once the lowest free
/// inode identifier `id1` has been marked in use, the lowest free identifier
/// `id2` of the resulting bitmap is strictly higher.
pub proof fn lemma_first_fit_ascends(a: IBitmap, b: IBitmap, id1: u64, id2: u64)
    requires
        a.first_free_is(id1),
        b.icount == a.icount,
        b.bit(id1),
        forall|j: u64| j < a.icount && j != id1 ==> b.bit(j) == a.bit(j),
        b.first_free_is(id2),
    ensures
        id2 > id1,
{
    if id2 < id1 {
        assert(a.bit(id2));
        assert(b.bit(id2));
    }
    if id2 == id1 {
        assert(b.bit(id1));
    }
}

/// With bits `0 .. k` in use and bit `k` free, the first-fit position is
/// exactly `k`: any two identifiers that both satisfy `first_free_is` are
/// equal, so the search's result is pinned to the lowest free identifier.
pub proof fn lemma_first_free_unique_inode(bm: IBitmap, k1: u64, k2: u64)
    requires
        bm.first_free_is(k1),
        bm.first_free_is(k2),
    ensures
        k1 == k2,
{
    if k1 < k2 {
        assert(bm.bit(k1));
    }
    if k2 < k1 {
        assert(bm.bit(k2));
    }
}

} // verus!
