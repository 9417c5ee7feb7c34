//! One filesystem image as an explicitly owned aggregate: its superblock and
//! its two bitmap allocators, kept in lockstep. Every allocated identifier
//! corresponds to exactly one set bit, and each free counter always equals
//! the capacity minus the number of set bits of its bitmap.

use vstd::prelude::*;

verus! {

use crate::bitmaps::count_set;
use crate::bitmaps::lemma_capacity_covered;
use crate::bitmaps::lemma_count_set_all;
use crate::bitmaps::lemma_count_set_full;
use crate::bitmaps::lemma_count_set_le_len;
use crate::bitmaps::lemma_count_set_pos;
use crate::bitmaps::lemma_count_set_update;
use crate::bitmaps::lemma_count_set_zero;
use crate::bitmaps::DBitmap;
use crate::bitmaps::IBitmap;
use crate::error::FsError;
use crate::inode::FileType;
use crate::inode::Inode;
use crate::inode::INODE_SIZE;
use crate::superblock::Superblock;
use crate::superblock::MAGIC;
use crate::superblock::SUPERBLOCK_SIZE;

/// The two superblocks agree on every field that allocation never touches.
pub open spec fn same_geometry(a: Superblock, b: Superblock) -> bool {
    &&& a.version == b.version
    &&& a.magic == b.magic
    &&& a.rinode == b.rinode
    &&& a.icount == b.icount
    &&& a.i_size == b.i_size
    &&& a.bcount == b.bcount
    &&& a.bsize == b.bsize
}

/// The byte size of a bitmap region on disk: one 64-bit word per 64
/// identifiers.
pub open spec fn bitmap_region_bytes(cap: u64) -> int {
    ((cap + 63) / 64) * 8
}

/// The bit sequence `s` with the bits named by the first `k` nonzero
/// pointers of `ptrs` cleared.
pub open spec fn clear_ptrs(s: Seq<bool>, ptrs: Seq<u32>, k: int) -> Seq<bool>
    decreases k,
{
    if k <= 0 {
        s
    } else if ptrs[k - 1] != 0 {
        clear_ptrs(s, ptrs, k - 1).update(ptrs[k - 1] as int, false)
    } else {
        clear_ptrs(s, ptrs, k - 1)
    }
}

/// Pointwise reading of `clear_ptrs`: a bit survives exactly when it was set
/// and no nonzero pointer among the first `k` names it.
pub proof fn lemma_clear_ptrs_bit(s: Seq<bool>, ptrs: Seq<u32>, k: int, j: int)
    requires
        0 <= j < s.len(),
        0 <= k <= ptrs.len(),
        forall|x: int| 0 <= x < ptrs.len() ==> ptrs[x] == 0 || (ptrs[x] as int) < s.len(),
    ensures
        clear_ptrs(s, ptrs, k).len() == s.len(),
        clear_ptrs(s, ptrs, k)[j] == (s[j] && !(exists|x: int|
            0 <= x < k && ptrs[x] != 0 && j == ptrs[x] as int)),
    decreases k,
{
    if k > 0 {
        lemma_clear_ptrs_bit(s, ptrs, k - 1, j);
        if ptrs[k - 1] != 0 && j == ptrs[k - 1] as int {
            assert(0 <= k - 1 < k && ptrs[k - 1] != 0 && j == ptrs[k - 1] as int);
            assert(exists|x: int| 0 <= x < k && ptrs[x] != 0 && j == ptrs[x] as int);
        } else {
            if exists|x: int| 0 <= x < k && ptrs[x] != 0 && j == ptrs[x] as int {
                let x = choose|x: int| 0 <= x < k && ptrs[x] != 0 && j == ptrs[x] as int;
                assert(x < k - 1);
                assert(0 <= x < k - 1 && ptrs[x] != 0 && j == ptrs[x] as int);
                assert(exists|x: int| 0 <= x < k - 1 && ptrs[x] != 0 && j == ptrs[x] as int);
            } else {
                if exists|x: int| 0 <= x < k - 1 && ptrs[x] != 0 && j == ptrs[x] as int {
                    let x = choose|x: int| 0 <= x < k - 1 && ptrs[x] != 0 && j == ptrs[x] as int;
                    assert(0 <= x < k && ptrs[x] != 0 && j == ptrs[x] as int);
                    assert(false);
                }
            }
        }
    }
}

/// Reclamation's effect on the block bitmap, read pointwise: a block stays
/// in use exactly when it was in use before and the reclaimed record's
/// nonzero direct and indirect pointers do not name it.
pub proof fn lemma_reclaim_clears_exactly(s: Seq<bool>, ino: Inode, j: u64)
    requires
        forall|x: int| 0 <= x < 12 ==> ino.dblocks@[x] == 0 || (ino.dblocks@[x] as int) < s.len(),
        forall|x: int| 0 <= x < 3 ==> ino.iblocks@[x] == 0 || (ino.iblocks@[x] as int) < s.len(),
        (j as int) < s.len(),
    ensures
        clear_ptrs(clear_ptrs(s, ino.dblocks@, 12), ino.iblocks@, 3).len() == s.len(),
        clear_ptrs(clear_ptrs(s, ino.dblocks@, 12), ino.iblocks@, 3)[j as int] == (s[j as int]
            && !ino.references_block_u64(j)),
{
    lemma_clear_ptrs_bit(s, ino.dblocks@, 12, j as int);
    lemma_clear_ptrs_bit(clear_ptrs(s, ino.dblocks@, 12), ino.iblocks@, 3, j as int);
    if exists|x: int| 0 <= x < 12 && ino.dblocks@[x] != 0 && j as int == ino.dblocks@[x] as int {
        let x = choose|x: int|
            0 <= x < 12 && ino.dblocks@[x] != 0 && j as int == ino.dblocks@[x] as int;
        assert(0 <= x < 12 && ino.dblocks@[x] as u64 == j);
        assert(j != 0);
        assert(ino.references_block_u64(j));
    }
    if exists|x: int| 0 <= x < 3 && ino.iblocks@[x] != 0 && j as int == ino.iblocks@[x] as int {
        let x = choose|x: int|
            0 <= x < 3 && ino.iblocks@[x] != 0 && j as int == ino.iblocks@[x] as int;
        assert(0 <= x < 3 && ino.iblocks@[x] as u64 == j);
        assert(j != 0);
        assert(ino.references_block_u64(j));
    }
    if ino.references_block_u64(j) {
        if exists|x: int| 0 <= x < 12 && ino.dblocks@[x] as u64 == j {
            let x = choose|x: int| 0 <= x < 12 && ino.dblocks@[x] as u64 == j;
            assert(ino.dblocks@[x] != 0 && j as int == ino.dblocks@[x] as int);
            assert(exists|x: int|
                0 <= x < 12 && ino.dblocks@[x] != 0 && j as int == ino.dblocks@[x] as int);
        } else {
            let x = choose|x: int| 0 <= x < 3 && ino.iblocks@[x] as u64 == j;
            assert(ino.iblocks@[x] != 0 && j as int == ino.iblocks@[x] as int);
            assert(exists|x: int|
                0 <= x < 3 && ino.iblocks@[x] != 0 && j as int == ino.iblocks@[x] as int);
        }
    }
}

/// One filesystem image: the superblock and the bitmaps sized from its
/// counts. The inode table and data blocks live in the backing store and are
/// reached through the records' `read_at`/`write_at` at offsets this type
/// computes.
pub struct FsImage {
    pub sb: Superblock,
    pub ibitmap: IBitmap,
    pub dbitmap: DBitmap,
}

impl FsImage {
    /// The aggregate invariant: bitmaps are well formed and sized from the
    /// superblock's counts, and each free counter equals its capacity minus
    /// the number of set bits — so every allocation or deallocation moves
    /// bitmap and counter in lockstep.
    pub open spec fn wf(self) -> bool {
        &&& self.ibitmap.wf()
        &&& self.dbitmap.wf()
        &&& self.ibitmap.icount == self.sb.icount as u64
        &&& self.dbitmap.bcount == self.sb.bcount as u64
        &&& self.sb.finodes as int == self.sb.icount as int - count_set(self.ibitmap.bits()) as int
        &&& self.sb.fblocks as int == self.sb.bcount as int - count_set(self.dbitmap.bits()) as int
    }

    /// Creates a fresh image at format time: a valid superblock with the
    /// given geometry and all-free bitmaps sized from it.
    pub fn format(
        total_inodes: u32,
        total_blocks: u32,
        block_size: u32,
        version: u32,
        root_inode: u32,
    ) -> (r: FsImage)
        requires
            version >= 1,
        ensures
            r.wf(),
            r.sb.valid(),
            r.sb == (Superblock {
                version: version,
                magic: MAGIC,
                rinode: root_inode,
                finodes: total_inodes,
                icount: total_inodes,
                i_size: INODE_SIZE as u32,
                bcount: total_blocks,
                bsize: block_size,
                fblocks: total_blocks,
            }),
            forall|i: u64| i < total_inodes as u64 ==> !r.ibitmap.bit(i),
            forall|i: u64| i < total_blocks as u64 ==> !r.dbitmap.bit(i),
    {
        let sb = Superblock {
            version,
            magic: MAGIC,
            rinode: root_inode,
            finodes: total_inodes,
            icount: total_inodes,
            i_size: INODE_SIZE as u32,
            bcount: total_blocks,
            bsize: block_size,
            fblocks: total_blocks,
        };
        let ibitmap = IBitmap::new(total_inodes as u64);
        let dbitmap = DBitmap::new(total_blocks as u64);
        let r = FsImage { sb, ibitmap, dbitmap };
        proof {
            lemma_capacity_covered(r.ibitmap.icount, r.ibitmap.bitmap@.len() as int);
            lemma_capacity_covered(r.dbitmap.bcount, r.dbitmap.bitmap@.len() as int);
            lemma_count_set_zero(r.ibitmap.bits());
            lemma_count_set_zero(r.dbitmap.bits());
        }
        r
    }

    /// The byte offset of inode slot `k`: past the superblock region, both
    /// bitmap regions, and the `k` earlier fixed-size slots.
    pub open spec fn spec_inode_offset(self, k: u32) -> int {
        SUPERBLOCK_SIZE + bitmap_region_bytes(self.ibitmap.icount) + bitmap_region_bytes(
            self.dbitmap.bcount,
        ) + k as int * self.sb.i_size as int
    }

    /// Computes the byte offset of inode slot `k` in the backing store.
    pub fn inode_offset(&self, k: u32) -> (r: u64)
        requires
            self.wf(),
        ensures
            r as int == self.spec_inode_offset(k),
    {
        let iwords = (self.ibitmap.icount + 63) / 64;
        let dwords = (self.dbitmap.bcount + 63) / 64;
        proof {
            assert(k as int * self.sb.i_size as int <= 0xFFFF_FFFFint * 0xFFFF_FFFFint)
                by (nonlinear_arith)
                requires
                    k <= 0xFFFF_FFFFu32 && self.sb.i_size <= 0xFFFF_FFFFu32,
            ;
        }
        (SUPERBLOCK_SIZE as u64) + iwords * 8 + dwords * 8 + (k as u64) * (self.sb.i_size as u64)
    }

    /// Allocates the lowest-numbered free inode identifier: sets its bitmap
    /// bit, decrements the free-inode counter, and hands back a fresh record
    /// with that identifier, all block pointers zeroed, a link count of 1 and
    /// creation/modification stamped `now`. Fails with `Exhausted`, touching
    /// nothing, exactly when the free-inode counter is zero.
    pub fn allocate_inode(&mut self, mode: u32, ftype: FileType, now: u64) -> (r: Result<
        Inode,
        FsError,
    >)
        requires
            old(self).wf(),
        ensures
            final(self).wf(),
            same_geometry(final(self).sb, old(self).sb),
            final(self).sb.fblocks == old(self).sb.fblocks,
            final(self).dbitmap.bitmap@ == old(self).dbitmap.bitmap@,
            final(self).dbitmap.bcount == old(self).dbitmap.bcount,
            match r {
                Ok(ino) => {
                    &&& old(self).sb.finodes > 0
                    &&& old(self).ibitmap.first_free_is(ino.identifier as u64)
                    &&& final(self).ibitmap.bit(ino.identifier as u64)
                    &&& forall|j: u64|
                        j < final(self).ibitmap.icount && j != ino.identifier as u64 ==> final(self).ibitmap.bit(j) == old(self).ibitmap.bit(j)
                    &&& final(self).sb.finodes == old(self).sb.finodes - 1
                    &&& ino.mode == mode && ino.ftype == ftype
                    &&& ino.ctime == now && ino.mtime == now && ino.time == now && ino.dtime == 0
                    &&& ino.lcount == 1 && ino.size == 0 && ino.uid == 0 && ino.gid == 0
                    &&& forall|k: int| 0 <= k < 12 ==> ino.dblocks@[k] == 0u32
                    &&& forall|k: int| 0 <= k < 3 ==> ino.iblocks@[k] == 0u32
                },
                Err(e) => {
                    &&& e == FsError::Exhausted
                    &&& old(self).sb.finodes == 0
                    &&& final(self).sb == old(self).sb
                    &&& final(self).ibitmap.bitmap@ == old(self).ibitmap.bitmap@
                    &&& final(self).ibitmap.icount == old(self).ibitmap.icount
                },
            },
    {
        proof {
            lemma_capacity_covered(self.ibitmap.icount, self.ibitmap.bitmap@.len() as int);
        }
        let id = match self.ibitmap.find_first_available() {
            Some(id) => id,
            None => {
                proof {
                    assert forall|i: int| 0 <= i < self.ibitmap.bits().len() implies self.ibitmap.bits()[i] by {
                        assert(self.ibitmap.bit(i as u64));
                    }
                    lemma_count_set_all(self.ibitmap.bits());
                }
                return Err(FsError::Exhausted);
            },
        };
        proof {
            let s = self.ibitmap.bits();
            lemma_count_set_le_len(s);
            if count_set(s) == s.len() {
                lemma_count_set_full(s);
                assert(s[id as int]);
            }
        }
        let ghost prev = self.ibitmap.bits();
        match self.ibitmap.set(id) {
            Ok(()) => {},
            Err(_) => {
                proof {
                    assert(false);
                }
                return Err(FsError::Exhausted);
            },
        }
        proof {
            assert(self.ibitmap.bits() =~= prev.update(id as int, true));
            lemma_count_set_update(prev, id as int, true);
        }
        let f = self.sb.get_free_inodes();
        self.sb.set_free_inodes(f - 1);
        let ino = Inode {
            identifier: id as u32,
            mode,
            ftype,
            uid: 0,
            size: 0,
            time: now,
            ctime: now,
            mtime: now,
            dtime: 0,
            gid: 0,
            dblocks: [0u32; 12],
            iblocks: [0u32; 3],
            lcount: 1,
        };
        Ok(ino)
    }

    /// Allocates the lowest-numbered free block identifier: sets its bitmap
    /// bit and decrements the free-block counter. Fails with `Exhausted`,
    /// touching nothing, exactly when the free-block counter is zero.
    pub fn allocate_block(&mut self) -> (r: Result<u32, FsError>)
        requires
            old(self).wf(),
        ensures
            final(self).wf(),
            same_geometry(final(self).sb, old(self).sb),
            final(self).sb.finodes == old(self).sb.finodes,
            final(self).ibitmap.bitmap@ == old(self).ibitmap.bitmap@,
            final(self).ibitmap.icount == old(self).ibitmap.icount,
            match r {
                Ok(b) => {
                    &&& old(self).sb.fblocks > 0
                    &&& old(self).dbitmap.first_free_is(b as u64)
                    &&& final(self).dbitmap.bit(b as u64)
                    &&& forall|j: u64|
                        j < final(self).dbitmap.bcount && j != b as u64 ==> final(self).dbitmap.bit(j) == old(self).dbitmap.bit(j)
                    &&& final(self).sb.fblocks == old(self).sb.fblocks - 1
                },
                Err(e) => {
                    &&& e == FsError::Exhausted
                    &&& old(self).sb.fblocks == 0
                    &&& final(self).sb == old(self).sb
                    &&& final(self).dbitmap.bitmap@ == old(self).dbitmap.bitmap@
                    &&& final(self).dbitmap.bcount == old(self).dbitmap.bcount
                },
            },
    {
        proof {
            lemma_capacity_covered(self.dbitmap.bcount, self.dbitmap.bitmap@.len() as int);
        }
        let b = match self.dbitmap.find_first_available() {
            Some(b) => b,
            None => {
                proof {
                    assert forall|i: int| 0 <= i < self.dbitmap.bits().len() implies self.dbitmap.bits()[i] by {
                        assert(self.dbitmap.bit(i as u64));
                    }
                    lemma_count_set_all(self.dbitmap.bits());
                }
                return Err(FsError::Exhausted);
            },
        };
        proof {
            let s = self.dbitmap.bits();
            lemma_count_set_le_len(s);
            if count_set(s) == s.len() {
                lemma_count_set_full(s);
                assert(s[b as int]);
            }
        }
        let ghost prev = self.dbitmap.bits();
        match self.dbitmap.set(b) {
            Ok(()) => {},
            Err(_) => {
                proof {
                    assert(false);
                }
                return Err(FsError::Exhausted);
            },
        }
        proof {
            assert(self.dbitmap.bits() =~= prev.update(b as int, true));
            lemma_count_set_update(prev, b as int, true);
        }
        let f = self.sb.get_free_blocks();
        self.sb.set_free_blocks(f - 1);
        Ok(b as u32)
    }

    /// Returns one block to the free pool: clears its bitmap bit and, when
    /// the bit was set, increments the free-block counter. A zero pointer is
    /// an unallocated slot and is left alone.
    fn release_block(&mut self, b: u32) -> (r: Result<(), FsError>)
        requires
            old(self).wf(),
        ensures
            final(self).wf(),
            same_geometry(final(self).sb, old(self).sb),
            final(self).sb.finodes == old(self).sb.finodes,
            final(self).ibitmap.bitmap@ == old(self).ibitmap.bitmap@,
            final(self).ibitmap.icount == old(self).ibitmap.icount,
            final(self).dbitmap.bcount == old(self).dbitmap.bcount,
            match r {
                Ok(()) => {
                    &&& b == 0 || (b as u64) < old(self).dbitmap.bcount
                    &&& b != 0 ==> final(self).dbitmap.bits() == old(self).dbitmap.bits().update(
                        b as int,
                        false,
                    )
                    &&& b == 0 ==> final(self).dbitmap.bits() == old(self).dbitmap.bits()
                },
                Err(e) => {
                    &&& e == FsError::OutOfBounds
                    &&& b != 0 && (b as u64) >= old(self).dbitmap.bcount
                    &&& final(self).sb == old(self).sb
                    &&& final(self).dbitmap.bitmap@ == old(self).dbitmap.bitmap@
                },
            },
    {
        if b == 0 {
            return Ok(());
        }
        proof {
            lemma_capacity_covered(self.dbitmap.bcount, self.dbitmap.bitmap@.len() as int);
        }
        let was = match self.dbitmap.is_set(b as u64) {
            Ok(w) => w,
            Err(e) => {
                return Err(e);
            },
        };
        let ghost prev = self.dbitmap.bits();
        match self.dbitmap.clear(b as u64) {
            Ok(()) => {},
            Err(_) => {
                proof {
                    assert(false);
                }
                return Err(FsError::OutOfBounds);
            },
        }
        proof {
            assert(self.dbitmap.bits() =~= prev.update(b as int, false));
            lemma_count_set_update(prev, b as int, false);
            if was {
                lemma_count_set_pos(prev, b as int);
            }
            lemma_count_set_le_len(prev);
        }
        if was {
            let f = self.sb.get_free_blocks();
            self.sb.set_free_blocks(f + 1);
        }
        Ok(())
    }

    /// Reclaims an inode whose link count has reached zero: stamps its
    /// deletion time, clears its inode-bitmap bit (incrementing the
    /// free-inode counter), and returns every block named by a nonzero
    /// direct or indirect pointer to the free pool, the free-block counter
    /// moving in lockstep. Nonzero pointers must name positions of the block
    /// bitmap.
    pub fn reclaim_inode(&mut self, ino: &mut Inode, dtime: u64) -> (r: Result<(), FsError>)
        requires
            old(self).wf(),
            old(ino).lcount == 0,
            (old(ino).identifier as u64) < old(self).ibitmap.icount,
            forall|k: int|
                0 <= k < 12 ==> old(ino).dblocks@[k] == 0 || (old(ino).dblocks@[k] as u64) < old(self).dbitmap.bcount,
            forall|k: int|
                0 <= k < 3 ==> old(ino).iblocks@[k] == 0 || (old(ino).iblocks@[k] as u64) < old(self).dbitmap.bcount,
        ensures
            final(self).wf(),
            same_geometry(final(self).sb, old(self).sb),
            final(self).ibitmap.icount == old(self).ibitmap.icount,
            final(self).dbitmap.bcount == old(self).dbitmap.bcount,
            r == Ok::<(), FsError>(()),
            *final(ino) == (Inode { dtime: dtime, ..*old(ino) }),
            !final(self).ibitmap.bit(old(ino).identifier as u64),
            forall|j: u64|
                j < final(self).ibitmap.icount && j != old(ino).identifier as u64 ==> final(self).ibitmap.bit(j) == old(self).ibitmap.bit(j),
            final(self).sb.finodes as int == old(self).sb.finodes + (if old(self).ibitmap.bit(
                old(ino).identifier as u64,
            ) {
                1int
            } else {
                0int
            }),
            final(self).dbitmap.bits() == clear_ptrs(
                clear_ptrs(old(self).dbitmap.bits(), old(ino).dblocks@, 12),
                old(ino).iblocks@,
                3,
            ),
    {
        ino.dtime = dtime;
        let id = ino.identifier as u64;
        proof {
            lemma_capacity_covered(self.ibitmap.icount, self.ibitmap.bitmap@.len() as int);
        }
        let was = match self.ibitmap.is_set(id) {
            Ok(w) => w,
            Err(_) => {
                proof {
                    assert(false);
                }
                false
            },
        };
        let ghost iprev = self.ibitmap.bits();
        match self.ibitmap.clear(id) {
            Ok(()) => {},
            Err(_) => {
                proof {
                    assert(false);
                }
                return Err(FsError::OutOfBounds);
            },
        }
        proof {
            assert(self.ibitmap.bits() =~= iprev.update(id as int, false));
            lemma_count_set_update(iprev, id as int, false);
            if was {
                lemma_count_set_pos(iprev, id as int);
            }
            lemma_count_set_le_len(iprev);
        }
        if was {
            let f = self.sb.get_free_inodes();
            self.sb.set_free_inodes(f + 1);
        }
        let ghost mid = *self;
        let mut k: usize = 0;
        while k < 12
            invariant
                self.wf(),
                mid.wf(),
                k <= 12,
                same_geometry(self.sb, mid.sb),
                self.sb.finodes == mid.sb.finodes,
                self.ibitmap.bitmap@ == mid.ibitmap.bitmap@,
                self.ibitmap.icount == mid.ibitmap.icount,
                self.dbitmap.bcount == mid.dbitmap.bcount,
                forall|x: int|
                    0 <= x < 12 ==> ino.dblocks@[x] == 0 || (ino.dblocks@[x] as u64)
                        < mid.dbitmap.bcount,
                self.dbitmap.bits() == clear_ptrs(mid.dbitmap.bits(), ino.dblocks@, k as int),
            decreases 12 - k,
        {
            let b = ino.dblocks[k];
            match self.release_block(b) {
                Ok(()) => {},
                Err(_) => {
                    proof {
                        assert(false);
                    }
                    return Err(FsError::OutOfBounds);
                },
            }
            proof {
                assert(self.dbitmap.bits() == clear_ptrs(
                    mid.dbitmap.bits(),
                    ino.dblocks@,
                    k + 1,
                ));
            }
            k += 1;
        }
        let ghost mid2 = *self;
        let mut t: usize = 0;
        while t < 3
            invariant
                self.wf(),
                mid.wf(),
                mid2.wf(),
                t <= 3,
                same_geometry(self.sb, mid2.sb),
                self.sb.finodes == mid2.sb.finodes,
                self.ibitmap.bitmap@ == mid2.ibitmap.bitmap@,
                self.ibitmap.icount == mid2.ibitmap.icount,
                self.dbitmap.bcount == mid2.dbitmap.bcount,
                forall|x: int|
                    0 <= x < 3 ==> ino.iblocks@[x] == 0 || (ino.iblocks@[x] as u64)
                        < mid2.dbitmap.bcount,
                self.dbitmap.bits() == clear_ptrs(mid2.dbitmap.bits(), ino.iblocks@, t as int),
            decreases 3 - t,
        {
            let b = ino.iblocks[t];
            match self.release_block(b) {
                Ok(()) => {},
                Err(_) => {
                    proof {
                        assert(false);
                    }
                    return Err(FsError::OutOfBounds);
                },
            }
            proof {
                assert(self.dbitmap.bits() == clear_ptrs(
                    mid2.dbitmap.bits(),
                    ino.iblocks@,
                    t + 1,
                ));
            }
            t += 1;
        }
        proof {
            assert(mid.dbitmap.bits() == old(self).dbitmap.bits());
            assert(ino.dblocks@ == old(ino).dblocks@ && ino.iblocks@ == old(ino).iblocks@);
        }
        Ok(())
    }
}

} // verus!
