//! The superblock: filesystem-wide metadata — capacity, free counts, root
//! inode reference, on-disk geometry, magic/version validation — together
//! with its fixed binary layout: nine 32-bit fields, little endian, in field
//! order, 36 bytes in all.

use vstd::prelude::*;

verus! {

use crate::codec::u32_from_le;
use crate::codec::u32_le_bytes;
use crate::codec::lemma_u32_le_roundtrip;
use crate::codec::push_u32_le;
use crate::codec::read_u32_le;
use crate::codec::write_bytes_at;
use crate::error::FsError;

/// The reserved sentinel identifying a valid image.
pub const MAGIC: u32 = 0xDEAD_BEEF;

/// The size of one serialized superblock record, in bytes.
pub const SUPERBLOCK_SIZE: usize = 36;

/// Filesystem-wide metadata, one record per image. It is the root of trust
/// for all other structures: geometry fields may be trusted only after
/// `is_valid` passes.
#[derive(Clone, Copy, Debug, PartialEq, Eq, Structural)]
pub struct Superblock {
    pub version: u32,  // format revision, >= 1 required
    pub magic: u32,  // sentinel identifying the format
    pub rinode: u32,  // root inode identifier
    pub finodes: u32,  // free inode count
    pub icount: u32,  // total inode count
    pub i_size: u32,  // inode record size in bytes
    pub bcount: u32,  // total block count
    pub bsize: u32,  // block size in bytes
    pub fblocks: u32,  // free block count
}

impl Superblock {
    /// Magic and version are checked before any geometry field is trusted.
    pub open spec fn valid(self) -> bool {
        self.magic == MAGIC && self.version >= 1
    }

    /// The fixed binary layout: each field as four little-endian bytes, in
    /// field order.
    pub open spec fn spec_encode(self) -> Seq<u8> {
        u32_le_bytes(self.version) + u32_le_bytes(self.magic) + u32_le_bytes(self.rinode)
            + u32_le_bytes(self.finodes) + u32_le_bytes(self.icount) + u32_le_bytes(self.i_size)
            + u32_le_bytes(self.bcount) + u32_le_bytes(self.bsize) + u32_le_bytes(self.fblocks)
    }

    /// The record held by 36 bytes of the fixed layout.
    pub open spec fn spec_decode(b: Seq<u8>) -> Superblock {
        Superblock {
            version: u32_from_le(b[0], b[1], b[2], b[3]),
            magic: u32_from_le(b[4], b[5], b[6], b[7]),
            rinode: u32_from_le(b[8], b[9], b[10], b[11]),
            finodes: u32_from_le(b[12], b[13], b[14], b[15]),
            icount: u32_from_le(b[16], b[17], b[18], b[19]),
            i_size: u32_from_le(b[20], b[21], b[22], b[23]),
            bcount: u32_from_le(b[24], b[25], b[26], b[27]),
            bsize: u32_from_le(b[28], b[29], b[30], b[31]),
            fblocks: u32_from_le(b[32], b[33], b[34], b[35]),
        }
    }

    /// Creates an all-zero superblock; `set_magic` and `set_version` make it
    /// valid at format time.
    pub fn new() -> (r: Self)
        ensures
            r == (Superblock {
                version: 0u32,
                magic: 0u32,
                rinode: 0u32,
                finodes: 0u32,
                icount: 0u32,
                i_size: 0u32,
                bcount: 0u32,
                bsize: 0u32,
                fblocks: 0u32,
            }),
    {
        Superblock {
            version: 0,
            magic: 0,
            rinode: 0,
            finodes: 0,
            icount: 0,
            i_size: 0,
            bcount: 0,
            bsize: 0,
            fblocks: 0,
        }
    }

    /// Serializes the record into its fixed 36-byte layout.
    pub fn encode(&self) -> (r: Vec<u8>)
        ensures
            r@ == self.spec_encode(),
            r@.len() == SUPERBLOCK_SIZE,
    {
        let mut buf: Vec<u8> = Vec::new();
        push_u32_le(&mut buf, self.version);
        push_u32_le(&mut buf, self.magic);
        push_u32_le(&mut buf, self.rinode);
        push_u32_le(&mut buf, self.finodes);
        push_u32_le(&mut buf, self.icount);
        push_u32_le(&mut buf, self.i_size);
        push_u32_le(&mut buf, self.bcount);
        push_u32_le(&mut buf, self.bsize);
        push_u32_le(&mut buf, self.fblocks);
        proof {
            assert(buf@ =~= self.spec_encode());
        }
        buf
    }

    /// Writes the record at `offset`, replacing exactly `SUPERBLOCK_SIZE`
    /// bytes and disturbing no neighboring byte. Fails with `Io`, touching
    /// nothing, when the slot does not fit the store.
    pub fn write_at(&self, store: &mut Vec<u8>, offset: usize) -> (r: Result<(), FsError>)
        ensures
            final(store)@.len() == old(store)@.len(),
            match r {
                Ok(()) => {
                    &&& offset + SUPERBLOCK_SIZE <= old(store)@.len()
                    &&& forall|k: int|
                        0 <= k < SUPERBLOCK_SIZE ==> final(store)@[offset + k]
                            == self.spec_encode()[k]
                    &&& forall|k: int|
                        0 <= k < old(store)@.len() && !(offset <= k < offset + SUPERBLOCK_SIZE)
                            ==> final(store)@[k] == old(store)@[k]
                },
                Err(e) => {
                    &&& e == FsError::Io
                    &&& offset + SUPERBLOCK_SIZE > old(store)@.len()
                    &&& final(store)@ == old(store)@
                },
            },
    {
        if store.len() < SUPERBLOCK_SIZE || offset > store.len() - SUPERBLOCK_SIZE {
            return Err(FsError::Io);
        }
        let buf = self.encode();
        write_bytes_at(store, offset, &buf);
        Ok(())
    }

    /// Reads exactly `SUPERBLOCK_SIZE` bytes at `offset` and deserializes
    /// them. Fails with `Decode` when the store is too short for the slot.
    pub fn read_at(store: &Vec<u8>, offset: usize) -> (r: Result<Superblock, FsError>)
        ensures
            match r {
                Ok(sb) => {
                    &&& offset + SUPERBLOCK_SIZE <= store@.len()
                    &&& sb == Superblock::spec_decode(
                        store@.subrange(offset as int, offset + SUPERBLOCK_SIZE),
                    )
                },
                Err(e) => {
                    &&& e == FsError::Decode
                    &&& offset + SUPERBLOCK_SIZE > store@.len()
                },
            },
    {
        if store.len() < SUPERBLOCK_SIZE || offset > store.len() - SUPERBLOCK_SIZE {
            return Err(FsError::Decode);
        }
        let sb = Superblock {
            version: read_u32_le(store, offset),
            magic: read_u32_le(store, offset + 4),
            rinode: read_u32_le(store, offset + 8),
            finodes: read_u32_le(store, offset + 12),
            icount: read_u32_le(store, offset + 16),
            i_size: read_u32_le(store, offset + 20),
            bcount: read_u32_le(store, offset + 24),
            bsize: read_u32_le(store, offset + 28),
            fblocks: read_u32_le(store, offset + 32),
        };
        proof {
            assert(sb == Superblock::spec_decode(
                store@.subrange(offset as int, offset + SUPERBLOCK_SIZE),
            ));
        }
        Ok(sb)
    }

    /// The loader: reads the record at `offset` and rejects it before any
    /// other region is trusted — `Decode` on a truncated store, `Format` when
    /// the magic or version check fails.
    pub fn load_at(store: &Vec<u8>, offset: usize) -> (r: Result<Superblock, FsError>)
        ensures
            match r {
                Ok(sb) => {
                    &&& offset + SUPERBLOCK_SIZE <= store@.len()
                    &&& sb == Superblock::spec_decode(
                        store@.subrange(offset as int, offset + SUPERBLOCK_SIZE),
                    )
                    &&& sb.valid()
                },
                Err(e) => {
                    ||| (e == FsError::Decode && offset + SUPERBLOCK_SIZE > store@.len())
                    ||| (e == FsError::Format && offset + SUPERBLOCK_SIZE <= store@.len()
                        && !Superblock::spec_decode(
                        store@.subrange(offset as int, offset + SUPERBLOCK_SIZE),
                    ).valid())
                },
            },
    {
        let sb = Superblock::read_at(store, offset)?;
        if !sb.is_valid() {
            return Err(FsError::Format);
        }
        Ok(sb)
    }

    pub fn get_free_blocks(&self) -> (r: u32)
        ensures
            r == self.fblocks,
    {
        self.fblocks
    }

    pub fn set_free_blocks(&mut self, blocks: u32)
        ensures
            *final(self) == (Superblock { fblocks: blocks, ..*old(self) }),
    {
        self.fblocks = blocks;
    }

    pub fn get_free_inodes(&self) -> (r: u32)
        ensures
            r == self.finodes,
    {
        self.finodes
    }

    pub fn set_free_inodes(&mut self, inodes: u32)
        ensures
            *final(self) == (Superblock { finodes: inodes, ..*old(self) }),
    {
        self.finodes = inodes;
    }

    pub fn get_block_size(&self) -> (r: u32)
        ensures
            r == self.bsize,
    {
        self.bsize
    }

    pub fn set_block_size(&mut self, size: u32)
        ensures
            *final(self) == (Superblock { bsize: size, ..*old(self) }),
    {
        self.bsize = size;
    }

    pub fn get_inode_size(&self) -> (r: u32)
        ensures
            r == self.i_size,
    {
        self.i_size
    }

    pub fn set_inode_size(&mut self, size: u32)
        ensures
            *final(self) == (Superblock { i_size: size, ..*old(self) }),
    {
        self.i_size = size;
    }

    pub fn get_total_blocks(&self) -> (r: u32)
        ensures
            r == self.bcount,
    {
        self.bcount
    }

    pub fn set_total_blocks(&mut self, count: u32)
        ensures
            *final(self) == (Superblock { bcount: count, ..*old(self) }),
    {
        self.bcount = count;
    }

    pub fn get_total_inodes(&self) -> (r: u32)
        ensures
            r == self.icount,
    {
        self.icount
    }

    pub fn set_total_inodes(&mut self, count: u32)
        ensures
            *final(self) == (Superblock { icount: count, ..*old(self) }),
    {
        self.icount = count;
    }

    /// Checks `magic == MAGIC && version >= 1`; geometry may be trusted only
    /// after this passes.
    pub fn is_valid(&self) -> (r: bool)
        ensures
            r == self.valid(),
    {
        self.magic == MAGIC && self.version >= 1
    }

    pub fn get_root_inode(&self) -> (r: u32)
        ensures
            r == self.rinode,
    {
        self.rinode
    }

    pub fn set_root_inode(&mut self, inode: u32)
        ensures
            *final(self) == (Superblock { rinode: inode, ..*old(self) }),
    {
        self.rinode = inode;
    }

    pub fn get_version(&self) -> (r: u32)
        ensures
            r == self.version,
    {
        self.version
    }

    pub fn set_version(&mut self, version: u32)
        ensures
            *final(self) == (Superblock { version: version, ..*old(self) }),
    {
        self.version = version;
    }

    pub fn get_magic(&self) -> (r: u32)
        ensures
            r == self.magic,
    {
        self.magic
    }

    pub fn set_magic(&mut self, magic: u32)
        ensures
            *final(self) == (Superblock { magic: magic, ..*old(self) }),
    {
        self.magic = magic;
    }
}

/// Round-trip law: decoding the fixed layout of any superblock record gives
/// back a record equal to the original.
pub proof fn lemma_superblock_roundtrip(sb: Superblock)
    ensures
        sb.spec_encode().len() == SUPERBLOCK_SIZE,
        Superblock::spec_decode(sb.spec_encode()) == sb,
{
    lemma_u32_le_roundtrip(sb.version);
    lemma_u32_le_roundtrip(sb.magic);
    lemma_u32_le_roundtrip(sb.rinode);
    lemma_u32_le_roundtrip(sb.finodes);
    lemma_u32_le_roundtrip(sb.icount);
    lemma_u32_le_roundtrip(sb.i_size);
    lemma_u32_le_roundtrip(sb.bcount);
    lemma_u32_le_roundtrip(sb.bsize);
    lemma_u32_le_roundtrip(sb.fblocks);
}

/// Round-trip law over a backing store: a store that holds a superblock's
/// encoding at `offset` — as `write_at` leaves it — decodes at the same
/// offset, as `read_at` does, to a record equal to the original.
pub proof fn lemma_superblock_read_after_write(bytes: Seq<u8>, sb: Superblock, offset: int)
    requires
        0 <= offset,
        offset + SUPERBLOCK_SIZE <= bytes.len(),
        forall|k: int| 0 <= k < SUPERBLOCK_SIZE ==> bytes[offset + k] == sb.spec_encode()[k],
    ensures
        Superblock::spec_decode(bytes.subrange(offset, offset + SUPERBLOCK_SIZE)) == sb,
{
    lemma_superblock_roundtrip(sb);
    assert(bytes.subrange(offset, offset + SUPERBLOCK_SIZE) =~= sb.spec_encode());
}

} // verus!
