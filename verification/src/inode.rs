//! The inode record: fixed-size metadata describing one file, directory or
//! symlink, including twelve direct and three indirect block pointers, with
//! its fixed binary layout: scalar fields little endian in field order, the
//! file type as a 32-bit tag, 124 bytes in all. Block pointers of value 0
//! denote an unallocated slot and must never be dereferenced.

use vstd::prelude::*;

verus! {

broadcast use vstd::array::group_array_axioms;

use crate::codec::u32_from_le;
use crate::codec::u32_le_bytes;
use crate::codec::u64_from_le;
use crate::codec::u64_le_bytes;
use crate::codec::lemma_u32_le_roundtrip;
use crate::codec::lemma_u64_le_roundtrip;
use crate::codec::push_u32_le;
use crate::codec::push_u64_le;
use crate::codec::read_u32_le;
use crate::codec::read_u64_le;
use crate::codec::write_bytes_at;
use crate::error::FsError;

/// The size of one serialized inode record, in bytes.
pub const INODE_SIZE: usize = 124;

/// The closed set of object kinds an inode can describe. On disk the kind is
/// a 32-bit tag; an unrecognized tag is rejected with an explicit error, not
/// silently discarded.
#[derive(Clone, Copy, Debug, PartialEq, Eq, Structural)]
pub enum FileType {
    RegularFile,
    Directory,
    SymLink,
}

impl FileType {
    /// The 32-bit on-disk tag of this kind.
    pub open spec fn spec_code(self) -> u32 {
        match self {
            FileType::RegularFile => 0u32,
            FileType::Directory => 1u32,
            FileType::SymLink => 2u32,
        }
    }

    /// Returns the on-disk tag of this kind.
    pub fn code(&self) -> (r: u32)
        ensures
            r == self.spec_code(),
    {
        match self {
            FileType::RegularFile => 0,
            FileType::Directory => 1,
            FileType::SymLink => 2,
        }
    }

    /// The kind a 32-bit tag denotes; an unrecognized tag is a decode error.
    pub fn from_code(t: u32) -> (r: Result<FileType, FsError>)
        ensures
            match r {
                Ok(ft) => t < 3 && ft.spec_code() == t,
                Err(e) => e == FsError::Decode && t >= 3,
            },
    {
        match t {
            0 => Ok(FileType::RegularFile),
            1 => Ok(FileType::Directory),
            2 => Ok(FileType::SymLink),
            _ => Err(FsError::Decode),
        }
    }
}

/// Fixed-size metadata for one filesystem object, addressed by its
/// identifier. Identifier 0 is reserved as invalid: a record is valid only
/// once its identifier, mode and size are nonzero.
#[derive(Clone, Copy, Debug, PartialEq, Eq)]
pub struct Inode {
    pub identifier: u32,  // inode number
    pub mode: u32,  // permission bits
    pub ftype: FileType,  // file type
    pub uid: u32,  // owner user
    pub size: u64,  // file size in bytes
    pub time: u64,  // last accessed
    pub ctime: u64,  // created at
    pub mtime: u64,  // modified at
    pub dtime: u64,  // deleted at
    pub gid: u32,  // owner group
    pub dblocks: [u32; 12],  // direct block pointers, 0 = unallocated slot
    pub iblocks: [u32; 3],  // indirect block pointers, 0 = unallocated slot
    pub lcount: u32,  // link count
}

impl Inode {
    /// The cheap sanity predicate behind `is_valid`: it flags obviously
    /// uninitialized records and must not be used to decide reclamation.
    pub open spec fn valid(self) -> bool {
        self.size > 0 && self.identifier > 0 && self.mode > 0
    }

    /// The fixed binary layout: scalar fields little endian in field order,
    /// the file type as its 32-bit tag, then the twelve direct and three
    /// indirect pointers, then the link count.
    pub open spec fn spec_encode(self) -> Seq<u8> {
        u32_le_bytes(self.identifier) + u32_le_bytes(self.mode) + u32_le_bytes(
            self.ftype.spec_code(),
        ) + u32_le_bytes(self.uid) + u64_le_bytes(self.size) + u64_le_bytes(self.time)
            + u64_le_bytes(self.ctime) + u64_le_bytes(self.mtime) + u64_le_bytes(self.dtime)
            + u32_le_bytes(self.gid) + Self::u32s_bytes(self.dblocks@) + Self::u32s_bytes(
            self.iblocks@,
        ) + u32_le_bytes(self.lcount)
    }

    /// The file-type tag held by an encoded record.
    pub open spec fn tag_of(b: Seq<u8>) -> u32 {
        u32_from_le(b[8], b[9], b[10], b[11])
    }

    /// The pointer values held by `n` consecutive 32-bit slots starting at
    /// byte `base` of an encoded record.
    pub open spec fn decoded_u32s(b: Seq<u8>, base: int, n: nat) -> Seq<u32> {
        Seq::new(
            n,
            |k: int|
                u32_from_le(b[base + 4 * k], b[base + 4 * k + 1], b[base + 4 * k + 2], b[base + 4
                    * k + 3]),
        )
    }

    /// `ino` is the record held by the 124 bytes `b` of the fixed layout.
    /// Every field of `ino` is pinned by `b`, so at most one record decodes
    /// from given bytes.
    pub open spec fn decodes_to(b: Seq<u8>, ino: Inode) -> bool {
        &&& ino.identifier == u32_from_le(b[0], b[1], b[2], b[3])
        &&& ino.mode == u32_from_le(b[4], b[5], b[6], b[7])
        &&& ino.ftype.spec_code() == Self::tag_of(b)
        &&& ino.uid == u32_from_le(b[12], b[13], b[14], b[15])
        &&& ino.size == u64_from_le(b[16], b[17], b[18], b[19], b[20], b[21], b[22], b[23])
        &&& ino.time == u64_from_le(b[24], b[25], b[26], b[27], b[28], b[29], b[30], b[31])
        &&& ino.ctime == u64_from_le(b[32], b[33], b[34], b[35], b[36], b[37], b[38], b[39])
        &&& ino.mtime == u64_from_le(b[40], b[41], b[42], b[43], b[44], b[45], b[46], b[47])
        &&& ino.dtime == u64_from_le(b[48], b[49], b[50], b[51], b[52], b[53], b[54], b[55])
        &&& ino.gid == u32_from_le(b[56], b[57], b[58], b[59])
        &&& ino.dblocks@ == Self::decoded_u32s(b, 60, 12)
        &&& ino.iblocks@ == Self::decoded_u32s(b, 108, 3)
        &&& ino.lcount == u32_from_le(b[120], b[121], b[122], b[123])
    }

    /// Whether a nonzero direct or indirect pointer of this record names
    /// block identifier `b`.
    pub open spec fn references_block_u64(self, b: u64) -> bool {
        b != 0 && ((exists|k: int| 0 <= k < 12 && self.dblocks@[k] as u64 == b) || (exists|k: int|
            0 <= k < 3 && self.iblocks@[k] as u64 == b))
    }

    /// Creates an all-zero record of regular-file type; it is not `valid`
    /// until a caller fills identifier, mode and size.
    pub fn new() -> (r: Self)
        ensures
            r.identifier == 0 && r.mode == 0 && r.ftype == FileType::RegularFile && r.uid == 0
                && r.size == 0 && r.time == 0 && r.ctime == 0 && r.mtime == 0 && r.dtime == 0
                && r.gid == 0 && r.lcount == 0,
            forall|k: int| 0 <= k < 12 ==> r.dblocks@[k] == 0u32,
            forall|k: int| 0 <= k < 3 ==> r.iblocks@[k] == 0u32,
    {
        Inode {
            identifier: 0,
            mode: 0,
            ftype: FileType::RegularFile,
            uid: 0,
            size: 0,
            time: 0,
            ctime: 0,
            mtime: 0,
            dtime: 0,
            gid: 0,
            dblocks: [0u32; 12],
            iblocks: [0u32; 3],
            lcount: 0,
        }
    }

    /// Cheap sanity check for obviously uninitialized records.
    pub fn is_valid(&self) -> (r: bool)
        ensures
            r == self.valid(),
    {
        self.size > 0 && self.identifier > 0 && self.mode > 0
    }

    /// Serializes the concatenated little-endian bytes of a pointer region.
    fn encode_u32s(vals: &[u32]) -> (r: Vec<u8>)
        ensures
            r@ == Self::u32s_bytes(vals@),
    {
        let n = vals.len();
        let mut buf: Vec<u8> = Vec::new();
        let mut k: usize = 0;
        proof {
            assert(vals@.take(0) =~= Seq::<u32>::empty());
        }
        while k < n
            invariant
                n == vals@.len(),
                k <= n,
                buf@ == Self::u32s_bytes(vals@.take(k as int)),
            decreases n - k,
        {
            let ghost pre = vals@.take(k as int);
            push_u32_le(&mut buf, vals[k]);
            proof {
                Self::lemma_u32s_bytes_push(pre, vals@[k as int]);
                assert(vals@.take(k + 1) =~= pre.push(vals@[k as int]));
            }
            k += 1;
        }
        proof {
            assert(vals@.take(n as int) =~= vals@);
        }
        buf
    }

    /// Serializes the record into its fixed 124-byte layout.
    pub fn encode(&self) -> (r: Vec<u8>)
        ensures
            r@ == self.spec_encode(),
            r@.len() == INODE_SIZE,
    {
        let mut buf: Vec<u8> = Vec::new();
        push_u32_le(&mut buf, self.identifier);
        push_u32_le(&mut buf, self.mode);
        push_u32_le(&mut buf, self.ftype.code());
        push_u32_le(&mut buf, self.uid);
        push_u64_le(&mut buf, self.size);
        push_u64_le(&mut buf, self.time);
        push_u64_le(&mut buf, self.ctime);
        push_u64_le(&mut buf, self.mtime);
        push_u64_le(&mut buf, self.dtime);
        push_u32_le(&mut buf, self.gid);
        let mut dbytes = Self::encode_u32s(self.dblocks.as_slice());
        buf.append(&mut dbytes);
        let mut ibytes = Self::encode_u32s(self.iblocks.as_slice());
        buf.append(&mut ibytes);
        push_u32_le(&mut buf, self.lcount);
        proof {
            self.lemma_spec_encode_len();
            assert(buf@ =~= self.spec_encode());
        }
        buf
    }

    /// The concatenated little-endian bytes of a pointer sequence.
    pub open spec fn u32s_bytes(s: Seq<u32>) -> Seq<u8>
        decreases s.len(),
    {
        if s.len() == 0 {
            Seq::empty()
        } else {
            Self::u32s_bytes(s.drop_last()) + u32_le_bytes(s.last())
        }
    }

    proof fn lemma_u32s_bytes_push(s: Seq<u32>, v: u32)
        ensures
            Self::u32s_bytes(s.push(v)) == Self::u32s_bytes(s) + u32_le_bytes(v),
    {
        assert(s.push(v).drop_last() =~= s);
        assert(s.push(v).last() == v);
    }

    proof fn lemma_u32s_bytes_len(s: Seq<u32>)
        ensures
            Self::u32s_bytes(s).len() == 4 * s.len(),
        decreases s.len(),
    {
        if s.len() > 0 {
            Self::lemma_u32s_bytes_len(s.drop_last());
        }
    }

    proof fn lemma_u32s_bytes_index(s: Seq<u32>, k: int, j: int)
        requires
            0 <= k < s.len(),
            0 <= j < 4,
        ensures
            Self::u32s_bytes(s)[4 * k + j] == u32_le_bytes(s[k])[j],
        decreases s.len(),
    {
        Self::lemma_u32s_bytes_len(s);
        Self::lemma_u32s_bytes_len(s.drop_last());
        if k == s.len() - 1 {
        } else {
            Self::lemma_u32s_bytes_index(s.drop_last(), k, j);
        }
    }

    /// The encoded record is 124 bytes long.
    pub proof fn lemma_spec_encode_len(self)
        ensures
            self.spec_encode().len() == INODE_SIZE,
    {
        Self::lemma_u32s_bytes_len(self.dblocks@);
        Self::lemma_u32s_bytes_len(self.iblocks@);
    }

    /// Writes the record at `offset`, replacing exactly `INODE_SIZE` bytes
    /// and disturbing no neighboring byte. Fails with `Io`, touching
    /// nothing, when the slot does not fit the store.
    pub fn write_at(&self, store: &mut Vec<u8>, offset: usize) -> (r: Result<(), FsError>)
        ensures
            final(store)@.len() == old(store)@.len(),
            match r {
                Ok(()) => {
                    &&& offset + INODE_SIZE <= old(store)@.len()
                    &&& forall|k: int|
                        0 <= k < INODE_SIZE ==> final(store)@[offset + k] == self.spec_encode()[k]
                    &&& forall|k: int|
                        0 <= k < old(store)@.len() && !(offset <= k < offset + INODE_SIZE)
                            ==> final(store)@[k] == old(store)@[k]
                },
                Err(e) => {
                    &&& e == FsError::Io
                    &&& offset + INODE_SIZE > old(store)@.len()
                    &&& final(store)@ == old(store)@
                },
            },
    {
        if store.len() < INODE_SIZE || offset > store.len() - INODE_SIZE {
            return Err(FsError::Io);
        }
        let buf = self.encode();
        write_bytes_at(store, offset, &buf);
        Ok(())
    }

    /// Reads exactly `INODE_SIZE` bytes at `offset` and deserializes them.
    /// Fails with `Decode` when the store is too short for the slot or the
    /// file-type tag is unrecognized.
    #[verifier::rlimit(60)]
    pub fn read_at(store: &Vec<u8>, offset: usize) -> (r: Result<Inode, FsError>)
        ensures
            match r {
                Ok(ino) => {
                    &&& offset + INODE_SIZE <= store@.len()
                    &&& Self::decodes_to(
                        store@.subrange(offset as int, offset + INODE_SIZE),
                        ino,
                    )
                },
                Err(e) => {
                    &&& e == FsError::Decode
                    &&& (offset + INODE_SIZE > store@.len() || Self::tag_of(
                        store@.subrange(offset as int, offset + INODE_SIZE),
                    ) >= 3)
                },
            },
    {
        let n = store.len();
        if n < INODE_SIZE || offset > n - INODE_SIZE {
            return Err(FsError::Decode);
        }
        let ghost sub = store@.subrange(offset as int, offset + INODE_SIZE);
        let tag = read_u32_le(store, offset + 8);
        let ftype = match FileType::from_code(tag) {
            Ok(ft) => ft,
            Err(e) => {
                proof {
                    assert(Self::tag_of(sub) == tag);
                }
                return Err(e);
            },
        };
        let mut dblocks = [0u32; 12];
        let mut k: usize = 0;
        while k < 12
            invariant
                n == store@.len(),
                offset + INODE_SIZE <= n,
                k <= 12,
                forall|x: int|
                    0 <= x < k ==> dblocks@[x] == u32_from_le(
                        store@[offset + 60 + 4 * x],
                        store@[offset + 60 + 4 * x + 1],
                        store@[offset + 60 + 4 * x + 2],
                        store@[offset + 60 + 4 * x + 3],
                    ),
            decreases 12 - k,
        {
            dblocks[k] = read_u32_le(store, offset + 60 + 4 * k);
            k += 1;
        }
        let mut iblocks = [0u32; 3];
        let mut j: usize = 0;
        while j < 3
            invariant
                n == store@.len(),
                offset + INODE_SIZE <= n,
                j <= 3,
                forall|x: int|
                    0 <= x < j ==> iblocks@[x] == u32_from_le(
                        store@[offset + 108 + 4 * x],
                        store@[offset + 108 + 4 * x + 1],
                        store@[offset + 108 + 4 * x + 2],
                        store@[offset + 108 + 4 * x + 3],
                    ),
            decreases 3 - j,
        {
            iblocks[j] = read_u32_le(store, offset + 108 + 4 * j);
            j += 1;
        }
        let ino = Inode {
            identifier: read_u32_le(store, offset),
            mode: read_u32_le(store, offset + 4),
            ftype,
            uid: read_u32_le(store, offset + 12),
            size: read_u64_le(store, offset + 16),
            time: read_u64_le(store, offset + 24),
            ctime: read_u64_le(store, offset + 32),
            mtime: read_u64_le(store, offset + 40),
            dtime: read_u64_le(store, offset + 48),
            gid: read_u32_le(store, offset + 56),
            dblocks,
            iblocks,
            lcount: read_u32_le(store, offset + 120),
        };
        proof {
            assert(ino.dblocks@ =~= Self::decoded_u32s(sub, 60, 12));
            assert(ino.iblocks@ =~= Self::decoded_u32s(sub, 108, 3));
            assert(Self::decodes_to(sub, ino));
        }
        Ok(ino)
    }

    pub fn get_identifier(&self) -> (r: u32)
        ensures
            r == self.identifier,
    {
        self.identifier
    }

    pub fn set_identifier(&mut self, id: u32)
        ensures
            *final(self) == (Inode { identifier: id, ..*old(self) }),
    {
        self.identifier = id;
    }

    /// Returns the file type.
    pub fn get_file_type(&self) -> (r: FileType)
        ensures
            r == self.ftype,
    {
        self.ftype
    }

    /// Sets the file type from its numeric tag; an unrecognized tag is an
    /// explicit error and leaves the record unchanged.
    pub fn set_file_type(&mut self, t: u32) -> (r: Result<(), FsError>)
        ensures
            match r {
                Ok(()) => {
                    &&& t < 3
                    &&& final(self).ftype.spec_code() == t
                    &&& *final(self) == (Inode { ftype: final(self).ftype, ..*old(self) })
                },
                Err(e) => {
                    &&& e == FsError::Decode
                    &&& t >= 3
                    &&& *final(self) == *old(self)
                },
            },
    {
        let ftype = FileType::from_code(t)?;
        self.ftype = ftype;
        Ok(())
    }

    pub fn get_file_permissions(&self) -> (r: u32)
        ensures
            r == self.mode,
    {
        self.mode
    }

    pub fn set_file_permissions(&mut self, mode: u32)
        ensures
            *final(self) == (Inode { mode: mode, ..*old(self) }),
    {
        self.mode = mode;
    }

    pub fn get_owner(&self) -> (r: u32)
        ensures
            r == self.uid,
    {
        self.uid
    }

    pub fn set_owner(&mut self, id: u32)
        ensures
            *final(self) == (Inode { uid: id, ..*old(self) }),
    {
        self.uid = id;
    }

    pub fn get_group(&self) -> (r: u32)
        ensures
            r == self.gid,
    {
        self.gid
    }

    pub fn set_group(&mut self, id: u32)
        ensures
            *final(self) == (Inode { gid: id, ..*old(self) }),
    {
        self.gid = id;
    }

    pub fn get_size(&self) -> (r: u64)
        ensures
            r == self.size,
    {
        self.size
    }

    pub fn set_size(&mut self, size: u64)
        ensures
            *final(self) == (Inode { size: size, ..*old(self) }),
    {
        self.size = size;
    }

    /// The twelve direct block pointers, in slot order.
    pub fn get_direct_blocks(&self) -> (r: &[u32])
        ensures
            r@ == self.dblocks@,
    {
        self.dblocks.as_slice()
    }

    /// Replaces all twelve direct block pointers.
    pub fn set_direct_blocks(&mut self, blocks: [u32; 12])
        ensures
            *final(self) == (Inode { dblocks: blocks, ..*old(self) }),
    {
        self.dblocks = blocks;
    }

    /// The three indirect block pointers, in slot order.
    pub fn get_indirect_blocks(&self) -> (r: &[u32])
        ensures
            r@ == self.iblocks@,
    {
        self.iblocks.as_slice()
    }

    /// Replaces all three indirect block pointers.
    pub fn set_indirect_blocks(&mut self, blocks: [u32; 3])
        ensures
            *final(self) == (Inode { iblocks: blocks, ..*old(self) }),
    {
        self.iblocks = blocks;
    }

    pub fn get_creation_time(&self) -> (r: u64)
        ensures
            r == self.ctime,
    {
        self.ctime
    }

    pub fn set_creation_time(&mut self, t: u64)
        ensures
            *final(self) == (Inode { ctime: t, ..*old(self) }),
    {
        self.ctime = t;
    }

    pub fn get_mod_time(&self) -> (r: u64)
        ensures
            r == self.mtime,
    {
        self.mtime
    }

    pub fn set_mod_time(&mut self, t: u64)
        ensures
            *final(self) == (Inode { mtime: t, ..*old(self) }),
    {
        self.mtime = t;
    }

    pub fn get_links_count(&self) -> (r: u32)
        ensures
            r == self.lcount,
    {
        self.lcount
    }

    pub fn set_links_count(&mut self, count: u32)
        ensures
            *final(self) == (Inode { lcount: count, ..*old(self) }),
    {
        self.lcount = count;
    }

    pub fn get_last_access(&self) -> (r: u64)
        ensures
            r == self.time,
    {
        self.time
    }

    pub fn set_last_access(&mut self, time: u64)
        ensures
            *final(self) == (Inode { time: time, ..*old(self) }),
    {
        self.time = time;
    }

    pub fn get_deletion_time(&self) -> (r: u64)
        ensures
            r == self.dtime,
    {
        self.dtime
    }

    pub fn set_deletion_time(&mut self, time: u64)
        ensures
            *final(self) == (Inode { dtime: time, ..*old(self) }),
    {
        self.dtime = time;
    }
}

/// Round-trip law: the fixed layout of any inode record decodes, and it
/// decodes back to the record itself — its tag is always recognized.
#[verifier::rlimit(60)]
pub proof fn lemma_inode_roundtrip(ino: Inode)
    ensures
        ino.spec_encode().len() == INODE_SIZE,
        Inode::tag_of(ino.spec_encode()) < 3,
        Inode::decodes_to(ino.spec_encode(), ino),
{
    ino.lemma_spec_encode_len();
    Inode::lemma_u32s_bytes_len(ino.dblocks@);
    Inode::lemma_u32s_bytes_len(ino.iblocks@);
    let e = ino.spec_encode();
    lemma_u32_le_roundtrip(ino.identifier);
    lemma_u32_le_roundtrip(ino.mode);
    lemma_u32_le_roundtrip(ino.ftype.spec_code());
    lemma_u32_le_roundtrip(ino.uid);
    lemma_u64_le_roundtrip(ino.size);
    lemma_u64_le_roundtrip(ino.time);
    lemma_u64_le_roundtrip(ino.ctime);
    lemma_u64_le_roundtrip(ino.mtime);
    lemma_u64_le_roundtrip(ino.dtime);
    lemma_u32_le_roundtrip(ino.gid);
    lemma_u32_le_roundtrip(ino.lcount);
    assert(ino.dblocks@ =~= Inode::decoded_u32s(e, 60, 12)) by {
        assert forall|k: int| 0 <= k < 12 implies Inode::decoded_u32s(e, 60, 12)[k]
            == ino.dblocks@[k] by {
            lemma_u32_le_roundtrip(ino.dblocks@[k]);
            Inode::lemma_u32s_bytes_index(ino.dblocks@, k, 0);
            Inode::lemma_u32s_bytes_index(ino.dblocks@, k, 1);
            Inode::lemma_u32s_bytes_index(ino.dblocks@, k, 2);
            Inode::lemma_u32s_bytes_index(ino.dblocks@, k, 3);
            assert(e[60 + 4 * k] == Inode::u32s_bytes(ino.dblocks@)[4 * k]);
            assert(e[60 + 4 * k + 1] == Inode::u32s_bytes(ino.dblocks@)[4 * k + 1]);
            assert(e[60 + 4 * k + 2] == Inode::u32s_bytes(ino.dblocks@)[4 * k + 2]);
            assert(e[60 + 4 * k + 3] == Inode::u32s_bytes(ino.dblocks@)[4 * k + 3]);
        }
    };
    assert(ino.iblocks@ =~= Inode::decoded_u32s(e, 108, 3)) by {
        assert forall|k: int| 0 <= k < 3 implies Inode::decoded_u32s(e, 108, 3)[k]
            == ino.iblocks@[k] by {
            lemma_u32_le_roundtrip(ino.iblocks@[k]);
            Inode::lemma_u32s_bytes_index(ino.iblocks@, k, 0);
            Inode::lemma_u32s_bytes_index(ino.iblocks@, k, 1);
            Inode::lemma_u32s_bytes_index(ino.iblocks@, k, 2);
            Inode::lemma_u32s_bytes_index(ino.iblocks@, k, 3);
            assert(e[108 + 4 * k] == Inode::u32s_bytes(ino.iblocks@)[4 * k]);
            assert(e[108 + 4 * k + 1] == Inode::u32s_bytes(ino.iblocks@)[4 * k + 1]);
            assert(e[108 + 4 * k + 2] == Inode::u32s_bytes(ino.iblocks@)[4 * k + 2]);
            assert(e[108 + 4 * k + 3] == Inode::u32s_bytes(ino.iblocks@)[4 * k + 3]);
        }
    };
}

/// Given bytes decode to at most one record: every field is pinned, so two
/// records decoding from the same bytes are equal.
pub proof fn lemma_inode_decode_unique(b: Seq<u8>, first: Inode, second: Inode)
    requires
        Inode::decodes_to(b, first),
        Inode::decodes_to(b, second),
    ensures
        first == second,
{
    assert(first.ftype == second.ftype);
    assert(first.dblocks@ == second.dblocks@);
    assert(first.dblocks == second.dblocks);
    assert(first.iblocks == second.iblocks);
}

/// Round-trip law over a backing store: a store that holds an inode's
/// encoding at `offset` — as `write_at` leaves it — decodes at the same
/// offset, as `read_at` does, to a record equal to the original.
#[verifier::rlimit(60)]
pub proof fn lemma_inode_read_after_write(bytes: Seq<u8>, ino: Inode, offset: int, r: Inode)
    requires
        0 <= offset,
        offset + INODE_SIZE <= bytes.len(),
        forall|k: int| 0 <= k < INODE_SIZE ==> bytes[offset + k] == ino.spec_encode()[k],
        Inode::decodes_to(bytes.subrange(offset, offset + INODE_SIZE), r),
    ensures
        r == ino,
{
    lemma_inode_roundtrip(ino);
    assert(bytes.subrange(offset, offset + INODE_SIZE) =~= ino.spec_encode());
    assert(Inode::decodes_to(ino.spec_encode(), r));
    lemma_inode_decode_unique(ino.spec_encode(), ino, r);
}

} // verus!
