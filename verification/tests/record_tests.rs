use ipsofs::error::FsError;
use ipsofs::inode::{FileType, Inode, INODE_SIZE};
use ipsofs::superblock::{Superblock, MAGIC, SUPERBLOCK_SIZE};

#[test]
fn superblock_tests_work() {
    assert_eq!(true, true);
}

#[test]
fn inode_tests_work() {
    assert_eq!(true, true);
}

#[test]
fn superblock_roundtrip_in_store() {
    let mut sp = Superblock::new();
    sp.set_version(1);
    sp.set_magic(0xDEAD_BEEF);
    sp.set_total_inodes(100);
    sp.set_free_inodes(100);
    sp.set_total_blocks(800);
    sp.set_free_blocks(799);
    sp.set_block_size(4096);
    sp.set_inode_size(INODE_SIZE as u32);
    sp.set_root_inode(1);

    let mut store = vec![0u8; 4 * SUPERBLOCK_SIZE];
    sp.write_at(&mut store, SUPERBLOCK_SIZE).unwrap();
    let loaded = Superblock::read_at(&store, SUPERBLOCK_SIZE).unwrap();
    assert_eq!(sp, loaded);
    assert_eq!(loaded.get_version(), 1);
    assert_eq!(loaded.get_magic(), 0xDEAD_BEEF);

    // Neighbouring slots are untouched by the write.
    assert!(store[..SUPERBLOCK_SIZE].iter().all(|b| *b == 0));
    assert!(store[2 * SUPERBLOCK_SIZE..].iter().all(|b| *b == 0));
}

#[test]
fn superblock_encoding_is_little_endian_in_field_order() {
    let mut sp = Superblock::new();
    sp.set_version(0x0102_0304);
    sp.set_magic(MAGIC);
    let bytes = sp.encode();
    assert_eq!(bytes.len(), SUPERBLOCK_SIZE);
    assert_eq!(&bytes[0..4], &[0x04, 0x03, 0x02, 0x01]);
    assert_eq!(&bytes[4..8], &[0xEF, 0xBE, 0xAD, 0xDE]);
}

#[test]
fn loading_rejects_wrong_magic_with_format_error() {
    let mut sp = Superblock::new();
    sp.set_version(1);
    sp.set_magic(0x1234_5678);
    let mut store = vec![0u8; SUPERBLOCK_SIZE];
    sp.write_at(&mut store, 0).unwrap();
    assert_eq!(Superblock::load_at(&store, 0), Err(FsError::Format));

    // A version below 1 is rejected the same way.
    sp.set_magic(MAGIC);
    sp.set_version(0);
    sp.write_at(&mut store, 0).unwrap();
    assert_eq!(Superblock::load_at(&store, 0), Err(FsError::Format));
}

#[test]
fn truncated_store_is_a_decode_error() {
    let store = vec![0u8; 10];
    assert_eq!(Superblock::read_at(&store, 0), Err(FsError::Decode));
    assert_eq!(Superblock::load_at(&store, 0), Err(FsError::Decode));
    assert_eq!(Inode::read_at(&store, 0), Err(FsError::Decode));
}

#[test]
fn inode_roundtrip_in_store() {
    let mut ino = Inode::new();
    ino.set_identifier(7);
    ino.set_file_permissions(0o644);
    ino.set_file_type(2).unwrap();
    ino.set_owner(1000);
    ino.set_group(1001);
    ino.set_size(4096);
    ino.set_last_access(111);
    ino.set_creation_time(222);
    ino.set_mod_time(333);
    ino.set_deletion_time(0);
    ino.set_links_count(2);
    ino.set_direct_blocks([9, 10, 11, 0, 0, 0, 0, 0, 0, 0, 0, 0]);
    ino.set_indirect_blocks([12, 0, 0]);

    let mut store = vec![0u8; 3 * INODE_SIZE];
    ino.write_at(&mut store, INODE_SIZE).unwrap();
    let loaded = Inode::read_at(&store, INODE_SIZE).unwrap();
    assert_eq!(ino, loaded);
    assert_eq!(loaded.get_file_type(), FileType::SymLink);
    assert_eq!(loaded.get_direct_blocks(), &[9, 10, 11, 0, 0, 0, 0, 0, 0, 0, 0, 0]);
    assert_eq!(loaded.get_indirect_blocks(), &[12, 0, 0]);
    assert_eq!(loaded.get_size(), 4096);
    assert_eq!(loaded.get_links_count(), 2);
}

#[test]
fn unrecognized_file_type_tag_is_a_decode_error() {
    let ino = Inode::new();
    let mut store = vec![0u8; INODE_SIZE];
    ino.write_at(&mut store, 0).unwrap();
    // The file-type tag occupies bytes 8..12 of the record.
    store[8] = 5;
    assert_eq!(Inode::read_at(&store, 0), Err(FsError::Decode));
}

#[test]
fn set_file_type_rejects_unknown_codes() {
    let mut ino = Inode::new();
    ino.set_file_type(1).unwrap();
    assert_eq!(ino.get_file_type(), FileType::Directory);
    assert_eq!(ino.set_file_type(3), Err(FsError::Decode));
    // The record keeps its previous type on the failed call.
    assert_eq!(ino.get_file_type(), FileType::Directory);
    assert_eq!(FileType::from_code(0).unwrap(), FileType::RegularFile);
    assert_eq!(FileType::from_code(9), Err(FsError::Decode));
}

#[test]
fn inode_validity_needs_identifier_mode_and_size() {
    let mut ino = Inode::new();
    assert!(!ino.is_valid());
    ino.set_identifier(1);
    ino.set_file_permissions(0o600);
    ino.set_size(1);
    assert!(ino.is_valid());
}

#[test]
fn superblock_accessors_cover_every_field() {
    let mut sp = Superblock::new();
    assert!(!sp.is_valid());
    sp.set_magic(MAGIC);
    sp.set_version(3);
    assert!(sp.is_valid());
    sp.set_root_inode(2);
    sp.set_free_inodes(9);
    sp.set_total_inodes(10);
    sp.set_inode_size(INODE_SIZE as u32);
    sp.set_total_blocks(20);
    sp.set_block_size(512);
    sp.set_free_blocks(19);
    assert_eq!(sp.get_magic(), MAGIC);
    assert_eq!(sp.get_version(), 3);
    assert_eq!(sp.get_root_inode(), 2);
    assert_eq!(sp.get_free_inodes(), 9);
    assert_eq!(sp.get_total_inodes(), 10);
    assert_eq!(sp.get_inode_size(), INODE_SIZE as u32);
    assert_eq!(sp.get_total_blocks(), 20);
    assert_eq!(sp.get_block_size(), 512);
    assert_eq!(sp.get_free_blocks(), 19);
}
