use ipsofs::error::FsError;
use ipsofs::image::FsImage;
use ipsofs::inode::{FileType, INODE_SIZE};
use ipsofs::superblock::SUPERBLOCK_SIZE;

#[test]
fn run_reports_success() {
    assert_eq!(ipsofs::run(), Ok(()));
}

#[test]
fn error_kinds_have_distinct_descriptions() {
    assert_eq!(FsError::Exhausted.describe(), "no free identifier available");
    assert_ne!(FsError::Decode.describe(), FsError::Format.describe());
}

#[test]
fn hundred_allocations_ascend_then_exhaust() {
    let mut img = FsImage::format(100, 50, 4096, 1, 0);
    assert_eq!(img.sb.get_free_inodes(), 100);
    for expected in 0..100u32 {
        let ino = img.allocate_inode(0o644, FileType::RegularFile, 42).unwrap();
        // Lowest-fit allocation yields ascending identifiers with no repeats.
        assert_eq!(ino.get_identifier(), expected);
        assert_eq!(ino.get_links_count(), 1);
        assert_eq!(ino.get_creation_time(), 42);
        assert_eq!(ino.get_mod_time(), 42);
        assert!(ino.get_direct_blocks().iter().all(|b| *b == 0));
        assert!(ino.get_indirect_blocks().iter().all(|b| *b == 0));
        assert_eq!(img.sb.get_free_inodes(), 99 - expected);
    }
    assert_eq!(
        img.allocate_inode(0o644, FileType::RegularFile, 42),
        Err(FsError::Exhausted)
    );
}

#[test]
fn block_allocation_moves_counter_in_lockstep() {
    let mut img = FsImage::format(4, 3, 512, 1, 0);
    assert_eq!(img.allocate_block(), Ok(0));
    assert_eq!(img.allocate_block(), Ok(1));
    assert_eq!(img.allocate_block(), Ok(2));
    assert_eq!(img.sb.get_free_blocks(), 0);
    assert_eq!(img.allocate_block(), Err(FsError::Exhausted));
}

#[test]
fn reclaim_returns_blocks_and_identifier() {
    let mut img = FsImage::format(10, 20, 512, 1, 0);
    // Reserve a few blocks so the pointers used below are nonzero.
    for _ in 0..5 {
        img.allocate_block().unwrap();
    }
    let mut ino = img.allocate_inode(0o644, FileType::RegularFile, 7).unwrap();
    let id = ino.get_identifier() as u64;
    ino.set_direct_blocks([3, 4, 0, 0, 0, 0, 0, 0, 0, 0, 0, 0]);
    assert_eq!(img.sb.get_free_blocks(), 15);
    assert_eq!(img.sb.get_free_inodes(), 9);
    assert!(img.ibitmap.is_set(id).unwrap());

    // The link count reaching zero triggers reclamation.
    ino.set_links_count(ino.get_links_count() - 1);
    img.reclaim_inode(&mut ino, 999).unwrap();

    assert_eq!(ino.get_deletion_time(), 999);
    assert!(!img.ibitmap.is_set(id).unwrap());
    assert!(!img.dbitmap.is_set(3).unwrap());
    assert!(!img.dbitmap.is_set(4).unwrap());
    // Blocks not named by the record keep their state.
    assert!(img.dbitmap.is_set(0).unwrap());
    assert!(img.dbitmap.is_set(1).unwrap());
    assert!(img.dbitmap.is_set(2).unwrap());
    // Two blocks were returned, and the inode identifier came back too.
    assert_eq!(img.sb.get_free_blocks(), 17);
    assert_eq!(img.sb.get_free_inodes(), 10);
}

#[test]
fn inode_slot_offsets_follow_the_disk_layout() {
    let img = FsImage::format(64, 64, 512, 1, 0);
    // One 8-byte bitmap word per region for 64 identifiers.
    let region_start = (SUPERBLOCK_SIZE + 8 + 8) as u64;
    assert_eq!(img.inode_offset(0), region_start);
    assert_eq!(img.inode_offset(2), region_start + 2 * INODE_SIZE as u64);
}

#[test]
fn formatted_image_has_valid_superblock() {
    let img = FsImage::format(16, 32, 1024, 2, 1);
    assert!(img.sb.is_valid());
    assert_eq!(img.sb.get_total_inodes(), 16);
    assert_eq!(img.sb.get_total_blocks(), 32);
    assert_eq!(img.sb.get_free_inodes(), 16);
    assert_eq!(img.sb.get_free_blocks(), 32);
    assert_eq!(img.sb.get_inode_size(), INODE_SIZE as u32);
    assert_eq!(img.sb.get_block_size(), 1024);
    assert_eq!(img.sb.get_root_inode(), 1);
}
