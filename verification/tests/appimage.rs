use app_image_manager::appimage::{collect_hsqs_candidates, find_squashfs_offset,
    find_subslice_from, validate_appimage_header, validate_squashfs_superblock, AppImage,
    AppImageError, SCAN_LIMIT};
use app_image_manager::failure::IoFailure;

const HEADER: [u8; 11] = *b"\x7fELF\x02\x01\x01\x00AI\x02";

/// A superblock with this block size, logarithm and file system size.
fn superblock(block_size: u32, block_log: u16, bytes_used: u64) -> Vec<u8> {
    let mut h = vec![0u8; 48];
    h[0..4].copy_from_slice(b"hsqs");
    h[12..16].copy_from_slice(&block_size.to_le_bytes());
    h[22..24].copy_from_slice(&block_log.to_le_bytes());
    h[40..48].copy_from_slice(&bytes_used.to_le_bytes());
    h
}

#[test]
fn finds_the_magic_across_reads() {
    let reads = vec![
        b"..hs".to_vec(),
        b"qs.h".to_vec(),
        b"s".to_vec(),
        b"q".to_vec(),
        b"shsqs".to_vec(),
    ];
    assert_eq!(collect_hsqs_candidates(&reads), vec![2, 7, 11]);
}

#[test]
fn the_search_ends_at_the_limit() {
    let mut data = vec![0u8; SCAN_LIMIT as usize + 16];
    let at = SCAN_LIMIT as usize;
    data[at - 4..at].copy_from_slice(b"hsqs");
    data[at + 4..at + 8].copy_from_slice(b"hsqs");
    assert_eq!(collect_hsqs_candidates(&vec![data]), vec![SCAN_LIMIT - 4]);
}

#[test]
fn a_superblock_must_be_plausible() {
    assert!(validate_squashfs_superblock(&superblock(131072, 17, 1000), 100, 1100));
    // The file system would end behind the file.
    assert!(!validate_squashfs_superblock(&superblock(131072, 17, 1001), 100, 1100));
    assert!(!validate_squashfs_superblock(&superblock(131072, 17, u64::MAX), 100, 1100));
    // Unknown length: nothing to hold it against.
    assert!(validate_squashfs_superblock(&superblock(131072, 17, 1001), 100, 0));
    assert!(!validate_squashfs_superblock(&superblock(131072, 16, 1000), 100, 1100));
    assert!(!validate_squashfs_superblock(&superblock(2048, 11, 1000), 100, 1100));
    assert!(!validate_squashfs_superblock(&superblock(2097152, 21, 1000), 100, 1100));
    assert!(!validate_squashfs_superblock(&superblock(131072, 17, 47), 100, 1100));
    assert!(!validate_squashfs_superblock(&superblock(131072, 17, 1000)[..40], 100, 1100));
    let mut other = superblock(131072, 17, 1000);
    other[0] = b'x';
    assert!(!validate_squashfs_superblock(&other, 100, 1100));
    assert!(validate_squashfs_superblock(&superblock(4096, 12, 48), 0, 48));
    assert!(validate_squashfs_superblock(&superblock(1048576, 20, 48), 0, 48));
}

#[test]
fn the_earliest_valid_payload_wins() {
    let headers = vec![
        superblock(1, 1, 1),
        superblock(131072, 17, 200),
        superblock(131072, 17, 100),
    ];
    let candidates = vec![10u64, 300, 400];
    assert_eq!(find_squashfs_offset(&candidates, &headers, 1000).unwrap(), 300);
    let app = AppImage::open(&HEADER, &candidates, &headers, 1000).unwrap();
    assert_eq!(app.squashfs_offset, 300);
}

#[test]
fn open_names_what_is_wrong() {
    let none: Vec<u64> = vec![];
    let e = AppImage::open(&HEADER, &none, &vec![], 100).unwrap_err();
    assert!(matches!(e, AppImageError::NoSquashfs));
    assert_eq!(
        e.to_string(),
        "AppImage payload (squashfs) not found within the scan window"
    );
    let e = AppImage::open(b"\x7fELF\x02\x01\x01\x00AI\x01", &none, &vec![], 100).unwrap_err();
    assert!(matches!(e, AppImageError::NotAnAppImage));
    assert_eq!(
        e.to_string(),
        "not an AppImage (missing type-2 AppImage magic)"
    );
    assert!(validate_appimage_header(&HEADER).is_ok());
    assert!(validate_appimage_header(b"xELF\x02\x01\x01\x00AI\x02").is_err());
}

#[test]
fn failures_to_read_are_told_apart() {
    let gone = IoFailure {
        not_found: true,
        message: "x".to_string(),
    };
    let denied = IoFailure {
        not_found: false,
        message: "denied".to_string(),
    };
    assert_eq!(AppImageError::from(gone).to_string(), "file not found");
    assert_eq!(AppImageError::from(denied).to_string(), "I/O error: denied");
}

#[test]
fn finds_a_subslice_from_an_index() {
    assert_eq!(find_subslice_from(b"abcabc", b"abc", 0), Some(0));
    assert_eq!(find_subslice_from(b"abcabc", b"abc", 1), Some(3));
    assert_eq!(find_subslice_from(b"abcabc", b"abc", 4), None);
    assert_eq!(find_subslice_from(b"abc", b"", 0), None);
    assert_eq!(find_subslice_from(b"ab", b"abc", 0), None);
    assert_eq!(find_subslice_from(b"abc", b"c", 9), None);
}
