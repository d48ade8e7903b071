use app_image_manager::commands::{display_name_guess, is_appimage, is_appimage_extension};

/// What can be read of the first bytes of a file with this content.
fn header(bytes: &[u8]) -> Option<[u8; 11]> {
    if bytes.len() < 11 {
        return None;
    }
    let mut h = [0u8; 11];
    h.copy_from_slice(&bytes[..11]);
    Some(h)
}

fn appimage_bytes() -> Vec<u8> {
    let mut v = b"\x7fELF\x02\x01\x01\x00AI\x02".to_vec();
    v.extend_from_slice(&[0u8; 32]);
    v
}

#[test]
fn accepts_a_real_appimage() {
    assert!(is_appimage(header(&appimage_bytes()), "/tmp/real.AppImage"));
}

#[test]
fn accepts_an_appimage_without_extension() {
    assert!(
        is_appimage(header(&appimage_bytes()), "/tmp/no-extension"),
        "the magic alone must be enough"
    );
}

#[test]
fn rejects_an_arbitrary_binary_blob() {
    // The exact case the octet-stream association used to trigger on.
    let bytes = [0xde, 0xad, 0xbe, 0xef, 0, 1, 2, 3, 4, 5, 6, 7];
    assert!(!is_appimage(header(&bytes), "/tmp/firmware.bin"));
}

#[test]
fn rejects_a_non_elf_file_named_appimage() {
    let bytes = b"PK\x03\x04 not an appimage at all";
    assert!(
        !is_appimage(header(bytes), "/tmp/liar.AppImage"),
        "the extension alone must not be enough"
    );
}

#[test]
fn accepts_an_elf_named_appimage_without_magic() {
    // Some builds zero the AppImage magic; the extension carries the intent.
    let mut bytes = b"\x7fELF\x02\x01\x01\x00\x00\x00\x00".to_vec();
    bytes.extend_from_slice(&[0u8; 32]);
    assert!(is_appimage(header(&bytes), "/tmp/stripped-magic.AppImage"));
}

#[test]
fn rejects_a_file_too_short_to_have_a_header() {
    assert!(!is_appimage(header(b"\x7fELF"), "/tmp/tiny.AppImage"));
}

#[test]
fn an_elf_with_another_name_needs_the_magic() {
    let bytes = b"\x7fELF\x02\x01\x01\x00\x00\x00\x00".to_vec();
    assert!(!is_appimage(header(&bytes), "/usr/bin/true"));
}

#[test]
fn the_extension_is_read_in_any_case() {
    assert!(is_appimage_extension("/x/A.APPIMAGE"));
    assert!(is_appimage_extension("a.appimage"));
    assert!(!is_appimage_extension("/x/a.appimage.zip"));
    assert!(!is_appimage_extension(""));
}

#[test]
fn guesses_the_display_name_from_the_stem() {
    assert_eq!(display_name_guess("/x/ZCode-3.5.AppImage"), "ZCode-3.5");
    assert_eq!(display_name_guess("/x/.hidden"), ".hidden");
    assert_eq!(display_name_guess("/"), "AppImage");
}
