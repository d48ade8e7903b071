//! What makes a file an AppImage, and where its payload is found.
use vstd::arithmetic::power2::{lemma_pow2_unfold, pow2};
use vstd::prelude::*;

use crate::appimage::{appimage_error_text, appimage_header, block_log, bytes_at, bytes_used, concat,
    elf_header, hsqs, lemma_little_endian_halves, lists_magic, little_endian, magic_at, payload_at,
    power_of_two, superblock, window, AppImageError};

verus! {

// ---------------------------------------------------------------------------
// The header
// ---------------------------------------------------------------------------
/// Seven bytes make a file an AppImage of type 2, four of them an executable,
/// and no other byte counts.
pub proof fn law_header(h: Seq<u8>)
    requires
        h.len() == 11,
    ensures
        elf_header(h) <==> h.take(4) == seq![0x7fu8, 0x45u8, 0x4cu8, 0x46u8],
        appimage_header(h) <==> h.take(4) == seq![0x7fu8, 0x45u8, 0x4cu8, 0x46u8] && h.skip(8)
            == seq![0x41u8, 0x49u8, 0x02u8],
{
    let elf = seq![0x7fu8, 0x45u8, 0x4cu8, 0x46u8];
    let magic = seq![0x41u8, 0x49u8, 0x02u8];
    if h[0] == 0x7f && h[1] == 0x45 && h[2] == 0x4c && h[3] == 0x46 {
        assert(h.take(4) =~= elf);
    }
    if h.take(4) == elf {
        assert(h[0] == elf[0] && h[1] == elf[1] && h[2] == elf[2] && h[3] == elf[3]);
    }
    if h[8] == 0x41 && h[9] == 0x49 && h[10] == 0x02 {
        assert(h.skip(8) =~= magic);
    }
    if h.skip(8) == magic {
        assert(h.skip(8)[0] == magic[0] && h.skip(8)[1] == magic[1] && h.skip(8)[2] == magic[2]);
    }
}

/// An error in words says what it is about; a failure of the system is told in
/// the system's own words.
pub proof fn law_appimage_error(e: AppImageError)
    ensures
        e is NotFound ==> appimage_error_text(e) == "file not found"@,
        e is NotAnAppImage ==> appimage_error_text(e)
            == "not an AppImage (missing type-2 AppImage magic)"@,
        e is NoSquashfs ==> appimage_error_text(e)
            == "AppImage payload (squashfs) not found within the scan window"@,
        e matches AppImageError::Io(cause) ==> appimage_error_text(e) == "I/O error: "@
            + cause.message@,
{
}

// ---------------------------------------------------------------------------
// The search
// ---------------------------------------------------------------------------
/// A run of bytes is found exactly where each of its bytes stands.
pub proof fn law_bytes_at(haystack: Seq<u8>, needle: Seq<u8>, i: int)
    ensures
        bytes_at(haystack, needle, i) <==> 0 <= i && i + needle.len() <= haystack.len() && (forall|
            j: int,
        |
            0 <= j < needle.len() ==> haystack[i + j] == #[trigger] needle[j]),
{
    if 0 <= i && i + needle.len() <= haystack.len() {
        let part = haystack.subrange(i, i + needle.len());
        if part == needle {
            assert forall|j: int| 0 <= j < needle.len() implies haystack[i + j]
                == #[trigger] needle[j] by {
                assert(part[j] == needle[j]);
            }
        }
        if forall|j: int| 0 <= j < needle.len() ==> haystack[i + j] == #[trigger] needle[j] {
            assert forall|j: int| 0 <= j < needle.len() implies part[j] == needle[j] by {
                assert(haystack[i + j] == needle[j]);
            }
            assert(part =~= needle);
        }
    }
}

/// The magic stands where the four letters `hsqs` do.
pub proof fn law_magic(data: Seq<u8>, i: int)
    ensures
        magic_at(data, i) <==> 0 <= i && i + 4 <= data.len() && data[i] == 0x68 && data[i + 1]
            == 0x73 && data[i + 2] == 0x71 && data[i + 3] == 0x73,
{
    law_bytes_at(data, hsqs(), i);
    let m = hsqs();
    assert(m.len() == 4 && m[0] == 0x68 && m[1] == 0x73 && m[2] == 0x71 && m[3] == 0x73);
    if magic_at(data, i) {
        assert(data[i + 0] == m[0] && data[i + 1] == m[1] && data[i + 2] == m[2] && data[i + 3]
            == m[3]);
    }
}

/// The candidates of a search are all the places where the letters `hsqs` stand,
/// the earlier ones first, and no other place.
pub proof fn law_candidates(c: Seq<u64>, data: Seq<u8>, i: u64)
    requires
        lists_magic(c, data),
    ensures
        c.contains(i) <==> i + 4 <= data.len() && data[i as int] == 0x68 && data[i + 1] == 0x73
            && data[i + 2] == 0x71 && data[i + 3] == 0x73,
        forall|a: int, b: int| 0 <= a < b < c.len() ==> c[a] < c[b],
{
    law_magic(data, i as int);
    if c.contains(i) {
        let a = choose|a: int| 0 <= a < c.len() && c[a] == i;
        assert(magic_at(data, c[a] as int));
    }
    if magic_at(data, i as int) {
        let a = choose|a: int| 0 <= a < c.len() && c[a] == i;
        assert(c[a] == i);
    }
}

/// Two MiB from the start of the file are searched, or all of a shorter file.
pub proof fn law_window(file: Seq<u8>)
    ensures
        file.len() <= 0x20_0000 ==> window(file) == file,
        file.len() > 0x20_0000 ==> window(file) == file.subrange(0, 0x20_0000),
{
}

/// The bytes of some reads are those of the one and then those of the other,
/// wherever the reads are cut.
pub proof fn law_reads(a: Seq<Vec<u8>>, b: Seq<Vec<u8>>, one: Vec<u8>)
    ensures
        concat(a + b) == concat(a) + concat(b),
        concat(seq![one]) == one@,
    decreases b.len(),
{
    reveal_with_fuel(concat, 2);
    assert(seq![one].drop_last() =~= seq![]);
    assert(Seq::<u8>::empty() + one@ =~= one@);
    if b.len() == 0 {
        assert(a + b =~= a);
        assert(concat(a) + concat(b) =~= concat(a));
    } else {
        law_reads(a, b.drop_last(), one);
        assert((a + b).drop_last() =~= a + b.drop_last());
        assert(concat(a) + concat(b.drop_last()) + b.last()@ =~= concat(a) + concat(b));
    }
}

// ---------------------------------------------------------------------------
// The superblock
// ---------------------------------------------------------------------------
proof fn lemma_two_bytes(s: Seq<u8>)
    requires
        s.len() == 2,
    ensures
        little_endian(s) == s[0] + 0x100 * s[1],
{
    reveal_with_fuel(little_endian, 3);
}

proof fn lemma_four_bytes(s: Seq<u8>)
    requires
        s.len() == 4,
    ensures
        little_endian(s) == s[0] + 0x100 * s[1] + 0x1_0000 * s[2] + 0x100_0000 * s[3],
{
    let x = s.take(2);
    let y = s.skip(2);
    assert(s =~= x + y);
    lemma_little_endian_halves(x, y);
    lemma_two_bytes(x);
    lemma_two_bytes(y);
}

proof fn lemma_eight_bytes(s: Seq<u8>)
    requires
        s.len() == 8,
    ensures
        little_endian(s) == s[0] + 0x100 * s[1] + 0x1_0000 * s[2] + 0x100_0000 * s[3]
            + 0x1_0000_0000 * s[4] + 0x100_0000_0000 * s[5] + 0x1_0000_0000_0000 * s[6]
            + 0x100_0000_0000_0000 * s[7],
{
    let x = s.take(4);
    let y = s.skip(4);
    assert(s =~= x + y);
    lemma_little_endian_halves(x, y);
    lemma_four_bytes(x);
    lemma_four_bytes(y);
}

proof fn lemma_power(n: nat)
    ensures
        power_of_two(n) == pow2(n),
    decreases n,
{
    if n == 0 {
        vstd::arithmetic::power2::lemma2_to64();
    } else {
        lemma_power((n - 1) as nat);
        lemma_pow2_unfold(n);
    }
}

/// A superblock is accepted by these bytes and nothing else: the magic, a block
/// size between 4 KiB and 1 MiB that is the power of two it says it is, and a
/// payload of 48 bytes or more that ends within the file. Nothing else bounds the
/// size of the payload. Where the length of the file is not known, neither does
/// that.
pub proof fn law_superblock(h: Seq<u8>, offset: int, file_len: int)
    requires
        h.len() >= 48,
    ensures
        ({
            let log = h[22] + 0x100 * h[23];
            let size = h[12] + 0x100 * h[13] + 0x1_0000 * h[14] + 0x100_0000 * h[15];
            let used = h[40] + 0x100 * h[41] + 0x1_0000 * h[42] + 0x100_0000 * h[43] + 0x1_0000_0000
                * h[44] + 0x100_0000_0000 * h[45] + 0x1_0000_0000_0000 * h[46]
                + 0x100_0000_0000_0000 * h[47];
            superblock(h, offset, file_len) <==> {
                &&& h[0] == 0x68 && h[1] == 0x73 && h[2] == 0x71 && h[3] == 0x73
                &&& 12 <= log <= 20
                &&& size == pow2(log as nat)
                &&& 48 <= used
                &&& file_len <= 0 || offset + used <= file_len
            }
        }),
{
    law_magic(h, 0);
    let l = h.subrange(22, 24);
    let s = h.subrange(12, 16);
    let u = h.subrange(40, 48);
    lemma_two_bytes(l);
    lemma_four_bytes(s);
    lemma_eight_bytes(u);
    assert(l[0] == h[22] && l[1] == h[23]);
    assert(s[0] == h[12] && s[1] == h[13] && s[2] == h[14] && s[3] == h[15]);
    assert(u[0] == h[40] && u[1] == h[41] && u[2] == h[42] && u[3] == h[43] && u[4] == h[44] && u[5]
        == h[45] && u[6] == h[46] && u[7] == h[47]);
    lemma_power(block_log(h));
}

/// A payload of any size is accepted in a file that is long enough for it, and in
/// every longer file; and too short a read is no superblock.
pub proof fn law_payload_of_any_size(h: Seq<u8>, offset: int, file_len: int, longer: int)
    ensures
        h.len() < 48 ==> !superblock(h, offset, file_len),
        superblock(h, offset, file_len) && 0 < file_len <= longer ==> superblock(h, offset, longer),
        superblock(h, offset, file_len) ==> superblock(h, offset, 0),
        superblock(h, offset, 0) && offset >= 0 ==> superblock(h, offset, offset + bytes_used(h)),
        superblock(h, offset, 0) && offset >= 0 ==> !superblock(
            h,
            offset,
            offset + bytes_used(h) - 1,
        ),
{
}

/// A payload is found wherever in the first two MiB the four letters of its magic
/// stand, however far it reaches beyond them.
pub proof fn law_payload(file: Seq<u8>, i: int)
    ensures
        payload_at(file, i) <==> 0 <= i && i + 4 <= 0x20_0000 && i + 48 <= file.len() && superblock(
            file.subrange(i, i + 48),
            i,
            file.len() as int,
        ),
{
    law_magic(window(file), i);
    if 0 <= i && i + 48 <= file.len() {
        let h = file.subrange(i, i + 48);
        let g = file.skip(i);
        law_magic(h, 0);
        law_superblock(h, i, file.len() as int);
        law_superblock(g, i, file.len() as int);
        assert forall|k: int| 0 <= k < 48 implies h[k] == g[k] by {}
        assert(h[0] == file[i] && h[1] == file[i + 1] && h[2] == file[i + 2] && h[3] == file[i
            + 3]);
    }
}

} // verus!
