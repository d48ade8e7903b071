//! AppImage format recognition.
//!
//! An AppImage of type 2 is an ELF executable with the magic `AI\x02` at
//! offset 8. Its payload is a squashfs file system, found by the magic `hsqs`
//! and by what the superblock that starts there says of itself.
use vstd::prelude::*;
use vstd::slice::slice_subrange;

use crate::failure::IoFailure;
use crate::text::copy;

verus! {

/// How many bytes from the start of the file are searched for the payload.
pub const SCAN_LIMIT: u64 = 2 * 1024 * 1024;

/// How many bytes one read of the search asks for.
pub const CHUNK_SIZE: usize = 64 * 1024;

/// The length of the part of a superblock that is looked at.
pub const SUPERBLOCK_SIZE: usize = 48;

/// What can be wrong with a file that should be an AppImage.
#[derive(Debug)]
pub enum AppImageError {
    NotFound,
    NotAnAppImage,
    /// Recognised as AppImage but the squashfs payload could not be located.
    NoSquashfs,
    Io(IoFailure),
}

/// The words that describe an [`AppImageError`].
pub open spec fn appimage_error_text(e: AppImageError) -> Seq<char> {
    match e {
        AppImageError::NotFound => "file not found"@,
        AppImageError::NotAnAppImage => "not an AppImage (missing type-2 AppImage magic)"@,
        AppImageError::NoSquashfs =>
            "AppImage payload (squashfs) not found within the scan window"@,
        AppImageError::Io(e) => "I/O error: "@ + e.message@,
    }
}

impl AppImageError {
    /// The error in words.
    pub fn to_string(&self) -> (r: String)
        ensures
            r@ == appimage_error_text(*self),
    {
        match self {
            AppImageError::NotFound => copy("file not found"),
            AppImageError::NotAnAppImage => copy(
                "not an AppImage (missing type-2 AppImage magic)",
            ),
            AppImageError::NoSquashfs => copy(
                "AppImage payload (squashfs) not found within the scan window",
            ),
            AppImageError::Io(e) => {
                let mut out: String = copy("I/O error: ");
                out.append(e.message.as_str());
                out
            },
        }
    }
}

impl From<IoFailure> for AppImageError {
    fn from(e: IoFailure) -> (r: Self) {
        if e.not_found {
            AppImageError::NotFound
        } else {
            AppImageError::Io(e)
        }
    }
}

impl vstd::std_specs::convert::FromSpecImpl<IoFailure> for AppImageError {
    open spec fn obeys_from_spec() -> bool {
        true
    }

    open spec fn from_spec(e: IoFailure) -> Self {
        if e.not_found {
            AppImageError::NotFound
        } else {
            AppImageError::Io(e)
        }
    }
}

/// Inspected AppImage: the byte offset where the squashfs payload begins.
#[derive(Debug, Clone)]
pub struct AppImage {
    pub squashfs_offset: u64,
}

// ---------------------------------------------------------------------------
// The header
// ---------------------------------------------------------------------------
/// Does the header start with the ELF magic?
pub open spec fn elf_header(h: Seq<u8>) -> bool {
    h[0] == 0x7f && h[1] == 0x45 && h[2] == 0x4c && h[3] == 0x46
}

/// Is the header that of an AppImage of type 2: ELF, and `AI\x02` at offset 8?
pub open spec fn appimage_header(h: Seq<u8>) -> bool {
    elf_header(h) && h[8] == 0x41 && h[9] == 0x49 && h[10] == 0x02
}

/// Does the header start with the ELF magic?
pub fn is_elf(header: &[u8; 11]) -> (r: bool)
    ensures
        r == elf_header(header@),
{
    header[0] == 0x7f && header[1] == 0x45 && header[2] == 0x4c && header[3] == 0x46
}

/// Magic-byte check (ELF + `AI\x02`) without the search for the payload.
pub fn is_appimage_magic(header: &[u8; 11]) -> (r: bool)
    ensures
        r == appimage_header(header@),
{
    is_elf(header) && header[8] == 0x41 && header[9] == 0x49 && header[10] == 0x02
}

/// Verify the magic of an AppImage of type 2.
pub fn validate_appimage_header(header: &[u8; 11]) -> (r: Result<(), AppImageError>)
    ensures
        r is Ok <==> appimage_header(header@),
        r is Err ==> r->Err_0 == AppImageError::NotAnAppImage,
{
    if is_appimage_magic(header) {
        Ok(())
    } else {
        Err(AppImageError::NotAnAppImage)
    }
}

// ---------------------------------------------------------------------------
// The search for the payload
// ---------------------------------------------------------------------------
/// Is `needle` what stands in `haystack` at `i`?
pub open spec fn bytes_at(haystack: Seq<u8>, needle: Seq<u8>, i: int) -> bool {
    &&& 0 <= i
    &&& i + needle.len() <= haystack.len()
    &&& haystack.subrange(i, i + needle.len()) == needle
}

/// The squashfs magic, `hsqs`.
pub open spec fn hsqs() -> Seq<u8> {
    seq![0x68u8, 0x73u8, 0x71u8, 0x73u8]
}

/// Does the squashfs magic stand in `data` at `i`?
pub open spec fn magic_at(data: Seq<u8>, i: int) -> bool {
    bytes_at(data, hsqs(), i)
}

/// Are the entries of `c`, in ascending order, all the offsets in `data` at
/// which the squashfs magic stands?
pub open spec fn lists_magic(c: Seq<u64>, data: Seq<u8>) -> bool {
    &&& forall|a: int, b: int| 0 <= a < b < c.len() ==> c[a] < c[b]
    &&& forall|a: int| 0 <= a < c.len() ==> magic_at(data, #[trigger] c[a] as int)
    &&& forall|i: int| #[trigger] magic_at(data, i) ==> exists|a: int| 0 <= a < c.len() && c[a] == i
}

/// The bytes of consecutive reads.
pub open spec fn concat(reads: Seq<Vec<u8>>) -> Seq<u8>
    decreases reads.len(),
{
    if reads.len() == 0 {
        seq![]
    } else {
        concat(reads.drop_last()) + reads.last()@
    }
}

/// The part of the file that is searched.
pub open spec fn window(data: Seq<u8>) -> Seq<u8> {
    if data.len() <= SCAN_LIMIT {
        data
    } else {
        data.take(SCAN_LIMIT as int)
    }
}

/// Are two runs of bytes the same?
fn same_bytes(a: &[u8], b: &[u8]) -> (r: bool)
    ensures
        r == (a@ == b@),
{
    if a.len() != b.len() {
        return false;
    }
    let mut i: usize = 0;
    while i < a.len()
        invariant
            i <= a.len(),
            a.len() == b.len(),
            forall|j: int| 0 <= j < i ==> a@[j] == b@[j],
        decreases a.len() - i,
    {
        if a[i] != b[i] {
            return false;
        }
        i = i + 1;
    }
    assert(a@ =~= b@);
    true
}

/// The first place at or after `from` where `needle` stands in `haystack`.
/// An empty needle is found nowhere.
pub fn find_subslice_from(haystack: &[u8], needle: &[u8], from: usize) -> (r: Option<usize>)
    ensures
        match r {
            Some(p) => {
                &&& needle@.len() > 0
                &&& from <= p
                &&& bytes_at(haystack@, needle@, p as int)
                &&& forall|q: int| from <= q < p ==> !bytes_at(haystack@, needle@, q)
            },
            None => needle@.len() == 0 || forall|q: int| from <= q ==> !bytes_at(haystack@, needle@, q),
        },
{
    if needle.len() == 0 || haystack.len() < needle.len() {
        return None;
    }
    let last: usize = haystack.len() - needle.len();
    let mut p: usize = from;
    while p <= last
        invariant
            needle.len() > 0,
            needle.len() <= haystack.len(),
            last == haystack.len() - needle.len(),
            from <= p,
            forall|q: int| from <= q < p ==> !bytes_at(haystack@, needle@, q),
        decreases last + 1 - p,
    {
        if same_bytes(slice_subrange(haystack, p, p + needle.len()), needle) {
            return Some(p);
        }
        p = p + 1;
    }
    None
}

/// A search for the squashfs magic over a file that is read in pieces.
struct HsqsScan {
    /// The bytes seen so far.
    seen: Ghost<Seq<u8>>,
    /// How many they are.
    pos: u64,
    /// The last of them: a magic may start there and end in the next piece.
    tail: Vec<u8>,
    /// The offsets found.
    candidates: Vec<u64>,
}

/// The last three elements, or all where there are fewer.
spec fn last_three(s: Seq<u8>) -> Seq<u8> {
    if s.len() <= 3 {
        s
    } else {
        s.skip(s.len() - 3)
    }
}

impl HsqsScan {
    spec fn wf(self) -> bool {
        &&& self.pos == self.seen@.len()
        &&& self.pos <= SCAN_LIMIT
        &&& self.tail@ == last_three(self.seen@)
        &&& lists_magic(self.candidates@, self.seen@)
    }

    fn new() -> (r: Self)
        ensures
            r.wf(),
            r.seen@ == Seq::<u8>::empty(),
    {
        HsqsScan {
            seen: Ghost(Seq::empty()),
            pos: 0,
            tail: Vec::new(),
            candidates: Vec::new(),
        }
    }

    /// Take the next piece of the file into account, as far as the window reaches.
    fn feed(&mut self, chunk: &[u8])
        requires
            old(self).wf(),
        ensures
            final(self).wf(),
            final(self).seen@ == window(old(self).seen@ + chunk@),
    {
        let room: u64 = SCAN_LIMIT - self.pos;
        let n: usize = if chunk.len() as u64 <= room {
            chunk.len()
        } else {
            room as usize
        };
        let piece: &[u8] = slice_subrange(chunk, 0, n);
        // The bytes kept from before and the new ones in one run.
        let kept: usize = self.tail.len();
        let mut run: Vec<u8> = Vec::new();
        let mut i: usize = 0;
        while i < kept
            invariant
                i <= kept == self.tail.len(),
                run@ == self.tail@.take(i as int),
            decreases kept - i,
        {
            run.push(self.tail[i]);
            i = i + 1;
            assert(self.tail@.take(i as int) =~= self.tail@.take(i - 1).push(self.tail@[i - 1]));
        }
        assert(run@ =~= self.tail@);
        let mut j: usize = 0;
        while j < n
            invariant
                j <= n == piece.len(),
                run@ == self.tail@ + piece@.take(j as int),
            decreases n - j,
        {
            run.push(piece[j]);
            j = j + 1;
            assert(self.tail@ + piece@.take(j as int) =~= (self.tail@ + piece@.take(j - 1)).push(
                piece@[j - 1],
            ));
        }
        let ghost before = self.seen@;
        let ghost after = window(before + chunk@);
        let start: u64 = self.pos - kept as u64;
        proof {
            assert(piece@.take(n as int) =~= piece@);
            assert(after =~= before + piece@);
            assert(run@ =~= after.skip(start as int));
            assert forall|k: int| magic_at(before, k) implies magic_at(after, k) by {
                assert(after.subrange(k, k + 4) =~= before.subrange(k, k + 4));
            }
            assert forall|k: int| magic_at(after, k) && k < start implies magic_at(before, k) by {
                assert(after.subrange(k, k + 4) =~= before.subrange(k, k + 4));
            }
            assert forall|k: int| #[trigger] magic_at(before, k) implies k < start by {
                if kept < 3 {
                    assert(before.len() < 3);
                }
            }
        }
        self.find_in(run.as_slice(), start, Ghost(before), Ghost(after));
        let total: usize = run.len();
        let keep: usize = if total <= 3 {
            total
        } else {
            3
        };
        let mut tail: Vec<u8> = Vec::new();
        let mut k: usize = total - keep;
        while k < total
            invariant
                total == run.len(),
                keep <= total,
                total - keep <= k <= total,
                tail@ == run@.subrange(total - keep, k as int),
            decreases total - k,
        {
            tail.push(run[k]);
            k = k + 1;
            assert(run@.subrange(total - keep, k as int) =~= run@.subrange(
                total - keep,
                k - 1,
            ).push(run@[k - 1]));
        }
        proof {
            assert(tail@ =~= last_three(after));
        }
        self.tail = tail;
        self.pos = self.pos + n as u64;
        self.seen = Ghost(after);
    }

    /// Append the places where the magic stands in `run`, which starts at `start`.
    fn find_in(&mut self, run: &[u8], start: u64, before: Ghost<Seq<u8>>, after: Ghost<Seq<u8>>)
        requires
            lists_magic(old(self).candidates@, before@),
            start + run.len() <= SCAN_LIMIT,
            run@ == after@.skip(start as int),
            start <= after@.len(),
            forall|k: int| #[trigger] magic_at(before@, k) ==> k < start && magic_at(after@, k),
            forall|k: int| #[trigger] magic_at(after@, k) && k < start ==> magic_at(before@, k),
        ensures
            lists_magic(final(self).candidates@, after@),
            final(self).pos == old(self).pos,
            final(self).tail == old(self).tail,
            final(self).seen == old(self).seen,
    {
        let needle: [u8; 4] = [0x68, 0x73, 0x71, 0x73];
        proof {
            assert(needle@ =~= hsqs());
        }
        let mut from: usize = 0;
        let mut more: bool = true;
        while more
            invariant
                needle@ == hsqs(),
                start + run.len() <= SCAN_LIMIT,
                run@ == after@.skip(start as int),
                start <= after@.len(),
                from <= run.len(),
                self.pos == old(self).pos,
                self.tail == old(self).tail,
                self.seen == old(self).seen,
                forall|a: int, b: int|
                    0 <= a < b < self.candidates@.len() ==> self.candidates@[a]
                        < self.candidates@[b],
                forall|a: int|
                    0 <= a < self.candidates@.len() ==> magic_at(
                        after@,
                        #[trigger] self.candidates@[a] as int,
                    ) && self.candidates@[a] < start + from,
                forall|k: int| #[trigger]
                    magic_at(after@, k) && k < start + from ==> exists|a: int|
                        0 <= a < self.candidates@.len() && self.candidates@[a] == k,
                !more ==> forall|k: int| #[trigger] magic_at(after@, k) ==> k < start + from,
            decreases run.len() - from, more as int,
        {
            match find_subslice_from(run, &needle, from) {
                Some(p) => {
                    let ghost cs = self.candidates@;
                    self.candidates.push(start + p as u64);
                    proof {
                        let at = start + p;
                        assert(after@.subrange(at, at + 4) =~= run@.subrange(p as int, p + 4));
                        assert(magic_at(after@, at));
                        assert(self.candidates@[cs.len() as int] == at);
                        assert forall|k: int| #[trigger]
                            magic_at(after@, k) && k < start + p + 1 implies exists|a: int|
                            0 <= a < self.candidates@.len() && self.candidates@[a] == k by {
                            if k < start + from {
                                let a = choose|a: int| 0 <= a < cs.len() && cs[a] == k;
                                assert(self.candidates@[a] == k);
                            } else if k < at {
                                assert(after@.subrange(k, k + 4) =~= run@.subrange(
                                    k - start,
                                    k - start + 4,
                                ));
                                assert(bytes_at(run@, hsqs(), k - start));
                            }
                        }
                    }
                    from = p + 1;
                },
                None => {
                    proof {
                        assert forall|k: int| #[trigger] magic_at(after@, k) implies k < start
                            + from by {
                            if k >= start + from {
                                assert(after@.subrange(k, k + 4) =~= run@.subrange(
                                    k - start,
                                    k - start + 4,
                                ));
                                assert(bytes_at(run@, hsqs(), k - start));
                            }
                        }
                    }
                    more = false;
                },
            }
        }
    }
}

/// Every offset within the first [`SCAN_LIMIT`] bytes at which the `hsqs` magic
/// stands, in ascending order, given the consecutive reads of the file. A magic
/// that spans reads is found like any other.
pub fn collect_hsqs_candidates(reads: &Vec<Vec<u8>>) -> (r: Vec<u64>)
    ensures
        lists_magic(r@, window(concat(reads@))),
{
    let mut scan: HsqsScan = HsqsScan::new();
    let mut i: usize = 0;
    while i < reads.len()
        invariant
            i <= reads.len(),
            scan.wf(),
            scan.seen@ == window(concat(reads@.take(i as int))),
        decreases reads.len() - i,
    {
        scan.feed(reads[i].as_slice());
        i = i + 1;
        proof {
            let front = reads@.take(i - 1);
            assert(reads@.take(i as int).drop_last() =~= front);
            assert(window(window(concat(front)) + reads@[i - 1]@) =~= window(
                concat(front) + reads@[i - 1]@,
            ));
        }
    }
    assert(reads@.take(i as int) =~= reads@);
    scan.candidates
}

// ---------------------------------------------------------------------------
// The superblock
// ---------------------------------------------------------------------------
/// The number that bytes write with the least significant one first.
pub open spec fn little_endian(b: Seq<u8>) -> nat
    decreases b.len(),
{
    if b.len() == 0 {
        0
    } else {
        b[0] as nat + 256 * little_endian(b.drop_first())
    }
}

/// Two to the power `n`.
pub open spec fn power_of_two(n: nat) -> nat
    decreases n,
{
    if n == 0 {
        1
    } else {
        2 * power_of_two((n - 1) as nat)
    }
}

/// The block size that a superblock gives.
pub open spec fn block_size(h: Seq<u8>) -> nat {
    little_endian(h.subrange(12, 16))
}

/// The logarithm of the block size that a superblock gives.
pub open spec fn block_log(h: Seq<u8>) -> nat {
    little_endian(h.subrange(22, 24))
}

/// The size of the file system that a superblock gives.
pub open spec fn bytes_used(h: Seq<u8>) -> nat {
    little_endian(h.subrange(40, 48))
}

/// Is `h` the start of a plausible superblock at `offset` in a file of
/// `file_len` bytes? A length of zero stands for one that is not known.
pub open spec fn superblock(h: Seq<u8>, offset: int, file_len: int) -> bool {
    &&& h.len() >= SUPERBLOCK_SIZE
    &&& magic_at(h, 0)
    &&& 12 <= block_log(h) <= 20
    &&& block_size(h) == power_of_two(block_log(h))
    &&& bytes_used(h) >= SUPERBLOCK_SIZE
    &&& file_len > 0 ==> offset + SUPERBLOCK_SIZE <= file_len && offset + bytes_used(h) <= file_len
}

/// The number in two bytes.
fn read_u16(a: u8, b: u8) -> (r: u64)
    ensures
        r == little_endian(seq![a, b]),
        r < 0x1_0000,
{
    proof {
        reveal_with_fuel(little_endian, 3);
        assert(seq![a, b].drop_first() =~= seq![b]);
        assert(seq![b].drop_first() =~= Seq::<u8>::empty());
    }
    a as u64 + 256 * (b as u64)
}

pub(crate) proof fn lemma_little_endian_halves(x: Seq<u8>, y: Seq<u8>)
    requires
        x.len() == 2 || x.len() == 4,
    ensures
        x.len() == 2 ==> little_endian(x + y) == little_endian(x) + 0x1_0000 * little_endian(y),
        x.len() == 4 ==> little_endian(x + y) == little_endian(x) + 0x1_0000_0000 * little_endian(
            y,
        ),
{
    reveal_with_fuel(little_endian, 6);
    let s = x + y;
    if x.len() == 2 {
        assert(s.drop_first().drop_first() =~= y);
        assert(x.drop_first().drop_first() =~= Seq::<u8>::empty());
    } else {
        assert(s.drop_first().drop_first().drop_first().drop_first() =~= y);
        assert(x.drop_first().drop_first().drop_first().drop_first() =~= Seq::<u8>::empty());
    }
}

/// The number in four bytes.
fn read_u32(h: &[u8], at: usize) -> (r: u64)
    requires
        at + 4 <= h.len(),
    ensures
        r == little_endian(h@.subrange(at as int, at + 4)),
        r < 0x1_0000_0000,
{
    let low: u64 = read_u16(h[at], h[at + 1]);
    let high: u64 = read_u16(h[at + 2], h[at + 3]);
    proof {
        let x = seq![h@[at as int], h@[at + 1]];
        let y = seq![h@[at + 2], h@[at + 3]];
        lemma_little_endian_halves(x, y);
        assert(h@.subrange(at as int, at + 4) =~= x + y);
    }
    low + 0x1_0000 * high
}

/// Validate a candidate superblock, of which `hdr` is what could be read at
/// `offset`: the block size is the power of two that its logarithm says, within
/// 4 KiB and 1 MiB, and the file system ends within the file.
pub fn validate_squashfs_superblock(hdr: &[u8], offset: u64, file_len: u64) -> (r: bool)
    ensures
        r == superblock(hdr@, offset as int, file_len as int),
{
    if hdr.len() < SUPERBLOCK_SIZE {
        return false;
    }
    if file_len > 0 && (offset > file_len || file_len - offset < 48) {
        return false;
    }
    let magic: [u8; 4] = [0x68, 0x73, 0x71, 0x73];
    proof {
        assert(magic@ =~= hsqs());
    }
    if !same_bytes(slice_subrange(hdr, 0, 4), &magic) {
        return false;
    }
    let size: u64 = read_u32(hdr, 12);
    let log: u64 = read_u16(hdr[22], hdr[23]);
    let low: u64 = read_u32(hdr, 40);
    let high: u64 = read_u32(hdr, 44);
    let used: u64 = low + 0x1_0000_0000 * high;
    proof {
        assert(hdr@.subrange(22, 24) =~= seq![hdr@[22], hdr@[23]]);
        assert(hdr@.subrange(40, 48) =~= hdr@.subrange(40, 44) + hdr@.subrange(44, 48));
        lemma_little_endian_halves(hdr@.subrange(40, 44), hdr@.subrange(44, 48));
        assert(used == bytes_used(hdr@));
    }
    if log < 12 || log > 20 {
        return false;
    }
    let mut power: u64 = 1;
    let mut n: u64 = 0;
    while n < log
        invariant
            n <= log <= 20,
            power == power_of_two(n as nat),
            power <= 0x10_0000,
            n < 20 ==> power <= 0x8_0000,
        decreases log - n,
    {
        proof {
            lemma_powers(n as nat);
        }
        power = power * 2;
        n = n + 1;
        proof {
            lemma_powers(n as nat);
        }
    }
    if size != power {
        return false;
    }
    if used < 48 {
        return false;
    }
    if file_len > 0 && used > file_len - offset {
        return false;
    }
    true
}

proof fn lemma_powers(n: nat)
    ensures
        n <= 20 ==> power_of_two(n) <= 0x10_0000,
        n < 20 ==> power_of_two(n) <= 0x8_0000,
{
    reveal_with_fuel(power_of_two, 22);
}

/// Is the `k`-th candidate the start of a payload, by the superblock read there?
/// It is not where nothing was read.
pub open spec fn valid_candidate(
    candidates: Seq<u64>,
    headers: Seq<Vec<u8>>,
    file_len: int,
    k: int,
) -> bool {
    0 <= k < candidates.len() && k < headers.len() && superblock(
        headers[k]@,
        candidates[k] as int,
        file_len,
    )
}

/// Is `offset` the least of the candidates that start a payload?
pub open spec fn earliest_valid(
    candidates: Seq<u64>,
    headers: Seq<Vec<u8>>,
    file_len: int,
    offset: u64,
) -> bool {
    &&& exists|k: int| #[trigger]
        valid_candidate(candidates, headers, file_len, k) && candidates[k] == offset
    &&& forall|k: int| #[trigger]
        valid_candidate(candidates, headers, file_len, k) ==> offset <= candidates[k]
}

/// Locate the payload: the earliest candidate with a valid superblock, given
/// what could be read at each candidate.
pub fn find_squashfs_offset(
    candidates: &Vec<u64>,
    headers: &Vec<Vec<u8>>,
    file_len: u64,
) -> (r: Result<u64, AppImageError>)
    ensures
        match r {
            Ok(offset) => earliest_valid(candidates@, headers@, file_len as int, offset),
            Err(e) => {
                &&& e == AppImageError::NoSquashfs
                &&& forall|k: int| !valid_candidate(candidates@, headers@, file_len as int, k)
            },
        },
{
    let mut best: Option<u64> = None;
    let mut i: usize = 0;
    while i < candidates.len() && i < headers.len()
        invariant
            i <= candidates.len(),
            i <= headers.len(),
            match best {
                Some(b) => {
                    &&& exists|k: int| #[trigger]
                        valid_candidate(candidates@, headers@, file_len as int, k) && candidates@[k]
                            == b
                    &&& forall|k: int|
                        k < i && #[trigger] valid_candidate(
                            candidates@,
                            headers@,
                            file_len as int,
                            k,
                        ) ==> b <= candidates@[k]
                },
                None => forall|k: int|
                    k < i ==> !valid_candidate(candidates@, headers@, file_len as int, k),
            },
        decreases candidates.len() - i,
    {
        let off: u64 = candidates[i];
        let ok: bool = validate_squashfs_superblock(headers[i].as_slice(), off, file_len);
        proof {
            assert(ok == valid_candidate(candidates@, headers@, file_len as int, i as int));
        }
        if ok {
            best = match best {
                Some(b) => if b <= off {
                    Some(b)
                } else {
                    Some(off)
                },
                None => Some(off),
            };
        }
        i = i + 1;
    }
    match best {
        Some(b) => Ok(b),
        None => Err(AppImageError::NoSquashfs),
    }
}

impl AppImage {
    /// Validate an AppImage and locate its payload, given its first bytes, the
    /// places where the squashfs magic stands and what could be read there.
    pub fn open(
        header: &[u8; 11],
        candidates: &Vec<u64>,
        headers: &Vec<Vec<u8>>,
        file_len: u64,
    ) -> (r: Result<Self, AppImageError>)
        ensures
            match r {
                Ok(app) => {
                    &&& appimage_header(header@)
                    &&& earliest_valid(
                        candidates@,
                        headers@,
                        file_len as int,
                        app.squashfs_offset,
                    )
                },
                Err(AppImageError::NotAnAppImage) => !appimage_header(header@),
                Err(e) => {
                    &&& e == AppImageError::NoSquashfs
                    &&& appimage_header(header@)
                    &&& forall|k: int| !valid_candidate(candidates@, headers@, file_len as int, k)
                },
            },
    {
        match validate_appimage_header(header) {
            Ok(_) => {},
            Err(e) => {
                return Err(e);
            },
        }
        match find_squashfs_offset(candidates, headers, file_len) {
            Ok(offset) => Ok(AppImage { squashfs_offset: offset }),
            Err(e) => Err(e),
        }
    }
}

// ---------------------------------------------------------------------------
// Laws
// ---------------------------------------------------------------------------
/// Does a payload start in `file` at `i`, within the searched part?
pub open spec fn payload_at(file: Seq<u8>, i: int) -> bool {
    magic_at(window(file), i) && superblock(file.skip(i), i, file.len() as int)
}

/// Is `h` what a read of a superblock at `i` gives: its bytes, or as many as there are?
pub open spec fn read_at(file: Seq<u8>, i: int, h: Seq<u8>) -> bool {
    if i + SUPERBLOCK_SIZE <= file.len() {
        h == file.subrange(i, i + SUPERBLOCK_SIZE)
    } else {
        h == file.skip(i)
    }
}

/// However the file was cut into reads, the offset that is found is that of the
/// first payload in the file.
pub proof fn law_first_payload(
    file: Seq<u8>,
    reads: Seq<Vec<u8>>,
    candidates: Seq<u64>,
    headers: Seq<Vec<u8>>,
    offset: u64,
)
    requires
        window(concat(reads)) == window(file),
        lists_magic(candidates, window(concat(reads))),
        headers.len() == candidates.len(),
        forall|k: int|
            0 <= k < candidates.len() ==> read_at(
                file,
                #[trigger] candidates[k] as int,
                headers[k]@,
            ),
    ensures
        earliest_valid(candidates, headers, file.len() as int, offset) <==> {
            &&& payload_at(file, offset as int)
            &&& forall|i: int| 0 <= i < offset ==> !payload_at(file, i)
        },
        (forall|k: int| !valid_candidate(candidates, headers, file.len() as int, k)) <==> (forall|
            i: int,
        |
            !payload_at(file, i)),
{
    let n = file.len() as int;
    assert forall|k: int| 0 <= k < candidates.len() implies (valid_candidate(
        candidates,
        headers,
        n,
        k,
    ) <==> payload_at(file, #[trigger] candidates[k] as int)) by {
        let i = candidates[k] as int;
        let h = headers[k]@;
        assert(magic_at(window(file), i));
        if i + SUPERBLOCK_SIZE <= n {
            let g = file.skip(i);
            assert(h.subrange(0, 4) =~= g.subrange(0, 4));
            assert(h.subrange(12, 16) =~= g.subrange(12, 16));
            assert(h.subrange(22, 24) =~= g.subrange(22, 24));
            assert(h.subrange(40, 48) =~= g.subrange(40, 48));
        }
    }
    assert forall|i: int| #[trigger] payload_at(file, i) implies exists|k: int|
        #[trigger] valid_candidate(candidates, headers, n, k) && candidates[k] == i by {
        let k = choose|k: int| 0 <= k < candidates.len() && candidates[k] == i;
        assert(valid_candidate(candidates, headers, n, k));
    }
    assert forall|k: int| #[trigger] valid_candidate(candidates, headers, n, k) implies payload_at(
        file,
        candidates[k] as int,
    ) by {
        assert(payload_at(file, candidates[k] as int));
    }
}

} // verus!
