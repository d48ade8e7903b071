//! What is read out of an AppImage's squashfs payload.
//!
//! Only the wanted files are read, with `unsquashfs -o <offset> -cat`; the
//! AppImage itself is never run. The layout of a payload:
//!
//! ```text
//! /<name>.desktop                                  the desktop entry
//! /.DirIcon                                        the fallback icon
//! /usr/share/icons/hicolor/<size>/apps/<name>.png  the icons
//! ```
use vstd::prelude::*;

use crate::appimage::AppImage;
use crate::desktop::{lookup, parsed, DesktopEntry, DesktopView};
use crate::failure::{IoFailure, ToolOutput};
use crate::paths::{file_name, name_stem, path_file_name, stem};
use crate::text::{alphanumeric, contains_char, copy, decimal, ends_with, has_char, is_text, join,
    joined, lines, lossy, lower, opt_string, same_chars, slices, split, split_at, starts_with,
    strip_all, stripped_all, text_lines, texts, to_chars, to_decimal, to_lower, to_text, to_u32,
    trim, trimmed, u32_value, up_to, utf8_lossy};

verus! {

/// The directory of the payload that holds the icon theme.
pub const HICOLOR: &'static str = "usr/share/icons/hicolor";

/// An extracted icon: its size in pixels and the PNG bytes.
#[derive(Debug)]
pub struct Icon {
    pub size: u32,
    pub png: Vec<u8>,
}

/// What an [`Icon`] holds.
#[verifier::ext_equal]
pub struct IconView {
    pub size: u32,
    pub png: Seq<u8>,
}

impl View for Icon {
    type V = IconView;

    open spec fn view(&self) -> IconView {
        IconView { size: self.size, png: self.png@ }
    }
}

/// What a vector of icons holds.
pub open spec fn icon_views(v: Seq<Icon>) -> Seq<IconView> {
    Seq::new(v.len(), |i: int| v[i]@)
}

impl Clone for Icon {
    fn clone(&self) -> (r: Self)
        ensures
            r@ == self@,
    {
        let r: Icon = Icon { size: self.size, png: self.png.clone() };
        assert(r@ =~= self@);
        r
    }
}

/// Metadata extracted from an AppImage for installation.
#[derive(Debug)]
pub struct AppImageMetadata {
    /// The desktop entry that ships inside the AppImage.
    pub desktop: DesktopEntry,
    /// All hicolor PNG icons found under `/usr/share/icons/hicolor/*/apps/`.
    pub icons: Vec<Icon>,
    /// The `.DirIcon` bytes (PNG), if present; used as a fallback.
    pub dir_icon: Option<Vec<u8>>,
}

/// What an [`AppImageMetadata`] holds.
#[verifier::ext_equal]
pub struct MetadataView {
    pub desktop: DesktopView,
    pub icons: Seq<IconView>,
    pub dir_icon: Option<Seq<u8>>,
}

/// The bytes that may be there.
pub open spec fn opt_bytes(o: Option<Vec<u8>>) -> Option<Seq<u8>> {
    match o {
        Some(b) => Some(b@),
        None => None,
    }
}

impl View for AppImageMetadata {
    type V = MetadataView;

    open spec fn view(&self) -> MetadataView {
        MetadataView {
            desktop: self.desktop@,
            icons: icon_views(self.icons@),
            dir_icon: opt_bytes(self.dir_icon),
        }
    }
}

fn copy_icons(icons: &Vec<Icon>) -> (r: Vec<Icon>)
    ensures
        icon_views(r@) == icon_views(icons@),
{
    let mut out: Vec<Icon> = Vec::new();
    let mut i: usize = 0;
    while i < icons.len()
        invariant
            i <= icons.len(),
            out.len() == i,
            forall|j: int| 0 <= j < i ==> (#[trigger] out[j])@ == icons[j]@,
        decreases icons.len() - i,
    {
        out.push(icons[i].clone());
        i += 1;
    }
    assert(icon_views(out@) =~= icon_views(icons@));
    out
}

impl Clone for AppImageMetadata {
    fn clone(&self) -> (r: Self)
        ensures
            r@ == self@,
    {
        let dir_icon: Option<Vec<u8>> = match &self.dir_icon {
            Some(png) => {
                let copied: Vec<u8> = png.clone();
                assert(copied@ =~= png@);
                Some(copied)
            },
            None => None,
        };
        AppImageMetadata { desktop: self.desktop.clone(), icons: copy_icons(&self.icons), dir_icon }
    }
}

/// Why no metadata could be had.
#[derive(Debug)]
pub enum MetadataError {
    /// `unsquashfs` not found on PATH.
    UnsquashfsNotFound,
    /// `unsquashfs` ran but failed (bad offset, unreadable payload).
    Extract(String),
    /// The AppImage has no `.desktop` file in its root.
    NoDesktopEntry,
    /// The desktop entry is missing the minimum required keys.
    InvalidDesktopEntry(String),
    Io(IoFailure),
}

/// What a [`MetadataError`] says.
pub enum MetadataErrorView {
    UnsquashfsNotFound,
    Extract(Seq<char>),
    NoDesktopEntry,
    InvalidDesktopEntry(Seq<char>),
    Io(IoFailure),
}

impl View for MetadataError {
    type V = MetadataErrorView;

    open spec fn view(&self) -> MetadataErrorView {
        match *self {
            MetadataError::UnsquashfsNotFound => MetadataErrorView::UnsquashfsNotFound,
            MetadataError::Extract(s) => MetadataErrorView::Extract(s@),
            MetadataError::NoDesktopEntry => MetadataErrorView::NoDesktopEntry,
            MetadataError::InvalidDesktopEntry(s) => MetadataErrorView::InvalidDesktopEntry(s@),
            MetadataError::Io(e) => MetadataErrorView::Io(e),
        }
    }
}

/// The words that describe a [`MetadataError`].
pub open spec fn metadata_error_text(e: MetadataErrorView) -> Seq<char> {
    match e {
        MetadataErrorView::UnsquashfsNotFound => "unsquashfs not found on PATH"@,
        MetadataErrorView::Extract(s) => "extraction failed: "@ + s,
        MetadataErrorView::NoDesktopEntry => "no .desktop file at the AppImage root"@,
        MetadataErrorView::InvalidDesktopEntry(s) => "invalid desktop entry: "@ + s,
        MetadataErrorView::Io(e) => "I/O error: "@ + e.message@,
    }
}

impl MetadataError {
    /// The error in words.
    pub fn to_string(&self) -> (r: String)
        ensures
            r@ == metadata_error_text(self@),
    {
        match self {
            MetadataError::UnsquashfsNotFound => copy("unsquashfs not found on PATH"),
            MetadataError::Extract(s) => {
                let mut out: String = copy("extraction failed: ");
                out.append(s.as_str());
                out
            },
            MetadataError::NoDesktopEntry => copy("no .desktop file at the AppImage root"),
            MetadataError::InvalidDesktopEntry(s) => {
                let mut out: String = copy("invalid desktop entry: ");
                out.append(s.as_str());
                out
            },
            MetadataError::Io(e) => {
                let mut out: String = copy("I/O error: ");
                out.append(e.message.as_str());
                out
            },
        }
    }
}

impl From<IoFailure> for MetadataError {
    fn from(e: IoFailure) -> (r: Self) {
        if e.not_found {
            MetadataError::UnsquashfsNotFound
        } else {
            MetadataError::Io(e)
        }
    }
}

impl vstd::std_specs::convert::FromSpecImpl<IoFailure> for MetadataError {
    open spec fn obeys_from_spec() -> bool {
        true
    }

    open spec fn from_spec(e: IoFailure) -> Self {
        if e.not_found {
            MetadataError::UnsquashfsNotFound
        } else {
            MetadataError::Io(e)
        }
    }
}

/// A failure to run `unsquashfs` at all.
pub open spec fn run_failure(e: IoFailure) -> MetadataErrorView {
    if e.not_found {
        MetadataErrorView::UnsquashfsNotFound
    } else {
        MetadataErrorView::Io(e)
    }
}

// ---------------------------------------------------------------------------
// unsquashfs
// ---------------------------------------------------------------------------
/// The arguments with which `unsquashfs` writes one file of the payload.
pub open spec fn cat_args(offset: u64, appimage: Seq<char>, inner: Seq<char>) -> Seq<Seq<char>> {
    seq!["-o"@, decimal(offset as nat), "-cat"@, appimage, inner]
}

/// The arguments with which `unsquashfs` lists the whole payload.
pub open spec fn list_all_args(offset: u64, appimage: Seq<char>) -> Seq<Seq<char>> {
    seq!["-o"@, decimal(offset as nat), "-ls"@, appimage]
}

/// The arguments with which `unsquashfs` lists a directory of the payload.
pub open spec fn list_args(offset: u64, appimage: Seq<char>, root: Seq<char>) -> Seq<Seq<char>> {
    list_all_args(offset, appimage).push(root)
}

/// The arguments for writing the file `inner` of the payload.
pub fn extract_file_args(app: &AppImage, appimage: &str, inner: &str) -> (r: Vec<String>)
    ensures
        texts(r@) == cat_args(app.squashfs_offset, appimage@, inner@),
{
    let mut args: Vec<String> = Vec::new();
    args.push(copy("-o"));
    args.push(to_decimal(app.squashfs_offset as u128));
    args.push(copy("-cat"));
    args.push(copy(appimage));
    args.push(copy(inner));
    assert(texts(args@) =~= cat_args(app.squashfs_offset, appimage@, inner@));
    args
}

/// The arguments for listing the whole payload.
pub fn find_root_desktop_args(app: &AppImage, appimage: &str) -> (r: Vec<String>)
    ensures
        texts(r@) == list_all_args(app.squashfs_offset, appimage@),
{
    let mut args: Vec<String> = Vec::new();
    args.push(copy("-o"));
    args.push(to_decimal(app.squashfs_offset as u128));
    args.push(copy("-ls"));
    args.push(copy(appimage));
    assert(texts(args@) =~= list_all_args(app.squashfs_offset, appimage@));
    args
}

/// The arguments for listing the directory `root` of the payload.
pub fn list_dir_args(app: &AppImage, appimage: &str, root: &str) -> (r: Vec<String>)
    ensures
        texts(r@) == list_args(app.squashfs_offset, appimage@, root@),
{
    let mut args: Vec<String> = find_root_desktop_args(app, appimage);
    let ghost before = args@;
    args.push(copy(root));
    assert(texts(args@) =~= texts(before).push(root@));
    args
}

/// What a run of `unsquashfs` for one file comes to.
pub enum Extracted {
    File(Seq<u8>),
    Missing,
    Failure(MetadataErrorView),
}

/// What a run of `unsquashfs` for one file comes to, a file that a listing of
/// the payload names or not: the file where the tool succeeded or wrote
/// something; otherwise nothing where the file is not listed, or the tool did
/// not complain; and a failure where it complained of a file that is there.
pub open spec fn extracted(output: Result<ToolOutput, IoFailure>, listed: bool) -> Extracted {
    match output {
        Err(e) => Extracted::Failure(run_failure(e)),
        Ok(o) => if o.success || o.stdout@.len() > 0 {
            Extracted::File(o.stdout@)
        } else if !listed || o.stderr@.len() == 0 {
            Extracted::Missing
        } else {
            Extracted::Failure(
                MetadataErrorView::Extract("unsquashfs: "@ + utf8_lossy(o.stderr@)),
            )
        },
    }
}

/// The same, as the result of [`extract_file`].
pub open spec fn is_extracted(r: Result<Option<Vec<u8>>, MetadataError>, x: Extracted) -> bool {
    match x {
        Extracted::File(bytes) => r is Ok && opt_bytes(r->Ok_0) == Some(bytes),
        Extracted::Missing => r is Ok && r->Ok_0 is None,
        Extracted::Failure(e) => r is Err && r->Err_0@ == e,
    }
}

/// The file in the output of a run made with [`extract_file_args`].
///
/// `Ok(None)` if the path does not exist inside the squashfs, so that optional
/// files like `.DirIcon` can be treated gracefully. Whether it exists is known
/// from a listing of the payload, `listed`: the words of the tool depend on the
/// locale and are not looked at.
pub fn extract_file(output: Result<ToolOutput, IoFailure>, listed: bool) -> (r: Result<
    Option<Vec<u8>>,
    MetadataError,
>)
    ensures
        is_extracted(r, extracted(output, listed)),
{
    match output {
        Err(e) => Err(MetadataError::from(e)),
        Ok(o) => {
            if o.success || o.stdout.len() > 0 {
                return Ok(Some(o.stdout));
            }
            if !listed || o.stderr.len() == 0 {
                return Ok(None);
            }
            let mut out: String = copy("unsquashfs: ");
            out.append(lossy(o.stderr.as_slice()).as_str());
            Err(MetadataError::Extract(out))
        },
    }
}

/// A file that is not in the payload is no failure, in whatever words the tool
/// says so; and a complaint of one that is there, without any of it, is never
/// taken for a missing file.
pub proof fn law_existence_decides(o: ToolOutput)
    ensures
        !(extracted(Ok(o), false) is Failure),
        !o.success && o.stdout@.len() == 0 ==> extracted(Ok(o), false) is Missing,
        !o.success && o.stdout@.len() == 0 && o.stderr@.len() > 0 ==> extracted(Ok(o), true)
            is Failure,
{
}

// ---------------------------------------------------------------------------
// Listings
// ---------------------------------------------------------------------------
/// A listed path without what `unsquashfs` puts before it.
pub open spec fn listed_path(s: Seq<char>) -> Seq<char> {
    strip_all(strip_all(s, "squashfs-root/"@), "./"@)
}

fn to_listed_path<'a>(s: &'a [char]) -> (r: &'a [char])
    ensures
        r@ == listed_path(s@),
{
    let root: Vec<char> = to_chars("squashfs-root/");
    let here: Vec<char> = to_chars("./");
    stripped_all(stripped_all(s, root.as_slice()), here.as_slice())
}

/// A directory without the slash that may stand at its end.
pub open spec fn without_slash(dir: Seq<char>) -> Seq<char> {
    if dir.len() > 0 && dir.last() == '/' {
        dir.drop_last()
    } else {
        dir
    }
}

/// Is the listed path the directory `root` itself, or something in it? The
/// empty path is the directory that holds everything.
pub open spec fn under_root(path: Seq<char>, root: Seq<char>) -> bool {
    let dir = without_slash(root);
    dir.len() == 0 || path == dir || (dir + "/"@).is_prefix_of(path)
}

fn is_under_root(path: &[char], root: &[char]) -> (r: bool)
    ensures
        r == under_root(path@, root@),
{
    let dir: &[char] = if root.len() > 0 && root[root.len() - 1] == '/' {
        up_to(root, root.len() - 1)
    } else {
        root
    };
    assert(dir@ =~= without_slash(root@));
    if dir.len() == 0 || same_chars(path, dir) {
        return true;
    }
    let mut inner: String = to_text(dir);
    inner.append("/");
    starts_with(path, to_chars(inner.as_str()).as_slice())
}

/// The paths in the lines of a listing that are under `root`.
pub open spec fn listed(ls: Seq<Seq<char>>, root: Seq<char>) -> Seq<Seq<char>>
    decreases ls.len(),
{
    if ls.len() == 0 {
        seq![]
    } else {
        let line = trim(ls.last());
        if line.len() > 0 && line != "squashfs-root"@ && under_root(listed_path(line), root) {
            listed(ls.drop_last(), root).push(listed_path(line))
        } else {
            listed(ls.drop_last(), root)
        }
    }
}

/// The listing `raw` as a newline-separated list of the paths under `root`.
pub open spec fn listing(raw: Seq<char>, root: Seq<char>) -> Seq<char> {
    join(listed(lines(raw), root), "\n"@)
}

/// Parse `unsquashfs -ls` output into a newline-separated list of paths
/// (without the `squashfs-root/` prefix), filtered to those under `root`.
pub fn parse_ls(raw: &str, root: &str) -> (r: String)
    ensures
        r@ == listing(raw@, root@),
{
    let chars: Vec<char> = to_chars(raw);
    let wanted: Vec<char> = to_chars(root);
    let ls: Vec<&[char]> = text_lines(chars.as_slice());
    let ghost gl = slices(ls@);
    let mut paths: Vec<String> = Vec::new();
    let mut i: usize = 0;
    assert(texts(paths@) =~= listed(gl.take(0), root@));
    while i < ls.len()
        invariant
            i <= ls.len(),
            gl == slices(ls@),
            wanted@ == root@,
            texts(paths@) == listed(gl.take(i as int), root@),
        decreases ls.len() - i,
    {
        let line: &[char] = trimmed(ls[i]);
        let ghost before = paths@;
        proof {
            assert(gl.take(i + 1).drop_last() =~= gl.take(i as int));
            assert(gl.take(i + 1).last() == ls@[i as int]@);
        }
        if line.len() > 0 && !is_text(line, "squashfs-root") {
            let cleaned: &[char] = to_listed_path(line);
            if is_under_root(cleaned, wanted.as_slice()) {
                paths.push(to_text(cleaned));
                assert(texts(paths@) =~= texts(before).push(cleaned@));
            }
        }
        i += 1;
    }
    assert(gl.take(i as int) =~= gl);
    joined(&paths, "\n")
}

/// Every path of a filtered listing is the directory asked for or lies in it.
pub proof fn law_listing_stays_below_root(ls: Seq<Seq<char>>, root: Seq<char>)
    ensures
        forall|i: int|
            0 <= i < listed(ls, root).len() ==> under_root(#[trigger] listed(ls, root)[i], root),
    decreases ls.len(),
{
    if ls.len() > 0 {
        law_listing_stays_below_root(ls.drop_last(), root);
        let rest = listed(ls.drop_last(), root);
        assert forall|i: int| 0 <= i < listed(ls, root).len() implies under_root(
            #[trigger] listed(ls, root)[i],
            root,
        ) by {
            if i < rest.len() {
                assert(listed(ls, root)[i] == rest[i]);
            }
        }
    }
}

/// What [`list_dir`] makes of a run of `unsquashfs`: the paths under `root`,
/// unless the tool could not run, or failed without a word on its output.
pub open spec fn dir_listing(output: Result<ToolOutput, IoFailure>, root: Seq<char>) -> Result<
    Seq<char>,
    MetadataErrorView,
> {
    match output {
        Err(e) => Err(run_failure(e)),
        Ok(o) => if !o.success && o.stdout@.len() == 0 {
            Err(MetadataErrorView::Extract("unsquashfs -ls: "@ + utf8_lossy(o.stderr@)))
        } else {
            Ok(listing(utf8_lossy(o.stdout@), root))
        },
    }
}

/// The text or the error of a result.
pub open spec fn text_result(r: Result<String, MetadataError>) -> Result<
    Seq<char>,
    MetadataErrorView,
> {
    match r {
        Ok(s) => Ok(s@),
        Err(e) => Err(e@),
    }
}

/// The paths under `root` in the output of a run made with [`list_dir_args`].
pub fn list_dir(output: Result<ToolOutput, IoFailure>, root: &str) -> (r: Result<
    String,
    MetadataError,
>)
    ensures
        text_result(r) == dir_listing(output, root@),
{
    match output {
        Err(e) => Err(MetadataError::from(e)),
        Ok(o) => {
            if !o.success && o.stdout.len() == 0 {
                let mut out: String = copy("unsquashfs -ls: ");
                out.append(lossy(o.stderr.as_slice()).as_str());
                return Err(MetadataError::Extract(out));
            }
            let raw: String = lossy(o.stdout.as_slice());
            Ok(parse_ls(raw.as_str(), root))
        },
    }
}

/// Does the line of a listing, which is one path, name a desktop entry at the
/// root of the payload?
pub open spec fn names_root_desktop(line: Seq<char>) -> bool {
    ".desktop"@.is_suffix_of(listed_path(trim(line))) && !has_char(listed_path(trim(line)), '/')
}

/// The desktop entry at the root that the first of the lines to do so names.
pub open spec fn desktop_line(ls: Seq<Seq<char>>) -> Option<Seq<char>>
    decreases ls.len(),
{
    if ls.len() == 0 {
        None
    } else if names_root_desktop(ls[0]) {
        Some(listed_path(trim(ls[0])))
    } else {
        desktop_line(ls.drop_first())
    }
}

/// The desktop entry at the root of the payload, by the listing `raw`.
pub fn root_desktop_name(raw: &str) -> (r: Option<String>)
    ensures
        opt_string(r) == desktop_line(lines(raw@)),
{
    let chars: Vec<char> = to_chars(raw);
    let suffix: Vec<char> = to_chars(".desktop");
    let ls: Vec<&[char]> = text_lines(chars.as_slice());
    let ghost gl = slices(ls@);
    let mut i: usize = 0;
    assert(gl.skip(0) =~= gl);
    while i < ls.len()
        invariant
            i <= ls.len(),
            suffix@ == ".desktop"@,
            gl == slices(ls@),
            gl == lines(raw@),
            desktop_line(gl) == desktop_line(gl.skip(i as int)),
        decreases ls.len() - i,
    {
        let path: &[char] = to_listed_path(trimmed(ls[i]));
        proof {
            assert(gl.skip(i as int)[0] == ls@[i as int]@);
            assert(gl.skip(i as int).drop_first() =~= gl.skip(i + 1));
        }
        if ends_with(path, suffix.as_slice()) && !contains_char(path, '/') {
            return Some(to_text(path));
        }
        i += 1;
    }
    None
}

/// What [`find_root_desktop_name`] makes of a run of `unsquashfs`.
pub open spec fn root_desktop(output: Result<ToolOutput, IoFailure>) -> Result<
    Seq<char>,
    MetadataErrorView,
> {
    match output {
        Err(e) => Err(run_failure(e)),
        Ok(o) => match desktop_line(lines(utf8_lossy(o.stdout@))) {
            Some(name) => Ok(name),
            None => Err(MetadataErrorView::NoDesktopEntry),
        },
    }
}

/// The `.desktop` file at the squashfs root, by the output of a run made with
/// [`find_root_desktop_args`].
pub fn find_root_desktop_name(output: Result<ToolOutput, IoFailure>) -> (r: Result<
    String,
    MetadataError,
>)
    ensures
        text_result(r) == root_desktop(output),
{
    match output {
        Err(e) => Err(MetadataError::from(e)),
        Ok(o) => {
            let raw: String = lossy(o.stdout.as_slice());
            match root_desktop_name(raw.as_str()) {
                Some(name) => Ok(name),
                None => Err(MetadataError::NoDesktopEntry),
            }
        },
    }
}

/// Does one of the lines of a listing name this path?
pub open spec fn names_path(ls: Seq<Seq<char>>, path: Seq<char>) -> bool {
    exists|i: int| 0 <= i < ls.len() && listed_path(trim(#[trigger] ls[i])) == path
}

/// Does the listing `raw` name this path?
pub fn is_named(raw: &str, path: &str) -> (r: bool)
    ensures
        r == names_path(lines(raw@), path@),
{
    let chars: Vec<char> = to_chars(raw);
    let ls: Vec<&[char]> = text_lines(chars.as_slice());
    let ghost gl = slices(ls@);
    let mut i: usize = 0;
    while i < ls.len()
        invariant
            i <= ls.len(),
            gl == slices(ls@),
            gl == lines(raw@),
            forall|j: int| 0 <= j < i ==> listed_path(trim(#[trigger] gl[j])) != path@,
        decreases ls.len() - i,
    {
        assert(gl[i as int] == ls@[i as int]@);
        if is_text(to_listed_path(trimmed(ls[i])), path) {
            return true;
        }
        i += 1;
    }
    false
}

/// Does a run of `unsquashfs` that lists the payload name this path?
pub open spec fn lists_path(output: Result<ToolOutput, IoFailure>, path: Seq<char>) -> bool {
    match output {
        Err(_) => false,
        Ok(o) => names_path(lines(utf8_lossy(o.stdout@)), path),
    }
}

/// Does a run made with [`find_root_desktop_args`] name this path?
pub fn is_listed(output: &Result<ToolOutput, IoFailure>, path: &str) -> (r: bool)
    ensures
        r == lists_path(*output, path@),
{
    match output {
        Err(_) => false,
        Ok(o) => {
            let raw: String = lossy(o.stdout.as_slice());
            is_named(raw.as_str(), path)
        },
    }
}

// ---------------------------------------------------------------------------
// The desktop entry and the icons
// ---------------------------------------------------------------------------
/// A desktop entry that names its application.
pub open spec fn valid_desktop(content: Seq<char>) -> Result<DesktopView, MetadataErrorView> {
    if lookup(parsed(content).keys, "Name"@) is Some {
        Ok(parsed(content))
    } else {
        Err(MetadataErrorView::InvalidDesktopEntry("missing Name"@))
    }
}

/// What a desktop entry, or the error in its place, holds.
pub open spec fn desktop_result(r: Result<DesktopEntry, MetadataError>) -> Result<
    DesktopView,
    MetadataErrorView,
> {
    match r {
        Ok(d) => Ok(d@),
        Err(e) => Err(e@),
    }
}

/// The desktop entry with this content, if it has the minimum required keys.
pub fn validate_desktop(content: &str) -> (r: Result<DesktopEntry, MetadataError>)
    ensures
        desktop_result(r) == valid_desktop(content@),
{
    let entry: DesktopEntry = DesktopEntry::parse(content);
    if entry.get("Name").is_none() {
        return Err(MetadataError::InvalidDesktopEntry(copy("missing Name")));
    }
    Ok(entry)
}

/// The desktop entry in what was extracted.
pub open spec fn desktop_in(x: Extracted) -> Result<DesktopView, MetadataErrorView> {
    match x {
        Extracted::File(bytes) => valid_desktop(utf8_lossy(bytes)),
        Extracted::Missing => Err(MetadataErrorView::NoDesktopEntry),
        Extracted::Failure(e) => Err(e),
    }
}

/// The desktop entry in the output of a run made with [`extract_file_args`], for
/// a path that a listing names.
pub fn extract_desktop(output: Result<ToolOutput, IoFailure>) -> (r: Result<
    DesktopEntry,
    MetadataError,
>)
    ensures
        desktop_result(r) == desktop_in(extracted(output, true)),
{
    match extract_file(output, true) {
        Err(e) => Err(e),
        Ok(None) => Err(MetadataError::NoDesktopEntry),
        Ok(Some(bytes)) => {
            let content: String = lossy(bytes.as_slice());
            validate_desktop(content.as_str())
        },
    }
}

/// An icon of the payload: its size in pixels and its path.
#[derive(Debug)]
pub struct IconRequest {
    pub size: u32,
    pub path: String,
}

impl View for IconRequest {
    type V = (u32, Seq<char>);

    open spec fn view(&self) -> (u32, Seq<char>) {
        (self.size, self.path@)
    }
}

/// What a vector of icon requests holds.
pub open spec fn request_views(v: Seq<IconRequest>) -> Seq<(u32, Seq<char>)> {
    Seq::new(v.len(), |i: int| v[i]@)
}

/// The icon that a listed path names, if it is
/// `usr/share/icons/hicolor/<size>[x<size>]/apps/<name>.png`.
pub open spec fn icon_of(path: Seq<char>) -> Option<(u32, Seq<char>)> {
    let parts = split(path, '/');
    if parts.len() >= 7 && parts[5] == "apps"@ && ".png"@.is_suffix_of(parts[6]) && u32_value(
        split(parts[4], 'x')[0],
    ) is Some {
        Some(
            (
                u32_value(split(parts[4], 'x')[0])->0,
                HICOLOR@ + "/"@ + parts[4] + "/apps/"@ + parts[6],
            ),
        )
    } else {
        None
    }
}

/// The icons that the listed paths name, in their order.
pub open spec fn icons_of(paths: Seq<Seq<char>>) -> Seq<(u32, Seq<char>)>
    decreases paths.len(),
{
    if paths.len() == 0 {
        seq![]
    } else {
        match icon_of(paths.last()) {
            Some(icon) => icons_of(paths.drop_last()).push(icon),
            None => icons_of(paths.drop_last()),
        }
    }
}

/// What an optional icon request holds.
pub open spec fn opt_request(o: Option<IconRequest>) -> Option<(u32, Seq<char>)> {
    match o {
        Some(q) => Some(q@),
        None => None,
    }
}

fn icon_request(path: &[char]) -> (r: Option<IconRequest>)
    ensures
        opt_request(r) == icon_of(path@),
{
    let parts: Vec<&[char]> = split_at(path, '/');
    assert(slices(parts@).len() == parts.len());
    if parts.len() < 7 {
        return None;
    }
    let png: Vec<char> = to_chars(".png");
    assert(slices(parts@)[4] == parts@[4]@ && slices(parts@)[5] == parts@[5]@ && slices(
        parts@,
    )[6] == parts@[6]@);
    if !is_text(parts[5], "apps") || !ends_with(parts[6], png.as_slice()) {
        return None;
    }
    let sizes: Vec<&[char]> = split_at(parts[4], 'x');
    assert(slices(sizes@)[0] == sizes@[0]@);
    match to_u32(sizes[0]) {
        None => None,
        Some(size) => {
            let mut out: String = copy(HICOLOR);
            out.append("/");
            out.append(to_text(parts[4]).as_str());
            out.append("/apps/");
            out.append(to_text(parts[6]).as_str());
            Some(IconRequest { size, path: out })
        },
    }
}

/// The icons that a listing made with [`list_dir`] names, in its order.
pub fn icon_requests(listing: &str) -> (r: Vec<IconRequest>)
    ensures
        request_views(r@) == icons_of(lines(listing@)),
{
    let chars: Vec<char> = to_chars(listing);
    let ls: Vec<&[char]> = text_lines(chars.as_slice());
    let ghost gl = slices(ls@);
    let mut out: Vec<IconRequest> = Vec::new();
    let mut i: usize = 0;
    assert(request_views(out@) =~= icons_of(gl.take(0)));
    while i < ls.len()
        invariant
            i <= ls.len(),
            gl == slices(ls@),
            request_views(out@) == icons_of(gl.take(i as int)),
        decreases ls.len() - i,
    {
        let ghost before = out@;
        proof {
            assert(gl.take(i + 1).drop_last() =~= gl.take(i as int));
            assert(gl.take(i + 1).last() == ls@[i as int]@);
        }
        match icon_request(ls[i]) {
            Some(request) => {
                out.push(request);
                assert(request_views(out@) =~= request_views(before).push(request@));
            },
            None => {},
        }
        i += 1;
    }
    assert(gl.take(i as int) =~= gl);
    out
}

// ---------------------------------------------------------------------------
// Extraction, one run of unsquashfs after the other
// ---------------------------------------------------------------------------
/// What the next run of `unsquashfs` is for, and what is known by then:
/// from the first run on, whether the fallback icon is in the payload.
#[derive(Debug)]
pub enum Stage {
    /// To list the payload, for the name of the desktop entry.
    Root,
    /// To read the desktop entry.
    Desktop { name: String, dir_icon: bool },
    /// To list the icon theme.
    Hicolor { desktop: DesktopEntry, dir_icon: bool },
    /// To read an icon; others may follow.
    Icon {
        desktop: DesktopEntry,
        icons: Vec<Icon>,
        request: IconRequest,
        rest: Vec<IconRequest>,
        dir_icon: bool,
    },
    /// To read the fallback icon.
    DirIcon { desktop: DesktopEntry, icons: Vec<Icon>, dir_icon: bool },
}

/// What a [`Stage`] holds.
pub enum StageView {
    Root,
    Desktop { name: Seq<char>, dir_icon: bool },
    Hicolor { desktop: DesktopView, dir_icon: bool },
    Icon {
        desktop: DesktopView,
        icons: Seq<IconView>,
        request: (u32, Seq<char>),
        rest: Seq<(u32, Seq<char>)>,
        dir_icon: bool,
    },
    DirIcon { desktop: DesktopView, icons: Seq<IconView>, dir_icon: bool },
}

impl View for Stage {
    type V = StageView;

    open spec fn view(&self) -> StageView {
        match *self {
            Stage::Root => StageView::Root,
            Stage::Desktop { name, dir_icon } => StageView::Desktop { name: name@, dir_icon },
            Stage::Hicolor { desktop, dir_icon } => StageView::Hicolor {
                desktop: desktop@,
                dir_icon,
            },
            Stage::Icon { desktop, icons, request, rest, dir_icon } => StageView::Icon {
                desktop: desktop@,
                icons: icon_views(icons@),
                request: request@,
                rest: request_views(rest@),
                dir_icon,
            },
            Stage::DirIcon { desktop, icons, dir_icon } => StageView::DirIcon {
                desktop: desktop@,
                icons: icon_views(icons@),
                dir_icon,
            },
        }
    }
}

/// An extraction under way.
#[derive(Debug)]
pub struct Extraction {
    pub appimage: String,
    pub app: AppImage,
    pub stage: Stage,
}

/// What one run of `unsquashfs` leads to, where it is no failure.
#[derive(Debug)]
pub enum Progress {
    /// Another run is needed.
    Run(Extraction),
    Done(AppImageMetadata),
}

/// What one run of `unsquashfs` leads to.
pub enum After {
    Run(StageView),
    Done(MetadataView),
    Failed(MetadataErrorView),
}

/// The arguments of the next run.
pub open spec fn stage_args(offset: u64, appimage: Seq<char>, stage: StageView) -> Seq<Seq<char>> {
    match stage {
        StageView::Root => list_all_args(offset, appimage),
        StageView::Desktop { name, .. } => cat_args(offset, appimage, name),
        StageView::Hicolor { .. } => list_args(offset, appimage, HICOLOR@),
        StageView::Icon { request, .. } => cat_args(offset, appimage, request.1),
        StageView::DirIcon { .. } => cat_args(offset, appimage, ".DirIcon"@),
    }
}

/// The stage at which these icons are still to be read.
pub open spec fn icons_left(
    desktop: DesktopView,
    icons: Seq<IconView>,
    requests: Seq<(u32, Seq<char>)>,
    dir_icon: bool,
) -> StageView {
    if requests.len() == 0 {
        StageView::DirIcon { desktop, icons, dir_icon }
    } else {
        StageView::Icon {
            desktop,
            icons,
            request: requests[0],
            rest: requests.drop_first(),
            dir_icon,
        }
    }
}

/// The icons, with the one that was read if it was there.
pub open spec fn with_icon(icons: Seq<IconView>, size: u32, x: Extracted) -> Seq<IconView> {
    match x {
        Extracted::File(png) => icons.push(IconView { size, png }),
        _ => icons,
    }
}

/// What the output of the run for `stage` leads to. The desktop entry and the
/// icons are read because a listing names them.
pub open spec fn after(stage: StageView, output: Result<ToolOutput, IoFailure>) -> After {
    match stage {
        StageView::Root => match root_desktop(output) {
            Ok(name) => After::Run(
                StageView::Desktop { name, dir_icon: lists_path(output, ".DirIcon"@) },
            ),
            Err(e) => After::Failed(e),
        },
        StageView::Desktop { dir_icon, .. } => match desktop_in(extracted(output, true)) {
            Ok(desktop) => After::Run(StageView::Hicolor { desktop, dir_icon }),
            Err(e) => After::Failed(e),
        },
        StageView::Hicolor { desktop, dir_icon } => match dir_listing(output, HICOLOR@) {
            Ok(listing) => After::Run(
                icons_left(desktop, seq![], icons_of(lines(listing)), dir_icon),
            ),
            Err(e) => After::Failed(e),
        },
        StageView::Icon { desktop, icons, request, rest, dir_icon } => match extracted(
            output,
            true,
        ) {
            Extracted::Failure(e) => After::Failed(e),
            x => After::Run(icons_left(desktop, with_icon(icons, request.0, x), rest, dir_icon)),
        },
        StageView::DirIcon { desktop, icons, dir_icon } => match extracted(output, dir_icon) {
            Extracted::File(png) => After::Done(
                MetadataView { desktop, icons, dir_icon: Some(png) },
            ),
            Extracted::Missing => After::Done(MetadataView { desktop, icons, dir_icon: None }),
            Extracted::Failure(e) => After::Failed(e),
        },
    }
}

/// The same, as the result of [`Extraction::step`] on `before`.
pub open spec fn is_after(
    before: Extraction,
    r: Result<Progress, MetadataError>,
    x: After,
) -> bool {
    match x {
        After::Run(stage) => {
            &&& r matches Ok(Progress::Run(next))
            &&& next.appimage@ == before.appimage@
            &&& next.app == before.app
            &&& next.stage@ == stage
        },
        After::Done(metadata) => {
            &&& r matches Ok(Progress::Done(m))
            &&& m@ == metadata
        },
        After::Failed(error) => {
            &&& r matches Err(e)
            &&& e@ == error
        },
    }
}

fn to_icons_left(
    desktop: DesktopEntry,
    icons: Vec<Icon>,
    requests: Vec<IconRequest>,
    dir_icon: bool,
) -> (r: Stage)
    ensures
        r@ == icons_left(desktop@, icon_views(icons@), request_views(requests@), dir_icon),
{
    assert(request_views(requests@).len() == requests.len());
    if requests.len() == 0 {
        Stage::DirIcon { desktop, icons, dir_icon }
    } else {
        let mut rest: Vec<IconRequest> = requests;
        let request: IconRequest = rest.remove(0);
        assert(request_views(rest@) =~= request_views(requests@).drop_first());
        Stage::Icon { desktop, icons, request, rest, dir_icon }
    }
}

impl AppImageMetadata {
    /// Begin to extract the metadata of `appimage` (its path on disk), whose
    /// payload is at the validated offset in `app`. Nothing is known yet: the
    /// runs of `unsquashfs` that [`Extraction::args`] asks for, one after the
    /// other, bring the metadata or the first error.
    pub fn extract(appimage: &str, app: AppImage) -> (r: Extraction)
        ensures
            r.appimage@ == appimage@,
            r.app == app,
            r.stage@ == StageView::Root,
    {
        Extraction { appimage: copy(appimage), app, stage: Stage::Root }
    }
}

impl Extraction {
    /// The arguments of the next run of `unsquashfs`.
    pub fn args(&self) -> (r: Vec<String>)
        ensures
            texts(r@) == stage_args(self.app.squashfs_offset, self.appimage@, self.stage@),
    {
        let appimage: &str = self.appimage.as_str();
        match &self.stage {
            Stage::Root => find_root_desktop_args(&self.app, appimage),
            Stage::Desktop { name, .. } => extract_file_args(&self.app, appimage, name.as_str()),
            Stage::Hicolor { .. } => list_dir_args(&self.app, appimage, HICOLOR),
            Stage::Icon { request, .. } => extract_file_args(
                &self.app,
                appimage,
                request.path.as_str(),
            ),
            Stage::DirIcon { .. } => extract_file_args(&self.app, appimage, ".DirIcon"),
        }
    }

    /// Take in the output of the run that [`Extraction::args`] asked for.
    pub fn step(self, output: Result<ToolOutput, IoFailure>) -> (r: Result<Progress, MetadataError>)
        ensures
            is_after(self, r, after(self.stage@, output)),
    {
        let Extraction { appimage, app, stage } = self;
        match stage {
            Stage::Root => {
                let dir_icon: bool = is_listed(&output, ".DirIcon");
                match find_root_desktop_name(output) {
                    Ok(name) => {
                        let next: Stage = Stage::Desktop { name, dir_icon };
                        Ok(Progress::Run(Extraction { appimage, app, stage: next }))
                    },
                    Err(e) => Err(e),
                }
            },
            Stage::Desktop { name: _, dir_icon } => match extract_desktop(output) {
                Ok(desktop) => {
                    let next: Stage = Stage::Hicolor { desktop, dir_icon };
                    Ok(Progress::Run(Extraction { appimage, app, stage: next }))
                },
                Err(e) => Err(e),
            },
            Stage::Hicolor { desktop, dir_icon } => match list_dir(output, HICOLOR) {
                Ok(listing) => {
                    let requests: Vec<IconRequest> = icon_requests(listing.as_str());
                    let icons: Vec<Icon> = Vec::new();
                    assert(icon_views(icons@) =~= seq![]);
                    let next: Stage = to_icons_left(desktop, icons, requests, dir_icon);
                    Ok(Progress::Run(Extraction { appimage, app, stage: next }))
                },
                Err(e) => Err(e),
            },
            Stage::Icon { desktop, icons, request, rest, dir_icon } => match extract_file(
                output,
                true,
            ) {
                Ok(found) => {
                    let mut icons: Vec<Icon> = icons;
                    let ghost before = icons@;
                    match found {
                        Some(png) => {
                            let icon: Icon = Icon { size: request.size, png };
                            icons.push(icon);
                            assert(icon_views(icons@) =~= icon_views(before).push(icon@));
                        },
                        None => {},
                    }
                    let next: Stage = to_icons_left(desktop, icons, rest, dir_icon);
                    Ok(Progress::Run(Extraction { appimage, app, stage: next }))
                },
                Err(e) => Err(e),
            },
            Stage::DirIcon { desktop, icons, dir_icon } => match extract_file(output, dir_icon) {
                Ok(dir_icon) => Ok(Progress::Done(AppImageMetadata { desktop, icons, dir_icon })),
                Err(e) => Err(e),
            },
        }
    }
}

/// What a series of runs leads to, each made with the arguments that its stage
/// asks for.
pub open spec fn after_all(
    stage: StageView,
    outputs: Seq<Result<ToolOutput, IoFailure>>,
) -> After
    decreases outputs.len(),
{
    if outputs.len() == 0 {
        After::Run(stage)
    } else {
        match after(stage, outputs[0]) {
            After::Run(next) => after_all(next, outputs.drop_first()),
            end => end,
        }
    }
}

/// The icons that were there, in the order of the requests.
pub open spec fn icons_read(
    requests: Seq<(u32, Seq<char>)>,
    outputs: Seq<Result<ToolOutput, IoFailure>>,
) -> Seq<IconView>
    decreases requests.len(),
{
    if requests.len() == 0 || outputs.len() == 0 {
        seq![]
    } else {
        with_icon(seq![], requests[0].0, extracted(outputs[0], true)) + icons_read(
            requests.drop_first(),
            outputs.drop_first(),
        )
    }
}

/// The fallback icon, if it was there.
pub open spec fn dir_icon_read(output: Result<ToolOutput, IoFailure>, listed: bool) -> Option<
    Seq<u8>,
> {
    match extracted(output, listed) {
        Extracted::File(png) => Some(png),
        _ => None,
    }
}

/// Is the run with this number, of those for `count` icons and then the fallback
/// icon, for a file that is in the payload? The icons all are.
pub open spec fn is_there(i: int, count: nat, dir_icon: bool) -> bool {
    i < count || dir_icon
}

/// Where no run fails, every icon that is there is read, in the order of the
/// listing, and the fallback icon after them.
pub proof fn law_every_icon_is_read(
    desktop: DesktopView,
    icons: Seq<IconView>,
    requests: Seq<(u32, Seq<char>)>,
    dir_icon: bool,
    outputs: Seq<Result<ToolOutput, IoFailure>>,
)
    requires
        outputs.len() == requests.len() + 1,
        forall|i: int|
            0 <= i < outputs.len() ==> !(extracted(
                #[trigger] outputs[i],
                is_there(i, requests.len(), dir_icon),
            ) is Failure),
    ensures
        after_all(icons_left(desktop, icons, requests, dir_icon), outputs) == After::Done(
            MetadataView {
                desktop,
                icons: icons + icons_read(requests, outputs),
                dir_icon: dir_icon_read(outputs.last(), dir_icon),
            },
        ),
    decreases requests.len(),
{
    let stage = icons_left(desktop, icons, requests, dir_icon);
    assert(!(extracted(outputs[0], is_there(0, requests.len(), dir_icon)) is Failure));
    if requests.len() == 0 {
        assert(icons + icons_read(requests, outputs) =~= icons);
        assert(outputs.last() == outputs[0]);
    } else {
        let x = extracted(outputs[0], true);
        let more = with_icon(icons, requests[0].0, x);
        let left = requests.drop_first();
        let rest = outputs.drop_first();
        assert forall|i: int| 0 <= i < rest.len() implies !(extracted(
            #[trigger] rest[i],
            is_there(i, left.len(), dir_icon),
        ) is Failure) by {
            assert(rest[i] == outputs[i + 1]);
        }
        law_every_icon_is_read(desktop, more, left, dir_icon, rest);
        assert(after(stage, outputs[0]) == After::Run(icons_left(desktop, more, left, dir_icon)));
        assert(more =~= icons + with_icon(seq![], requests[0].0, x));
        assert(more + icons_read(left, rest) =~= icons + icons_read(requests, outputs));
    }
}

/// The first failing run ends the extraction with its error, whatever the runs
/// before it brought.
pub proof fn law_first_failure_is_reported(
    desktop: DesktopView,
    icons: Seq<IconView>,
    requests: Seq<(u32, Seq<char>)>,
    dir_icon: bool,
    outputs: Seq<Result<ToolOutput, IoFailure>>,
    k: int,
)
    requires
        0 <= k < outputs.len() <= requests.len() + 1,
        extracted(outputs[k], is_there(k, requests.len(), dir_icon)) is Failure,
        forall|i: int|
            0 <= i < k ==> !(extracted(
                #[trigger] outputs[i],
                is_there(i, requests.len(), dir_icon),
            ) is Failure),
    ensures
        after_all(icons_left(desktop, icons, requests, dir_icon), outputs) == After::Failed(
            extracted(outputs[k], is_there(k, requests.len(), dir_icon))->Failure_0,
        ),
    decreases requests.len(),
{
    let stage = icons_left(desktop, icons, requests, dir_icon);
    if k > 0 {
        let more = with_icon(icons, requests[0].0, extracted(outputs[0], true));
        let left = requests.drop_first();
        let rest = outputs.drop_first();
        assert(!(extracted(outputs[0], is_there(0, requests.len(), dir_icon)) is Failure));
        assert forall|i: int| 0 <= i < k - 1 implies !(extracted(
            #[trigger] rest[i],
            is_there(i, left.len(), dir_icon),
        ) is Failure) by {
            assert(rest[i] == outputs[i + 1]);
        }
        assert(rest[k - 1] == outputs[k]);
        law_first_failure_is_reported(desktop, more, left, dir_icon, rest, k - 1);
        assert(after(stage, outputs[0]) == After::Run(icons_left(desktop, more, left, dir_icon)));
    }
}

/// An extraction in which every run succeeds ends with the desktop entry that
/// the root listing names, all the icons of the theme that are there, and the
/// fallback icon. Where the root listing does not name a fallback icon, the run
/// for it succeeds in whatever words the tool says that it is missing.
pub proof fn law_extraction(
    root: Result<ToolOutput, IoFailure>,
    entry: Result<ToolOutput, IoFailure>,
    theme: Result<ToolOutput, IoFailure>,
    icons: Seq<Result<ToolOutput, IoFailure>>,
)
    requires
        root_desktop(root) is Ok,
        desktop_in(extracted(entry, true)) is Ok,
        dir_listing(theme, HICOLOR@) is Ok,
        icons.len() == icons_of(lines(dir_listing(theme, HICOLOR@)->Ok_0)).len() + 1,
        forall|i: int|
            0 <= i < icons.len() - 1 ==> !(extracted(#[trigger] icons[i], true) is Failure),
        icons.last() is Ok,
        lists_path(root, ".DirIcon"@) ==> !(extracted(icons.last(), true) is Failure),
    ensures
        after_all(StageView::Root, seq![root, entry, theme] + icons) == After::Done(
            MetadataView {
                desktop: desktop_in(extracted(entry, true))->Ok_0,
                icons: icons_read(icons_of(lines(dir_listing(theme, HICOLOR@)->Ok_0)), icons),
                dir_icon: dir_icon_read(icons.last(), lists_path(root, ".DirIcon"@)),
            },
        ),
{
    let all = seq![root, entry, theme] + icons;
    let desktop = desktop_in(extracted(entry, true))->Ok_0;
    let dir_icon = lists_path(root, ".DirIcon"@);
    let requests = icons_of(lines(dir_listing(theme, HICOLOR@)->Ok_0));
    assert forall|i: int| 0 <= i < icons.len() implies !(extracted(
        #[trigger] icons[i],
        is_there(i, requests.len(), dir_icon),
    ) is Failure) by {
        if i == icons.len() - 1 {
            law_existence_decides(icons.last()->Ok_0);
        }
    }
    law_every_icon_is_read(desktop, seq![], requests, dir_icon, icons);
    assert(Seq::<IconView>::empty() + icons_read(requests, icons) =~= icons_read(requests, icons));
    assert(all.drop_first()[0] == entry);
    assert(all.drop_first().drop_first()[0] == theme);
    assert(all.drop_first().drop_first().drop_first() =~= icons);
    reveal_with_fuel(after_all, 4);
}

// ---------------------------------------------------------------------------
// The install name
// ---------------------------------------------------------------------------
/// A character that an install name made of an application's name may have.
pub open spec fn name_char(c: char) -> bool {
    alphanumeric(c) || c == '-' || c == '_'
}

/// An application's name in lower case, with only the characters of an install
/// name left.
pub open spec fn cleaned_name(name: Seq<char>) -> Seq<char>
    decreases name.len(),
{
    if name.len() == 0 {
        seq![]
    } else if name_char(lower(name.last())) {
        cleaned_name(name.drop_last()).push(lower(name.last()))
    } else {
        cleaned_name(name.drop_last())
    }
}

/// The install name of an AppImage with this desktop entry and path.
pub open spec fn app_install_name(keys: Seq<(Seq<char>, Seq<char>)>, file: Seq<char>) -> Seq<char> {
    if lookup(keys, "Name"@) is Some && cleaned_name(lookup(keys, "Name"@)->0).len() > 0 {
        cleaned_name(lookup(keys, "Name"@)->0)
    } else if file_name(file) is Some {
        stem(file_name(file)->0)
    } else {
        "appimage-app"@
    }
}

fn clean_name(name: &[char]) -> (r: String)
    ensures
        r@ == cleaned_name(name@),
{
    let mut out: String = String::new();
    let mut i: usize = 0;
    assert(out@ =~= cleaned_name(name@.take(0)));
    while i < name.len()
        invariant
            i <= name.len(),
            out@ == cleaned_name(name@.take(i as int)),
        decreases name.len() - i,
    {
        let c: char = to_lower(name[i]);
        proof {
            assert(name@.take(i + 1).drop_last() =~= name@.take(i as int));
            assert(name@.take(i + 1).last() == name@[i as int]);
        }
        if ('a' <= c && c <= 'z') || ('A' <= c && c <= 'Z') || ('0' <= c && c <= '9') || c == '-'
            || c == '_' {
            out.push(c);
        }
        i += 1;
    }
    assert(name@.take(i as int) =~= name@);
    out
}

/// Derive a stable install name for an AppImage.
///
/// The `Name` of the desktop entry is preferred (lower-cased, ASCII-only); the
/// file stem is the fallback. A file name that is not text is handed in as the
/// empty path.
pub fn install_name(desktop: &DesktopEntry, file: &str) -> (r: String)
    ensures
        r@ == app_install_name(desktop@.keys, file@),
{
    match desktop.get("Name") {
        Some(name) => {
            let chars: Vec<char> = to_chars(name);
            let cleaned: String = clean_name(chars.as_slice());
            let probe: Vec<char> = to_chars(cleaned.as_str());
            if probe.len() > 0 {
                return cleaned;
            }
        },
        None => {},
    }
    match path_file_name(file) {
        Some(name) => name_stem(name.as_slice()),
        None => copy("appimage-app"),
    }
}

/// An install name made of an application's name has only lower-case ASCII
/// letters, digits, `-` and `_`, and is its own install name.
pub proof fn law_install_name_is_stable(name: Seq<char>)
    ensures
        forall|i: int|
            #![trigger cleaned_name(name)[i]]
            0 <= i < cleaned_name(name).len() ==> {
                let c = cleaned_name(name)[i];
                'a' <= c <= 'z' || '0' <= c <= '9' || c == '-' || c == '_'
            },
        cleaned_name(cleaned_name(name)) == cleaned_name(name),
    decreases name.len(),
{
    if name.len() > 0 {
        law_install_name_is_stable(name.drop_last());
        let rest = cleaned_name(name.drop_last());
        let c = lower(name.last());
        if name_char(c) {
            assert(cleaned_name(name).drop_last() =~= rest);
            assert(lower(c) == c);
            assert forall|i: int|
                #![trigger cleaned_name(name)[i]]
                0 <= i < cleaned_name(name).len() implies {
                let d = cleaned_name(name)[i];
                'a' <= d <= 'z' || '0' <= d <= '9' || d == '-' || d == '_'
            } by {
                if i < rest.len() {
                    assert(cleaned_name(name)[i] == rest[i]);
                }
            }
        }
    }
}

} // verus!
