//! MIME handler registration, so that Dolphin opens AppImages with this tool.
//!
//! The handler is a desktop entry in the user's `applications` directory whose
//! `Exec` starts this tool with the `handle` subcommand. It is registered as
//! the default application for the AppImage MIME types with `xdg-mime`.
use vstd::prelude::*;

use crate::desktop::{law_write_then_parse, lemma_key_pos_is, lemma_writable_pair, lookup, parsed,
    writable_pair, written, DesktopEntry, DesktopView, Pair};
use crate::failure::IoFailure;
use crate::installer::{lists_text, Dirs};
use crate::messages::{message_views, with_args, Message, MessageView};
use crate::paths::{join_path, joined_path};
use crate::registry::FileWrite;
use crate::text::{char_pos, copy, ended, find_char, from_index, has_char, is_text, join, joined,
    lemma_char_pos, lemma_char_pos_is, lemma_join_keeps_out, lemma_lines_append,
    lemma_lines_no_feed, lemma_one_line, lemma_split_join, lemma_split_keeps_out,
    lemma_split_no_char, lemma_split_push, lemma_trim, lemma_trim_end, lemma_trim_id, lines,
    opt_string, slices, split, split_at, split_once, text_lines, texts, to_chars, to_text, trim,
    trim_end, trimmed, up_to, whitespace, without_cr};

verus! {

/// The desktop file name used for the MIME handler.
pub const HANDLER_DESKTOP: &'static str = "appimage-handler.desktop";

/// A MIME type that earlier versions registered and that is actively disowned:
/// the generic type of *any* unrecognised binary (firmware, disk images,
/// unknown data files). Owning it made the installer prompt pop up on files
/// that have nothing to do with AppImages.
pub const OBSOLETE_MIME_TYPE: &'static str = "application/octet-stream";

/// The MIME types of AppImages. Deliberately limited to the specific types.
pub open spec fn claimed_types() -> Seq<Seq<char>> {
    seq!["application/vnd.appimage"@, "application/x-appimage"@]
}

/// MIME types associated with AppImages that this tool wants to own.
pub fn appimage_mime_types() -> (r: Vec<String>)
    ensures
        texts(r@) == claimed_types(),
{
    let mut types: Vec<String> = Vec::new();
    types.push(copy("application/vnd.appimage"));
    types.push(copy("application/x-appimage"));
    assert(texts(types@) =~= claimed_types());
    types
}

/// The type of every unrecognised binary is never claimed.
pub proof fn law_generic_type_is_never_claimed()
    ensures
        !claimed_types().contains(OBSOLETE_MIME_TYPE@),
{
    reveal_strlit("application/octet-stream");
    reveal_strlit("application/vnd.appimage");
    reveal_strlit("application/x-appimage");
    assert(OBSOLETE_MIME_TYPE@[12] == 'o');
    assert(claimed_types()[0][12] == 'v' && claimed_types()[1][12] == 'x');
}

// ---------------------------------------------------------------------------
// mimeapps.list
// ---------------------------------------------------------------------------
/// The directory that one variable names, or else one under the home.
pub open spec fn base_dir(
    var: Option<Seq<char>>,
    home: Option<Seq<char>>,
    tail: Seq<char>,
) -> Option<Seq<char>> {
    match var {
        Some(dir) => Some(dir),
        None => match home {
            Some(h) => Some(join_path(h, tail)),
            None => None,
        },
    }
}

/// The path, if there is one, as a sequence.
pub open spec fn as_seq(o: Option<Seq<char>>) -> Seq<Seq<char>> {
    match o {
        Some(s) => seq![s],
        None => seq![],
    }
}

/// The file `tail` of the directory, if there is one.
pub open spec fn in_dir(dir: Option<Seq<char>>, tail: Seq<char>) -> Option<Seq<char>> {
    match dir {
        Some(d) => Some(join_path(d, tail)),
        None => None,
    }
}

fn to_base_dir(var: Option<String>, home: &Option<String>, tail: &str) -> (r: Option<String>)
    ensures
        opt_string(r) == base_dir(opt_string(var), opt_string(*home), tail@),
{
    match var {
        Some(dir) => Some(dir),
        None => match home {
            Some(h) => Some(joined_path(h.as_str(), tail)),
            None => None,
        },
    }
}

/// The per-user `mimeapps.list` files that XDG clients read, in order, by the
/// environment: `XDG_CONFIG_HOME`, `XDG_DATA_HOME` and `HOME`. `xdg-mime`
/// writes to the first; older setups may carry entries in the second.
pub fn user_mimeapps_files(
    xdg_config_home: Option<String>,
    xdg_data_home: Option<String>,
    home: Option<String>,
) -> (r: Vec<String>)
    ensures
        texts(r@) == as_seq(
            in_dir(
                base_dir(opt_string(xdg_config_home), opt_string(home), ".config"@),
                "mimeapps.list"@,
            ),
        ) + as_seq(
            in_dir(
                in_dir(
                    base_dir(opt_string(xdg_data_home), opt_string(home), ".local/share"@),
                    "applications"@,
                ),
                "mimeapps.list"@,
            ),
        ),
{
    let mut out: Vec<String> = Vec::new();
    assert(texts(out@) =~= seq![]);
    match to_base_dir(xdg_config_home, &home, ".config") {
        Some(dir) => {
            out.push(joined_path(dir.as_str(), "mimeapps.list"));
            assert(texts(out@) =~= seq![join_path(dir@, "mimeapps.list"@)]);
        },
        None => {},
    }
    let ghost before = out@;
    match to_base_dir(xdg_data_home, &home, ".local/share") {
        Some(dir) => {
            let apps: String = joined_path(dir.as_str(), "applications");
            out.push(joined_path(apps.as_str(), "mimeapps.list"));
            assert(texts(out@) =~= texts(before) + seq![join_path(apps@, "mimeapps.list"@)]);
        },
        None => {
            assert(texts(out@) =~= texts(before) + Seq::<Seq<char>>::empty());
        },
    }
    out
}

/// The handlers in the value of an association: what stands between the
/// semicolons, without the white space around it.
pub open spec fn handlers(pieces: Seq<Seq<char>>) -> Seq<Seq<char>>
    decreases pieces.len(),
{
    if pieces.len() == 0 {
        seq![]
    } else if trim(pieces.last()).len() > 0 {
        handlers(pieces.drop_last()).push(trim(pieces.last()))
    } else {
        handlers(pieces.drop_last())
    }
}

/// The handlers other than the one of this tool, in their order.
pub open spec fn others(hs: Seq<Seq<char>>) -> Seq<Seq<char>>
    decreases hs.len(),
{
    if hs.len() == 0 {
        seq![]
    } else if hs.last() != HANDLER_DESKTOP@ {
        others(hs.drop_last()).push(hs.last())
    } else {
        others(hs.drop_last())
    }
}

/// The handlers of the disowned type that a line lists, if it is about it.
pub open spec fn obsolete_handlers(line: Seq<char>) -> Option<Seq<Seq<char>>> {
    match split_once(line, '=') {
        Some((key, value)) => if trim(key) == OBSOLETE_MIME_TYPE@ {
            Some(handlers(split(value, ';')))
        } else {
            None
        },
        None => None,
    }
}

/// Does the line associate the disowned type with the handler of this tool?
pub open spec fn is_obsolete(line: Seq<char>) -> bool {
    obsolete_handlers(line) is Some && obsolete_handlers(line)->0.contains(HANDLER_DESKTOP@)
}

/// What becomes of a line: without the handler of this tool if it is listed for
/// the disowned type, nothing at all if no other handler is left, and the line
/// itself otherwise.
pub open spec fn stripped_line(line: Seq<char>) -> Seq<char> {
    if is_obsolete(line) {
        let left = others(obsolete_handlers(line)->0);
        if left.len() == 0 {
            seq![]
        } else {
            OBSOLETE_MIME_TYPE@ + "="@ + join(left, ";"@) + ";\n"@
        }
    } else {
        line + "\n"@
    }
}

/// What becomes of the lines.
pub open spec fn stripped(ls: Seq<Seq<char>>) -> Seq<char>
    decreases ls.len(),
{
    if ls.len() == 0 {
        seq![]
    } else {
        stripped(ls.drop_last()) + stripped_line(ls.last())
    }
}

/// The disowned type, once for each line that associated it.
pub open spec fn disowned(ls: Seq<Seq<char>>) -> Seq<Seq<char>>
    decreases ls.len(),
{
    if ls.len() == 0 {
        seq![]
    } else if is_obsolete(ls.last()) {
        disowned(ls.drop_last()).push(OBSOLETE_MIME_TYPE@)
    } else {
        disowned(ls.drop_last())
    }
}

pub(crate) proof fn lemma_others(hs: Seq<Seq<char>>)
    ensures
        others(hs).len() <= hs.len(),
        others(hs).len() == hs.len() <==> !hs.contains(HANDLER_DESKTOP@),
        others(hs).len() == hs.len() ==> others(hs) == hs,
    decreases hs.len(),
{
    if hs.len() > 0 {
        let rest = hs.drop_last();
        lemma_others(rest);
        if hs.last() == HANDLER_DESKTOP@ {
            assert(hs[hs.len() - 1] == HANDLER_DESKTOP@);
        } else {
            if hs.contains(HANDLER_DESKTOP@) {
                let i = choose|i: int| 0 <= i < hs.len() && hs[i] == HANDLER_DESKTOP@;
                assert(rest[i] == HANDLER_DESKTOP@);
            }
            if rest.contains(HANDLER_DESKTOP@) {
                let i = choose|i: int| 0 <= i < rest.len() && rest[i] == HANDLER_DESKTOP@;
                assert(hs[i] == HANDLER_DESKTOP@);
            }
            if others(rest).len() == rest.len() {
                assert(others(hs) =~= hs);
            }
        }
    }
}

/// The handlers in a value, and those other than the one of this tool.
fn split_handlers(value: &[char]) -> (r: (usize, Vec<String>))
    ensures
        r.0 == handlers(split(value@, ';')).len(),
        texts(r.1@) == others(handlers(split(value@, ';'))),
{
    let pieces: Vec<&[char]> = split_at(value, ';');
    let ghost gp = slices(pieces@);
    let mut count: usize = 0;
    let mut left: Vec<String> = Vec::new();
    let mut i: usize = 0;
    assert(texts(left@) =~= others(handlers(gp.take(0))));
    while i < pieces.len()
        invariant
            i <= pieces.len(),
            gp == slices(pieces@),
            count <= i,
            count == handlers(gp.take(i as int)).len(),
            texts(left@) == others(handlers(gp.take(i as int))),
        decreases pieces.len() - i,
    {
        let piece: &[char] = trimmed(pieces[i]);
        let ghost before = left@;
        let ghost hs = handlers(gp.take(i as int));
        proof {
            assert(gp.take(i + 1).drop_last() =~= gp.take(i as int));
            assert(gp.take(i + 1).last() == pieces@[i as int]@);
            assert(hs.push(piece@).drop_last() =~= hs);
        }
        if piece.len() > 0 {
            count += 1;
            if !is_text(piece, HANDLER_DESKTOP) {
                left.push(to_text(piece));
                assert(texts(left@) =~= texts(before).push(piece@));
            }
        }
        i += 1;
    }
    assert(gp.take(i as int) =~= gp);
    (count, left)
}

/// Append what becomes of a line, and tell whether it was stripped.
fn strip_line(out: &mut String, line: &[char]) -> (r: bool)
    ensures
        final(out)@ == old(out)@ + stripped_line(line@),
        r == is_obsolete(line@),
{
    let ghost before = out@;
    let n: usize = find_char(line, '=');
    if n < line.len() && is_text(trimmed(up_to(line, n)), OBSOLETE_MIME_TYPE) {
        let (count, left): (usize, Vec<String>) = split_handlers(from_index(line, n + 1));
        proof {
            lemma_others(obsolete_handlers(line@)->0);
            assert(texts(left@).len() == left.len());
        }
        if left.len() != count {
            if left.len() > 0 {
                out.append(OBSOLETE_MIME_TYPE);
                out.append("=");
                out.append(joined(&left, ";").as_str());
                out.append(";\n");
                assert(out@ =~= before + stripped_line(line@));
            } else {
                assert(out@ =~= before + stripped_line(line@));
            }
            return true;
        }
    }
    out.append(to_text(line).as_str());
    out.append("\n");
    assert(out@ =~= before + stripped_line(line@));
    false
}

/// Rewrite a `mimeapps.list` body without the obsolete associations, and list
/// the MIME type of each line that had one.
///
/// Works on any section, because the shape is the same everywhere:
/// `mime=a.desktop;b.desktop;`. A line that ends up with no desktop files left
/// is dropped entirely; one that does not list the handler of this tool stays
/// as it is. Every line of the result ends in a line feed alone.
pub fn strip_obsolete_lines(content: &str) -> (r: (String, Vec<String>))
    ensures
        r.0@ == stripped(lines(content@)),
        texts(r.1@) == disowned(lines(content@)),
{
    let chars: Vec<char> = to_chars(content);
    let ls: Vec<&[char]> = text_lines(chars.as_slice());
    let ghost gl = slices(ls@);
    let mut out: String = String::new();
    let mut removed: Vec<String> = Vec::new();
    let mut i: usize = 0;
    assert(out@ =~= stripped(gl.take(0)));
    assert(texts(removed@) =~= disowned(gl.take(0)));
    while i < ls.len()
        invariant
            i <= ls.len(),
            gl == slices(ls@),
            out@ == stripped(gl.take(i as int)),
            texts(removed@) == disowned(gl.take(i as int)),
        decreases ls.len() - i,
    {
        let ghost before = removed@;
        proof {
            assert(gl.take(i + 1).drop_last() =~= gl.take(i as int));
            assert(gl.take(i + 1).last() == ls@[i as int]@);
        }
        if strip_line(&mut out, ls[i]) {
            removed.push(copy(OBSOLETE_MIME_TYPE));
            assert(texts(removed@) =~= texts(before).push(OBSOLETE_MIME_TYPE@));
        }
        i += 1;
    }
    assert(gl.take(i as int) =~= gl);
    (out, removed)
}

/// A handler as it stands in a value: not empty, without white space around it,
/// without a semicolon or a line end.
pub(crate) open spec fn plain_handler(h: Seq<char>) -> bool {
    &&& h.len() > 0
    &&& trim(h) == h
    &&& !has_char(h, ';')
    &&& !has_char(h, '\n')
}

proof fn lemma_trim_keeps_out(s: Seq<char>, d: char)
    requires
        !has_char(s, d),
    ensures
        !has_char(trim(s), d),
{
    lemma_trim(s);
    lemma_trim_end(s);
    if has_char(trim(s), d) {
        let i = choose|i: int| 0 <= i < trim(s).len() && trim(s)[i] == d;
        assert(s[trim_end(s).len() - trim(s).len() + i] == d);
    }
}

proof fn lemma_handlers_plain(pieces: Seq<Seq<char>>)
    requires
        forall|i: int|
            0 <= i < pieces.len() ==> !has_char(#[trigger] pieces[i], ';') && !has_char(
                pieces[i],
                '\n',
            ),
    ensures
        forall|i: int|
            0 <= i < handlers(pieces).len() ==> plain_handler(#[trigger] handlers(pieces)[i]),
    decreases pieces.len(),
{
    if pieces.len() > 0 {
        let rest = pieces.drop_last();
        let last = pieces[pieces.len() - 1];
        assert forall|i: int| 0 <= i < rest.len() implies !has_char(#[trigger] rest[i], ';')
            && !has_char(rest[i], '\n') by {
            assert(rest[i] == pieces[i]);
        }
        lemma_handlers_plain(rest);
        lemma_trim(last);
        lemma_trim_keeps_out(last, ';');
        lemma_trim_keeps_out(last, '\n');
        assert forall|i: int| 0 <= i < handlers(pieces).len() implies plain_handler(
            #[trigger] handlers(pieces)[i],
        ) by {
            if i < handlers(rest).len() {
                assert(handlers(pieces)[i] == handlers(rest)[i]);
            }
        }
    }
}

proof fn lemma_others_plain(hs: Seq<Seq<char>>)
    requires
        forall|i: int| 0 <= i < hs.len() ==> plain_handler(#[trigger] hs[i]),
    ensures
        forall|i: int| 0 <= i < others(hs).len() ==> plain_handler(#[trigger] others(hs)[i]),
        !others(hs).contains(HANDLER_DESKTOP@),
    decreases hs.len(),
{
    if hs.len() > 0 {
        let rest = hs.drop_last();
        assert forall|i: int| 0 <= i < rest.len() implies plain_handler(#[trigger] rest[i]) by {
            assert(rest[i] == hs[i]);
        }
        lemma_others_plain(rest);
        assert(plain_handler(hs[hs.len() - 1]));
        assert forall|i: int| 0 <= i < others(hs).len() implies plain_handler(
            #[trigger] others(hs)[i],
        ) && others(hs)[i] != HANDLER_DESKTOP@ by {
            if i < others(rest).len() {
                assert(others(hs)[i] == others(rest)[i]);
            }
        }
    }
}

proof fn lemma_handlers_of_plain(hs: Seq<Seq<char>>)
    requires
        forall|i: int| 0 <= i < hs.len() ==> plain_handler(#[trigger] hs[i]),
    ensures
        handlers(hs) == hs,
    decreases hs.len(),
{
    if hs.len() > 0 {
        let rest = hs.drop_last();
        assert forall|i: int| 0 <= i < rest.len() implies plain_handler(#[trigger] rest[i]) by {
            assert(rest[i] == hs[i]);
        }
        lemma_handlers_of_plain(rest);
        assert(plain_handler(hs[hs.len() - 1]));
        assert(handlers(hs) =~= hs);
    } else {
        assert(handlers(hs) =~= hs);
    }
}

/// The line that lists these handlers for the disowned type.
pub(crate) open spec fn association(hs: Seq<Seq<char>>) -> Seq<char> {
    OBSOLETE_MIME_TYPE@ + "="@ + join(hs, ";"@) + ";"@
}

pub(crate) proof fn lemma_association(hs: Seq<Seq<char>>)
    requires
        hs.len() > 0,
        forall|i: int| 0 <= i < hs.len() ==> plain_handler(#[trigger] hs[i]),
    ensures
        obsolete_handlers(association(hs)) == Some(hs),
        !has_char(association(hs), '\n'),
        without_cr(association(hs)) == association(hs),
{
    reveal_strlit("application/octet-stream");
    reveal_strlit("=");
    reveal_strlit(";");
    let key = OBSOLETE_MIME_TYPE@;
    let list = join(hs, ";"@);
    let line = association(hs);
    assert(";"@ =~= seq![';']);
    assert forall|i: int| 0 <= i < key.len() implies key[i] != '=' && key[i] != '\n' && line[i]
        == key[i] by {}
    lemma_char_pos_is(line, '=', key.len() as int);
    assert(line.take(key.len() as int) =~= key);
    assert(line.skip(key.len() + 1int) =~= list + seq![';']);
    lemma_trim_id(key);
    assert forall|i: int| 0 <= i < hs.len() implies !has_char(#[trigger] hs[i], ';') by {
        assert(plain_handler(hs[i]));
    }
    lemma_split_join(hs, ';');
    lemma_handlers_of_plain(hs);
    let pieces = hs.push(seq![]);
    assert(pieces.drop_last() =~= hs);
    lemma_trim_id(pieces.last());
    assert(handlers(pieces) == hs);
    assert forall|i: int| 0 <= i < hs.len() implies !has_char(#[trigger] hs[i], '\n') by {
        assert(plain_handler(hs[i]));
    }
    lemma_join_keeps_out(hs, ";"@, '\n');
    if has_char(line, '\n') {
        let i = choose|i: int| 0 <= i < line.len() && line[i] == '\n';
        let n = key.len() as int;
        if i > n && i < line.len() - 1 {
            assert(list[i - n - 1] == '\n');
        }
    }
    assert(line.last() == ';');
}

proof fn lemma_handlers_last(pieces: Seq<Seq<char>>, last: Seq<char>)
    requires
        pieces.len() > 0,
        trim(last) == trim(pieces.last()),
    ensures
        handlers(pieces.drop_last().push(last)) == handlers(pieces),
{
    assert(pieces.drop_last().push(last).drop_last() =~= pieces.drop_last());
}

proof fn lemma_obsolete_without_cr(line: Seq<char>)
    ensures
        obsolete_handlers(without_cr(line)) == obsolete_handlers(line),
{
    if line.len() > 0 && line.last() == '\r' {
        let x = line.drop_last();
        assert(line =~= x.push('\r'));
        lemma_char_pos(x, '=');
        let k = char_pos(x, '=') as int;
        if k < x.len() {
            lemma_char_pos_is(line, '=', k);
            assert(line.take(k) =~= x.take(k));
            let v = x.skip(k + 1);
            assert(line.skip(k + 1) =~= v.push('\r'));
            lemma_split_push(v, ';', '\r');
            let last = split(v, ';').last();
            assert(last.push('\r').drop_last() =~= last);
            assert(trim(last.push('\r')) == trim(last));
            lemma_handlers_last(split(v, ';'), last.push('\r'));
        } else {
            assert forall|i: int| 0 <= i < line.len() implies line[i] != '=' by {
                if i < x.len() {
                    assert(line[i] == x[i]);
                }
            }
            lemma_char_pos_is(line, '=', line.len() as int);
        }
    }
}

/// The line that a stripped line is read back as, if it was not dropped.
spec fn kept_line(line: Seq<char>) -> Seq<char> {
    if is_obsolete(line) {
        association(others(obsolete_handlers(line)->0))
    } else {
        without_cr(line)
    }
}

spec fn is_dropped(line: Seq<char>) -> bool {
    is_obsolete(line) && others(obsolete_handlers(line)->0).len() == 0
}

/// What stripping leaves of a line lists, for the disowned type, the same
/// handlers but the one of this tool.
proof fn lemma_stripped_line(line: Seq<char>)
    requires
        !has_char(line, '\n'),
    ensures
        ended(stripped_line(line)),
        lines(stripped_line(line)) == (if is_dropped(line) {
            Seq::<Seq<char>>::empty()
        } else {
            seq![kept_line(line)]
        }),
        !is_dropped(line) ==> !is_obsolete(kept_line(line)),
        !is_dropped(line) && obsolete_handlers(line) is Some ==> obsolete_handlers(kept_line(line))
            == Some(others(obsolete_handlers(line)->0)),
        !is_dropped(line) && without_cr(line) == line ==> stripped_line(kept_line(line))
            == stripped_line(line),
{
    reveal_strlit("\n");
    reveal_strlit(";\n");
    reveal_strlit(";");
    if is_obsolete(line) {
        let (_, value) = split_once(line, '=')->0;
        let hs = obsolete_handlers(line)->0;
        let left = others(hs);
        lemma_char_pos(line, '=');
        assert forall|d: char| d == '\n' && has_char(value, d) implies false by {
            let i = choose|i: int| 0 <= i < value.len() && value[i] == d;
            assert(line[i + char_pos(line, '=') + 1] == d);
        }
        lemma_split_no_char(value, ';');
        lemma_split_keeps_out(value, ';', '\n');
        lemma_handlers_plain(split(value, ';'));
        lemma_others_plain(hs);
        if left.len() > 0 {
            lemma_association(left);
            let x = association(left);
            assert(stripped_line(line) =~= x.push('\n'));
            lemma_one_line(x);
            assert(stripped_line(x) =~= x + "\n"@);
            assert(stripped_line(x) =~= stripped_line(line));
        }
    } else {
        assert(stripped_line(line) =~= line.push('\n'));
        lemma_one_line(line);
        lemma_obsolete_without_cr(line);
        if obsolete_handlers(line) is Some {
            lemma_others(obsolete_handlers(line)->0);
        }
    }
}

proof fn lemma_strip_is_complete(ls: Seq<Seq<char>>)
    requires
        forall|i: int| 0 <= i < ls.len() ==> !has_char(#[trigger] ls[i], '\n'),
    ensures
        disowned(lines(stripped(ls))) == Seq::<Seq<char>>::empty(),
        ended(stripped(ls)),
    decreases ls.len(),
{
    if ls.len() > 0 {
        let rest = ls.drop_last();
        let last = ls[ls.len() - 1];
        assert forall|i: int| 0 <= i < rest.len() implies !has_char(#[trigger] rest[i], '\n') by {
            assert(rest[i] == ls[i]);
        }
        lemma_strip_is_complete(rest);
        lemma_stripped_line(last);
        lemma_lines_append(stripped(rest), stripped_line(last));
        let before = lines(stripped(rest));
        let all = before + lines(stripped_line(last));
        if is_dropped(last) {
            assert(all =~= before);
            assert(stripped(ls) =~= stripped(rest));
        } else {
            assert(all.last() == kept_line(last));
            assert(all.drop_last() =~= before);
        }
    }
}

proof fn lemma_strip_twice(ls: Seq<Seq<char>>)
    requires
        forall|i: int| 0 <= i < ls.len() ==> !has_char(#[trigger] ls[i], '\n'),
        forall|i: int| 0 <= i < ls.len() ==> without_cr(#[trigger] ls[i]) == ls[i],
    ensures
        stripped(lines(stripped(ls))) == stripped(ls),
    decreases ls.len(),
{
    if ls.len() > 0 {
        let rest = ls.drop_last();
        let last = ls[ls.len() - 1];
        assert forall|i: int| 0 <= i < rest.len() implies !has_char(#[trigger] rest[i], '\n')
            && without_cr(rest[i]) == rest[i] by {
            assert(rest[i] == ls[i]);
            assert(without_cr(ls[i]) == ls[i]);
        }
        lemma_strip_twice(rest);
        lemma_strip_is_complete(rest);
        assert(without_cr(last) == last);
        lemma_stripped_line(last);
        lemma_lines_append(stripped(rest), stripped_line(last));
        let before = lines(stripped(rest));
        let all = before + lines(stripped_line(last));
        if is_dropped(last) {
            assert(all =~= before);
            assert(stripped(ls) =~= stripped(rest));
        } else {
            assert(all.last() == kept_line(last));
            assert(all.drop_last() =~= before);
        }
    }
}

/// Stripping once leaves nothing to strip: no line of the result associates the
/// disowned type with the handler of this tool, and a second run reports
/// nothing.
pub proof fn law_strip_is_complete(content: Seq<char>)
    ensures
        disowned(lines(stripped(lines(content)))) == Seq::<Seq<char>>::empty(),
{
    lemma_lines_no_feed(content);
    lemma_strip_is_complete(lines(content));
}

/// Stripping twice is stripping once, where no line ends in a carriage return
/// of its own.
pub proof fn law_strip_twice(content: Seq<char>)
    requires
        forall|i: int|
            0 <= i < lines(content).len() ==> without_cr(#[trigger] lines(content)[i]) == lines(
                content,
            )[i],
    ensures
        stripped(lines(stripped(lines(content)))) == stripped(lines(content)),
{
    lemma_lines_no_feed(content);
    lemma_strip_twice(lines(content));
}

/// Stripping touches nothing but the associations of the disowned type with the
/// handler of this tool: every other line stays as it is, and the other
/// handlers of a stripped line stay, in their order.
pub proof fn law_strip_spares_the_rest(line: Seq<char>)
    requires
        !has_char(line, '\n'),
    ensures
        !is_obsolete(line) ==> stripped_line(line) == line + "\n"@,
        obsolete_handlers(line) is None ==> !is_obsolete(line),
        is_obsolete(line) && others(obsolete_handlers(line)->0).len() > 0 ==> {
            &&& lines(stripped_line(line)).len() == 1
            &&& obsolete_handlers(lines(stripped_line(line))[0]) == Some(
                others(obsolete_handlers(line)->0),
            )
        },
        is_obsolete(line) && others(obsolete_handlers(line)->0).len() == 0 ==> stripped_line(line)
            == Seq::<char>::empty(),
{
    lemma_stripped_line(line);
}

/// What a `mimeapps.list` with this content is rewritten to, and the MIME types
/// that are stripped from it; `None` where there is nothing to strip.
pub fn purge_file(content: &str) -> (r: Option<(String, Vec<String>)>)
    ensures
        match r {
            Some(p) => {
                &&& disowned(lines(content@)).len() > 0
                &&& p.0@ == stripped(lines(content@))
                &&& texts(p.1@) == disowned(lines(content@))
            },
            None => disowned(lines(content@)).len() == 0,
        },
{
    let (new_content, removed): (String, Vec<String>) = strip_obsolete_lines(content);
    assert(texts(removed@).len() == removed.len());
    if removed.len() == 0 {
        None
    } else {
        Some((new_content, removed))
    }
}

/// The list with those of the new texts that it does not hold yet.
pub open spec fn merged(list: Seq<Seq<char>>, new: Seq<Seq<char>>) -> Seq<Seq<char>>
    decreases new.len(),
{
    if new.len() == 0 {
        list
    } else {
        let before = merged(list, new.drop_last());
        if before.contains(new.last()) {
            before
        } else {
            before.push(new.last())
        }
    }
}

/// All the lists in one, each text once, where it comes first.
pub open spec fn merged_all(lists: Seq<Vec<String>>) -> Seq<Seq<char>>
    decreases lists.len(),
{
    if lists.len() == 0 {
        seq![]
    } else {
        merged(merged_all(lists.drop_last()), texts(lists.last()@))
    }
}

/// The MIME types that were stripped, each once, by what was stripped from each
/// `mimeapps.list` that could be rewritten.
pub fn purge_obsolete_associations(removed: &Vec<Vec<String>>) -> (r: Vec<String>)
    ensures
        texts(r@) == merged_all(removed@),
{
    let mut purged: Vec<String> = Vec::new();
    let mut i: usize = 0;
    let ghost all = removed@;
    assert(texts(purged@) =~= merged_all(all.take(0)));
    while i < removed.len()
        invariant
            i <= removed.len(),
            all == removed@,
            texts(purged@) == merged_all(all.take(i as int)),
        decreases removed.len() - i,
    {
        let list: &Vec<String> = &removed[i];
        let ghost start = texts(purged@);
        let ghost new = texts(list@);
        let mut j: usize = 0;
        assert(new.take(0) =~= seq![]);
        while j < list.len()
            invariant
                j <= list.len(),
                new == texts(list@),
                texts(purged@) == merged(start, new.take(j as int)),
            decreases list.len() - j,
        {
            let ghost before = purged@;
            proof {
                assert(new.take(j + 1).drop_last() =~= new.take(j as int));
                assert(new.take(j + 1).last() == list@[j as int]@);
            }
            if !lists_text(&purged, list[j].as_str()) {
                purged.push(copy(list[j].as_str()));
                assert(texts(purged@) =~= texts(before).push(list@[j as int]@));
            }
            j += 1;
        }
        proof {
            assert(new.take(j as int) =~= new);
            assert(all.take(i + 1).drop_last() =~= all.take(i as int));
            assert(all.take(i + 1).last() == all[i as int]);
        }
        i += 1;
    }
    assert(all.take(i as int) =~= all);
    purged
}

/// Merged lists name nothing twice, and everything that any of them names.
pub proof fn law_merged_lists(list: Seq<Seq<char>>, new: Seq<Seq<char>>)
    requires
        list.no_duplicates(),
    ensures
        merged(list, new).no_duplicates(),
        forall|s: Seq<char>|
            #[trigger] merged(list, new).contains(s) <==> list.contains(s) || new.contains(s),
    decreases new.len(),
{
    if new.len() > 0 {
        let rest = new.drop_last();
        let before = merged(list, rest);
        law_merged_lists(list, rest);
        assert(new =~= rest.push(new.last()));
        assert forall|s: Seq<char>| new.contains(s) <==> rest.contains(s) || s == new.last() by {
            if new.contains(s) {
                let i = choose|i: int| 0 <= i < new.len() && new[i] == s;
                if i < rest.len() {
                    assert(rest[i] == s);
                }
            }
            if rest.contains(s) {
                let i = choose|i: int| 0 <= i < rest.len() && rest[i] == s;
                assert(new[i] == s);
            }
            assert(new[new.len() - 1] == new.last());
        }
        if !before.contains(new.last()) {
            let after = before.push(new.last());
            assert forall|s: Seq<char>| after.contains(s) <==> before.contains(s) || s
                == new.last() by {
                if before.contains(s) {
                    let i = choose|i: int| 0 <= i < before.len() && before[i] == s;
                    assert(after[i] == s);
                }
                assert(after[after.len() - 1] == new.last());
                if after.contains(s) {
                    let i = choose|i: int| 0 <= i < after.len() && after[i] == s;
                    if i < before.len() {
                        assert(before[i] == s);
                    }
                }
            }
        }
    }
}

/// What to tell the user of a `mimeapps.list` that could not be rewritten.
pub fn rewrite_warning(path: &str, error: &IoFailure) -> (r: Message)
    ensures
        r@ == with_args("warn_rewrite_mimeapps"@, "path"@, path@, "err"@, error.message@),
{
    Message::with_args("warn_rewrite_mimeapps", "path", path, "err", error.message.as_str())
}

// ---------------------------------------------------------------------------
// The handler
// ---------------------------------------------------------------------------
/// The pairs of the handler's desktop entry, for this tool at `bin`.
///
/// The translations of its comment are part of it: the file manager picks one
/// by the user's locale, and the entry outlives the process that writes it. The
/// name is a brand, the same in every locale.
pub open spec fn handler_keys(bin: Seq<char>) -> Seq<Pair> {
    seq![
        ("Type"@, "Application"@),
        ("Name"@, "AppImage Manager"@),
        ("Comment"@, "Install AppImages with a confirmation prompt"@),
        ("Comment[it]"@, "Installa le AppImage con una richiesta di conferma"@),
        ("Comment[es]"@, "Instala AppImages con una solicitud de confirmación"@),
        ("Exec"@, bin + " handle %f"@),
        ("Icon"@, "application-x-executable"@),
        ("NoDisplay"@, "true"@),
        ("Terminal"@, "false"@),
        ("MimeType"@, "application/vnd.appimage;application/x-appimage;"@),
        ("Categories"@, "System;Utility;"@),
    ]
}

/// The handler's desktop entry, for this tool at `bin`.
pub open spec fn handler_entry(bin: Seq<char>) -> DesktopView {
    DesktopView { keys: handler_keys(bin), groups: seq![] }
}

/// The handler `.desktop` file, pointing at `binary handle %f`.
pub fn write_handler_desktop(dirs: &Dirs, binary: &str) -> (r: FileWrite)
    ensures
        r.path@ == join_path(dirs.applications@, HANDLER_DESKTOP@),
        r.content@ == written(handler_entry(binary@)),
{
    let mut exec: String = copy(binary);
    exec.append(" handle %f");
    let mut keys: Vec<(String, String)> = Vec::new();
    keys.push((copy("Type"), copy("Application")));
    keys.push((copy("Name"), copy("AppImage Manager")));
    keys.push((copy("Comment"), copy("Install AppImages with a confirmation prompt")));
    keys.push((copy("Comment[it]"), copy("Installa le AppImage con una richiesta di conferma")));
    keys.push((copy("Comment[es]"), copy("Instala AppImages con una solicitud de confirmación")));
    keys.push((copy("Exec"), exec));
    keys.push((copy("Icon"), copy("application-x-executable")));
    keys.push((copy("NoDisplay"), copy("true")));
    keys.push((copy("Terminal"), copy("false")));
    keys.push(
        (copy("MimeType"), copy("application/vnd.appimage;application/x-appimage;")),
    );
    keys.push((copy("Categories"), copy("System;Utility;")));
    let entry: DesktopEntry = DesktopEntry { keys, groups: Vec::new() };
    assert(entry@ =~= handler_entry(binary@));
    FileWrite {
        path: joined_path(dirs.applications.as_str(), HANDLER_DESKTOP),
        content: entry.to_string(),
    }
}

/// The arguments with which `xdg-mime` makes `handler` the default for `mime`.
pub fn register_default_args(mime: &str, handler: &str) -> (r: Vec<String>)
    ensures
        texts(r@) == seq!["default"@, handler@, mime@],
{
    let mut args: Vec<String> = Vec::new();
    args.push(copy("default"));
    args.push(copy(handler));
    args.push(copy(mime));
    assert(texts(args@) =~= seq!["default"@, handler@, mime@]);
    args
}

/// How a tool exited.
#[derive(Debug)]
pub struct ToolStatus {
    pub success: bool,
    /// The status in the system's own words.
    pub text: String,
}

/// Why a MIME type could not be registered, if it could not.
pub open spec fn register_failure(outcome: Result<ToolStatus, IoFailure>) -> Option<Seq<char>> {
    match outcome {
        Err(e) => Some(e.message@),
        Ok(status) => if status.success {
            None
        } else {
            Some("xdg-mime exited "@ + status.text@)
        },
    }
}

/// The error text in a result.
pub open spec fn error_text(r: Result<(), String>) -> Option<Seq<char>> {
    match r {
        Ok(_) => None,
        Err(s) => Some(s@),
    }
}

/// What a run of `xdg-mime` made with [`register_default_args`] comes to.
pub fn register_default(outcome: Result<ToolStatus, IoFailure>) -> (r: Result<(), String>)
    ensures
        error_text(r) == register_failure(outcome),
{
    match outcome {
        Err(e) => Err(e.message),
        Ok(status) => {
            if status.success {
                Ok(())
            } else {
                let mut out: String = copy("xdg-mime exited ");
                out.append(status.text.as_str());
                Err(out)
            }
        },
    }
}

// ---------------------------------------------------------------------------
// Setup
// ---------------------------------------------------------------------------
/// Outcome of a setup run.
#[derive(Debug)]
pub struct SetupReport {
    pub handler_desktop: String,
    pub binary: String,
    /// MIME types that the handler was registered as the default for.
    pub registered: Vec<String>,
    /// MIME types that could not be registered (helper missing or failing).
    pub failed: Vec<String>,
    /// Stale over-broad associations removed from the user's `mimeapps.list`.
    pub purged: Vec<String>,
}

/// A MIME type, and what its registration came to.
#[derive(Debug)]
pub struct Registration {
    pub mime: String,
    pub outcome: Result<(), String>,
}

/// The MIME types whose registration succeeded, or those where it did not.
pub open spec fn types_where(rs: Seq<Registration>, success: bool) -> Seq<Seq<char>>
    decreases rs.len(),
{
    if rs.len() == 0 {
        seq![]
    } else if rs.last().outcome is Ok == success {
        types_where(rs.drop_last(), success).push(rs.last().mime@)
    } else {
        types_where(rs.drop_last(), success)
    }
}

/// What to tell the user of the registrations that failed.
pub open spec fn failure_messages(rs: Seq<Registration>) -> Seq<MessageView>
    decreases rs.len(),
{
    if rs.len() == 0 {
        seq![]
    } else {
        match rs.last().outcome {
            Ok(_) => failure_messages(rs.drop_last()),
            Err(reason) => failure_messages(rs.drop_last()).push(
                with_args("warn_register_mime"@, "mime"@, rs.last().mime@, "reason"@, reason@),
            ),
        }
    }
}

/// What to tell the user of the registrations that failed. The others count all
/// the same: registering one is better than none.
pub fn registration_warnings(rs: &Vec<Registration>) -> (r: Vec<Message>)
    ensures
        message_views(r@) == failure_messages(rs@),
{
    let mut out: Vec<Message> = Vec::new();
    let mut i: usize = 0;
    let ghost all = rs@;
    assert(message_views(out@) =~= failure_messages(all.take(0)));
    while i < rs.len()
        invariant
            i <= rs.len(),
            all == rs@,
            message_views(out@) == failure_messages(all.take(i as int)),
        decreases rs.len() - i,
    {
        let ghost before = out@;
        proof {
            assert(all.take(i + 1).drop_last() =~= all.take(i as int));
            assert(all.take(i + 1).last() == all[i as int]);
        }
        match &rs[i].outcome {
            Ok(_) => {},
            Err(reason) => {
                let m: Message = Message::with_args(
                    "warn_register_mime",
                    "mime",
                    rs[i].mime.as_str(),
                    "reason",
                    reason.as_str(),
                );
                out.push(m);
                assert(message_views(out@) =~= message_views(before).push(m@));
            },
        }
        i += 1;
    }
    assert(all.take(i as int) =~= all);
    out
}

/// The report of a setup run for this tool at `binary`, by what its
/// registrations came to and what was purged.
pub fn setup(dirs: &Dirs, binary: &str, rs: &Vec<Registration>, purged: Vec<String>) -> (r:
    SetupReport)
    ensures
        r.handler_desktop@ == join_path(dirs.applications@, HANDLER_DESKTOP@),
        r.binary@ == binary@,
        texts(r.registered@) == types_where(rs@, true),
        texts(r.failed@) == types_where(rs@, false),
        r.purged == purged,
{
    let mut registered: Vec<String> = Vec::new();
    let mut failed: Vec<String> = Vec::new();
    let mut i: usize = 0;
    let ghost all = rs@;
    assert(texts(registered@) =~= types_where(all.take(0), true));
    assert(texts(failed@) =~= types_where(all.take(0), false));
    while i < rs.len()
        invariant
            i <= rs.len(),
            all == rs@,
            texts(registered@) == types_where(all.take(i as int), true),
            texts(failed@) == types_where(all.take(i as int), false),
        decreases rs.len() - i,
    {
        let ghost oks = registered@;
        let ghost errs = failed@;
        proof {
            assert(all.take(i + 1).drop_last() =~= all.take(i as int));
            assert(all.take(i + 1).last() == all[i as int]);
        }
        let mime: String = copy(rs[i].mime.as_str());
        match &rs[i].outcome {
            Ok(_) => {
                registered.push(mime);
                assert(texts(registered@) =~= texts(oks).push(mime@));
            },
            Err(_) => {
                failed.push(mime);
                assert(texts(failed@) =~= texts(errs).push(mime@));
            },
        }
        i += 1;
    }
    assert(all.take(i as int) =~= all);
    SetupReport {
        handler_desktop: joined_path(dirs.applications.as_str(), HANDLER_DESKTOP),
        binary: copy(binary),
        registered,
        failed,
        purged,
    }
}

proof fn lemma_writable_literal(key: Seq<char>, value: Seq<char>)
    requires
        key.len() > 0,
        !whitespace(key[0]),
        !whitespace(key.last()),
        key[0] != '#',
        key[0] != '[',
        forall|i: int| 0 <= i < key.len() ==> key[i] != '=' && key[i] != '\n',
        value.len() > 0,
        !whitespace(value.last()),
        forall|i: int| 0 <= i < value.len() ==> value[i] != '\n',
    ensures
        writable_pair((key, value)),
{
    lemma_trim_id(value);
    lemma_writable_pair(key, value);
}

/// The handler's entry, read back, starts this tool with the file that is to be
/// handled, and names exactly the claimed types.
pub proof fn law_handler_entry(bin: Seq<char>)
    requires
        !has_char(bin, '\n'),
    ensures
        ({
            let keys = parsed(written(handler_entry(bin))).keys;
            &&& keys == handler_keys(bin)
            &&& lookup(keys, "Exec"@) == Some(bin + " handle %f"@)
            &&& lookup(keys, "MimeType"@) == Some(
                claimed_types()[0] + ";"@ + claimed_types()[1] + ";"@,
            )
            &&& lookup(keys, "Type"@) == Some("Application"@)
            &&& lookup(keys, "NoDisplay"@) == Some("true"@)
        }),
{
    reveal_strlit("Type");
    reveal_strlit("Application");
    reveal_strlit("Name");
    reveal_strlit("AppImage Manager");
    reveal_strlit("Comment");
    reveal_strlit("Install AppImages with a confirmation prompt");
    reveal_strlit("Comment[it]");
    reveal_strlit("Installa le AppImage con una richiesta di conferma");
    reveal_strlit("Comment[es]");
    reveal_strlit("Instala AppImages con una solicitud de confirmación");
    reveal_strlit("Exec");
    reveal_strlit(" handle %f");
    reveal_strlit("Icon");
    reveal_strlit("application-x-executable");
    reveal_strlit("NoDisplay");
    reveal_strlit("true");
    reveal_strlit("Terminal");
    reveal_strlit("false");
    reveal_strlit("MimeType");
    reveal_strlit("application/vnd.appimage;application/x-appimage;");
    reveal_strlit("Categories");
    reveal_strlit("System;Utility;");
    reveal_strlit("application/vnd.appimage");
    reveal_strlit("application/x-appimage");
    reveal_strlit(";");
    let keys = handler_keys(bin);
    let exec = bin + " handle %f"@;
    assert forall|i: int| 0 <= i < exec.len() implies exec[i] != '\n' by {
        if i < bin.len() {
            assert(exec[i] == bin[i]);
        }
    }
    lemma_writable_literal(keys[0].0, keys[0].1);
    lemma_writable_literal(keys[1].0, keys[1].1);
    lemma_writable_literal(keys[2].0, keys[2].1);
    lemma_writable_literal(keys[3].0, keys[3].1);
    lemma_writable_literal(keys[4].0, keys[4].1);
    lemma_writable_literal(keys[5].0, keys[5].1);
    lemma_writable_literal(keys[6].0, keys[6].1);
    lemma_writable_literal(keys[7].0, keys[7].1);
    lemma_writable_literal(keys[8].0, keys[8].1);
    lemma_writable_literal(keys[9].0, keys[9].1);
    lemma_writable_literal(keys[10].0, keys[10].1);
    law_write_then_parse(handler_entry(bin));
    lemma_key_pos_is(keys, "Exec"@, 5);
    lemma_key_pos_is(keys, "MimeType"@, 9);
    lemma_key_pos_is(keys, "Type"@, 0);
    lemma_key_pos_is(keys, "NoDisplay"@, 7);
    assert(keys[9].1 =~= claimed_types()[0] + ";"@ + claimed_types()[1] + ";"@);
}

} // verus!
