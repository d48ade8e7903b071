//! What an installation consists of: the copied AppImage, its icons, the
//! rewritten menu entry and the registry, and how each is found again.
//!
//! Scope is per-user only: everything lives under `$HOME/.local`.
use vstd::prelude::*;

use crate::appimage::{appimage_error_text, AppImageError};
use crate::desktop::{self, assign, group_views, law_remove_then_get, law_set_then_get,
    lemma_assign_writable, lemma_lookup_writable, lemma_without_key_writable, lemma_writable_pair,
    lookup, pairs, parsed, readable_name, without_key, writable, writable_pair, writable_pairs,
    written, DesktopEntry, DesktopView, Group, GroupView, Pair};
use crate::failure::{IoFailure, ToolOutput};
use crate::messages::{opt_message, with_arg, Message};
use crate::metadata::{app_install_name, cleaned_name, install_name, law_install_name_is_stable,
    metadata_error_text, AppImageMetadata, MetadataError};
use crate::paths::{extension, file_name, has_extension, inside, is_inside, is_same_path, join_path,
    joined_path, law_file_name_is_one_component, law_inside_is_transitive, law_join_in_steps,
    law_joined_name_is_inside, lemma_stem, same_path};
use crate::registry::{entry_views, find, home_is_unset, home_unset, law_upsert_then_get,
    law_write_then_parse, lemma_name_pos, lemma_name_pos_is, name_pos, registry_entries,
    registry_text, removed, storable, storable_entry, upserted, Entry, EntryView, FileWrite,
    Registry};
use crate::text::{copy, decimal, digit, ends_with, find_space, from_index, has_char, is_text,
    lemma_space_pos, lemma_space_pos_is, lemma_trim_end, lemma_trim_id, lemma_trim_start, lossy,
    opt_string, same, slices, space_pos, split, split_at, starts_with, texts, to_chars, to_decimal,
    to_text, trim_end, trim_start, trimmed_start, up_to, utf8_lossy, whitespace, words};

verus! {

/// Marker in the menu entries that are written. It is informational (and tells
/// the entries of 0.1.2 and before apart); the authoritative record of what is
/// installed is [`crate::registry`].
pub const MARKER_KEY: &'static str = "X-AppImage-Manager";

/// Prefix that 0.1.2 gave to the file names of its menu entries.
///
/// It changed the *desktop file ID*, so that an application that registers
/// itself as `<name>.desktop` got a second menu entry in place of replacing the
/// first. It is kept only to migrate away from it.
pub const LEGACY_DESKTOP_PREFIX: &'static str = "appimage-manager-";

// ---------------------------------------------------------------------------
// File names
// ---------------------------------------------------------------------------
/// The file name of the menu entry of the install `name`.
pub open spec fn desktop_file(name: Seq<char>) -> Seq<char> {
    name + ".desktop"@
}

/// The file name that 0.1.2 gave to the menu entry of the install `name`.
pub open spec fn legacy_file(name: Seq<char>) -> Seq<char> {
    LEGACY_DESKTOP_PREFIX@ + name + ".desktop"@
}

/// Build the `.desktop` file name for an install `name`.
///
/// This is the *canonical* ID, the same that the application would pick for
/// itself, so a self-registering application overwrites the entry rather than
/// adding a second one.
pub fn desktop_file_name(name: &str) -> (r: String)
    ensures
        r@ == desktop_file(name@),
{
    let mut out: String = copy(name);
    out.append(".desktop");
    out
}

/// Extract the install name from a `.desktop` file name written by 0.1.2 or
/// before. `None` if the file is not one of those.
pub fn name_from_legacy_desktop_file(file: &str) -> (r: Option<String>)
    ensures
        match r {
            Some(name) => file@ == legacy_file(name@),
            None => forall|name: Seq<char>| file@ != #[trigger] legacy_file(name),
        },
{
    let chars: Vec<char> = to_chars(file);
    let suffix: Vec<char> = to_chars(".desktop");
    let prefix: Vec<char> = to_chars(LEGACY_DESKTOP_PREFIX);
    if !ends_with(chars.as_slice(), suffix.as_slice()) {
        proof {
            assert forall|name: Seq<char>| file@ != #[trigger] legacy_file(name) by {
                assert(".desktop"@.is_suffix_of(legacy_file(name)));
            }
        }
        return None;
    }
    let stem: &[char] = up_to(chars.as_slice(), chars.len() - suffix.len());
    proof {
        assert(file@ =~= stem@ + ".desktop"@);
    }
    if !starts_with(stem, prefix.as_slice()) {
        proof {
            assert forall|name: Seq<char>| file@ != #[trigger] legacy_file(name) by {
                if file@ == legacy_file(name) {
                    assert(stem@ =~= LEGACY_DESKTOP_PREFIX@ + name);
                    assert(LEGACY_DESKTOP_PREFIX@.is_prefix_of(stem@));
                }
            }
        }
        return None;
    }
    let name: String = to_text(from_index(stem, prefix.len()));
    assert(stem@ =~= LEGACY_DESKTOP_PREFIX@ + name@);
    Some(name)
}

/// A file of 0.1.2 belongs to one install, and its menu entry has another file
/// name than the canonical one.
pub proof fn law_legacy_name_is_unique(a: Seq<char>, b: Seq<char>)
    ensures
        legacy_file(a) == legacy_file(b) ==> a == b,
        desktop_file(a) == desktop_file(b) ==> a == b,
        legacy_file(a) != desktop_file(a),
{
    reveal_strlit("appimage-manager-");
    if legacy_file(a) == legacy_file(b) {
        let n = LEGACY_DESKTOP_PREFIX@.len() as int;
        let m = ".desktop"@.len() as int;
        assert(a =~= legacy_file(a).subrange(n, legacy_file(a).len() - m));
        assert(b =~= legacy_file(b).subrange(n, legacy_file(b).len() - m));
    }
    if desktop_file(a) == desktop_file(b) {
        let m = ".desktop"@.len() as int;
        assert(a =~= desktop_file(a).take(desktop_file(a).len() - m));
        assert(b =~= desktop_file(b).take(desktop_file(b).len() - m));
    }
    assert(legacy_file(a).len() != desktop_file(a).len());
}

// ---------------------------------------------------------------------------
// Exec values
// ---------------------------------------------------------------------------
/// What a quoted field holds, up to its closing quote or the end, with each
/// backslash standing for the character behind it. A backslash with nothing
/// behind it is the end of the field.
pub open spec fn unquoted(s: Seq<char>) -> Seq<char>
    decreases s.len(),
{
    if s.len() == 0 || s[0] == '"' {
        seq![]
    } else if s[0] == '\\' {
        if s.len() == 1 {
            seq![]
        } else {
            seq![s[1]] + unquoted(s.skip(2))
        }
    } else {
        seq![s[0]] + unquoted(s.skip(1))
    }
}

/// The program of an `Exec` value: its first field.
pub open spec fn program(exec: Seq<char>) -> Option<Seq<char>> {
    let s = trim_start(exec);
    if s.len() == 0 {
        None
    } else if s[0] == '"' {
        Some(unquoted(s.skip(1)))
    } else {
        Some(s.take(space_pos(s) as int))
    }
}

/// Extract the program from an `Exec=` value.
///
/// The value is a quoted-argument list: a field may be wrapped in double quotes
/// (necessary when the path contains spaces) with `\` escaping inside.
/// Applications that register themselves routinely write the quoted form. Of a
/// quote that is never closed, what was read is taken rather than nothing.
pub fn exec_program(exec: &str) -> (r: Option<String>)
    ensures
        opt_string(r) == program(exec@),
{
    let chars: Vec<char> = to_chars(exec);
    let s: &[char] = trimmed_start(chars.as_slice());
    if s.len() == 0 {
        return None;
    }
    if s[0] != '"' {
        return Some(to_text(up_to(s, find_space(s))));
    }
    let q: &[char] = from_index(s, 1);
    let mut out: String = String::new();
    let mut i: usize = 0;
    assert(q@.skip(0) =~= q@);
    assert(out@ + unquoted(q@) =~= unquoted(q@));
    while i < q.len()
        invariant
            i <= q.len(),
            unquoted(q@) == out@ + unquoted(q@.skip(i as int)),
            Some(unquoted(q@)) == program(exec@),
        decreases q.len() - i,
    {
        let ghost rest = q@.skip(i as int);
        let ghost before = out@;
        if q[i] == '"' {
            assert(out@ + Seq::<char>::empty() =~= out@);
            return Some(out);
        } else if q[i] == '\\' {
            if i + 1 >= q.len() {
                assert(out@ + Seq::<char>::empty() =~= out@);
                return Some(out);
            }
            out.push(q[i + 1]);
            proof {
                let tail = unquoted(q@.skip(i + 2));
                assert(rest.skip(2) =~= q@.skip(i + 2));
                assert(before + (seq![rest[1]] + tail) =~= out@ + tail);
            }
            i += 2;
        } else {
            out.push(q[i]);
            proof {
                let tail = unquoted(q@.skip(i + 1));
                assert(rest.skip(1) =~= q@.skip(i + 1));
                assert(before + (seq![rest[0]] + tail) =~= out@ + tail);
            }
            i += 1;
        }
    }
    assert(out@ + Seq::<char>::empty() =~= out@);
    Some(out)
}

/// `exec` with its first word replaced by `bin` and the arguments kept.
pub open spec fn rewritten_exec(exec: Seq<char>, bin: Seq<char>) -> Seq<char> {
    let s = trim_start(exec);
    let args = trim_start(s.skip(space_pos(s) as int));
    if args.len() == 0 {
        bin
    } else {
        bin + " "@ + args
    }
}

/// Turn an upstream `Exec=AppRun <args> %U` into `Exec=<abs binary> <args> %U`.
///
/// The first whitespace-separated token is the program name (`AppRun` or
/// occasionally an absolute path); just that token is replaced, and every
/// argument that follows is preserved.
pub fn rewrite_exec(exec: &str, bin_path: &str) -> (r: String)
    ensures
        r@ == rewritten_exec(exec@, bin_path@),
{
    let chars: Vec<char> = to_chars(exec);
    let s: &[char] = trimmed_start(chars.as_slice());
    let args: &[char] = trimmed_start(from_index(s, find_space(s)));
    let mut out: String = copy(bin_path);
    if args.len() > 0 {
        out.append(" ");
        out.append(to_text(args).as_str());
    }
    out
}

/// A path that stands in an `Exec` value as it is: not empty, without white
/// space, and not in quotes.
pub open spec fn plain_program(bin: Seq<char>) -> bool {
    &&& bin.len() > 0
    &&& bin[0] != '"'
    &&& forall|i: int| 0 <= i < bin.len() ==> !whitespace(#[trigger] bin[i])
}

/// A rewritten `Exec` value starts the installed binary, and is recognised as
/// doing so.
pub proof fn law_rewritten_exec_runs_the_binary(exec: Seq<char>, bin: Seq<char>)
    requires
        plain_program(bin),
    ensures
        program(rewritten_exec(exec, bin)) == Some(bin),
{
    let r = rewritten_exec(exec, bin);
    assert(!whitespace(bin[0]));
    assert(r[0] == bin[0]);
    lemma_trim_id(r);
    reveal_strlit(" ");
    assert(r.take(bin.len() as int) =~= bin);
    assert forall|i: int| 0 <= i < bin.len() implies !whitespace(r[i]) by {
        assert(r[i] == bin[i]);
    }
    lemma_space_pos_is(r, bin.len() as int);
}

proof fn lemma_words_trim_start(s: Seq<char>)
    ensures
        words(trim_start(s)) == words(s),
    decreases s.len(),
{
    if s.len() > 0 && whitespace(s[0]) {
        lemma_words_trim_start(s.drop_first());
    }
}

/// A rewritten `Exec` value has the installed binary for its first word, and the
/// arguments it had.
pub proof fn law_rewritten_exec_keeps_the_arguments(exec: Seq<char>, bin: Seq<char>)
    requires
        plain_program(bin),
        words(exec).len() > 0,
    ensures
        words(rewritten_exec(exec, bin)) == seq![bin] + words(exec).drop_first(),
{
    let r = rewritten_exec(exec, bin);
    let s = trim_start(exec);
    let k = space_pos(s) as int;
    lemma_words_trim_start(exec);
    lemma_trim_start(exec);
    lemma_space_pos(s);
    reveal_strlit(" ");
    assert(!whitespace(bin[0]));
    assert(r[0] == bin[0]);
    assert forall|i: int| 0 <= i < bin.len() implies !whitespace(r[i]) by {
        assert(r[i] == bin[i]);
    }
    lemma_space_pos_is(r, bin.len() as int);
    assert(r.take(bin.len() as int) =~= bin);
    let behind = r.skip(bin.len() as int);
    assert(words(r) =~= seq![bin] + words(behind));
    let rest = s.skip(k);
    let args = trim_start(rest);
    assert(s.len() > 0);
    assert(words(s) =~= seq![s.take(k)] + words(rest));
    assert(words(exec).drop_first() =~= words(rest));
    lemma_words_trim_start(rest);
    if args.len() == 0 {
        assert(behind =~= seq![]);
        assert(args =~= seq![]);
    } else {
        assert(behind =~= " "@ + args);
        assert(behind.drop_first() =~= args);
    }
}

/// The quoted form that applications write for themselves names the same
/// program, spaces and all.
pub proof fn law_quoted_program(bin: Seq<char>, rest: Seq<char>)
    requires
        forall|i: int| 0 <= i < bin.len() ==> #[trigger] bin[i] != '"' && bin[i] != '\\',
    ensures
        program(seq!['"'] + bin + seq!['"'] + rest) == Some(bin),
{
    let exec = seq!['"'] + bin + seq!['"'] + rest;
    lemma_trim_id(exec);
    assert(exec.skip(1) =~= bin + (seq!['"'] + rest));
    lemma_unquoted(bin, rest);
}

proof fn lemma_unquoted(bin: Seq<char>, rest: Seq<char>)
    requires
        forall|i: int| 0 <= i < bin.len() ==> #[trigger] bin[i] != '"' && bin[i] != '\\',
    ensures
        unquoted(bin + (seq!['"'] + rest)) == bin,
    decreases bin.len(),
{
    let s = bin + (seq!['"'] + rest);
    if bin.len() == 0 {
        assert(s[0] == '"');
        assert(bin =~= seq![]);
    } else {
        let tail = bin.drop_first();
        assert forall|i: int| 0 <= i < tail.len() implies #[trigger] tail[i] != '"' && tail[i]
            != '\\' by {
            assert(tail[i] == bin[i + 1]);
        }
        lemma_unquoted(tail, rest);
        assert(s[0] == bin[0]);
        assert(s.skip(1) =~= tail + (seq!['"'] + rest));
        assert(seq![bin[0]] + tail =~= bin);
    }
}

// ---------------------------------------------------------------------------
// The menu entry
// ---------------------------------------------------------------------------
/// The value of `Exec` in the menu entry.
pub open spec fn menu_exec(keys: Seq<Pair>, bin: Seq<char>) -> Seq<char> {
    match lookup(keys, "Exec"@) {
        Some(exec) => rewritten_exec(exec, bin),
        None => bin + " %U"@,
    }
}

/// The pairs, with a value for `key` if they have none.
pub open spec fn with_default(keys: Seq<Pair>, key: Seq<char>, value: Seq<char>) -> Seq<Pair> {
    if lookup(keys, key) is None {
        assign(keys, key, value)
    } else {
        keys
    }
}

/// The pairs, with a new value for `key` if they have one.
pub open spec fn repointed(keys: Seq<Pair>, key: Seq<char>, value: Seq<char>) -> Seq<Pair> {
    if lookup(keys, key) is Some {
        assign(keys, key, value)
    } else {
        keys
    }
}

/// The pairs of the menu entry of an AppImage whose own entry has `keys`.
pub open spec fn menu_keys(
    keys: Seq<Pair>,
    bin: Seq<char>,
    icon: Seq<char>,
    source: Seq<char>,
    display: Seq<char>,
) -> Seq<Pair> {
    let started = assign(assign(keys, "Exec"@, menu_exec(keys, bin)), "Icon"@, icon);
    let typed = with_default(with_default(started, "Name"@, display), "Type"@, "Application"@);
    let shown = without_key(typed, "Hidden"@);
    let marked = assign(assign(shown, MARKER_KEY@, "true"@), "X-AppImage-Source"@, source);
    repointed(marked, "TryExec"@, bin)
}

/// The pair of an action group, with `Exec` starting the installed binary.
pub open spec fn action_pair(p: Pair, bin: Seq<char>) -> Pair {
    if p.0 == "Exec"@ {
        (p.0, rewritten_exec(p.1, bin))
    } else {
        p
    }
}

/// The pairs of an action group, with `Exec` starting the installed binary.
pub open spec fn action_keys(keys: Seq<Pair>, bin: Seq<char>) -> Seq<Pair> {
    keys.map_values(|p: Pair| action_pair(p, bin))
}

/// The action groups, with `Exec` starting the installed binary.
pub open spec fn action_groups(groups: Seq<GroupView>, bin: Seq<char>) -> Seq<GroupView> {
    groups.map_values(
        |g: GroupView| GroupView { name: g.name, keys: action_keys(g.keys, bin) },
    )
}

/// The menu entry of an AppImage whose own entry is `src`.
pub open spec fn menu_entry(
    src: DesktopView,
    bin: Seq<char>,
    icon: Seq<char>,
    source: Seq<char>,
    display: Seq<char>,
) -> DesktopView {
    DesktopView {
        keys: menu_keys(src.keys, bin, icon, source, display),
        groups: action_groups(src.groups, bin),
    }
}

fn rewrite_action_keys(keys: &Vec<(String, String)>, bin_path: &str) -> (r: Vec<(String, String)>)
    ensures
        pairs(r@) == action_keys(pairs(keys@), bin_path@),
{
    let mut out: Vec<(String, String)> = Vec::new();
    let mut i: usize = 0;
    while i < keys.len()
        invariant
            i <= keys.len(),
            out.len() == i,
            forall|j: int|
                0 <= j < i ==> (#[trigger] out[j].0@, out[j].1@) == action_pair(
                    (keys[j].0@, keys[j].1@),
                    bin_path@,
                ),
        decreases keys.len() - i,
    {
        if same(keys[i].0.as_str(), "Exec") {
            out.push((copy(keys[i].0.as_str()), rewrite_exec(keys[i].1.as_str(), bin_path)));
        } else {
            out.push((copy(keys[i].0.as_str()), copy(keys[i].1.as_str())));
        }
        i += 1;
    }
    assert(pairs(out@) =~= action_keys(pairs(keys@), bin_path@)) by {
        assert forall|j: int| 0 <= j < out.len() implies pairs(out@)[j] == action_keys(
            pairs(keys@),
            bin_path@,
        )[j] by {
            assert((out[j].0@, out[j].1@) == action_pair((keys[j].0@, keys[j].1@), bin_path@));
        }
    }
    out
}

fn rewrite_groups(groups: &Vec<Group>, bin_path: &str) -> (r: Vec<Group>)
    ensures
        group_views(r@) == action_groups(group_views(groups@), bin_path@),
{
    let mut out: Vec<Group> = Vec::new();
    let mut i: usize = 0;
    while i < groups.len()
        invariant
            i <= groups.len(),
            out.len() == i,
            forall|j: int|
                0 <= j < i ==> (#[trigger] out[j])@ == (GroupView {
                    name: groups[j]@.name,
                    keys: action_keys(groups[j]@.keys, bin_path@),
                }),
        decreases groups.len() - i,
    {
        let group: Group = Group {
            name: copy(groups[i].name.as_str()),
            keys: rewrite_action_keys(&groups[i].keys, bin_path),
        };
        out.push(group);
        i += 1;
    }
    assert(group_views(out@) =~= action_groups(group_views(groups@), bin_path@));
    out
}

/// Build the rewritten desktop entry for the installed AppImage: `Exec`, also
/// of the action groups, starts the installed binary; the icon name is the one
/// that the icons are installed under; `Name` and `Type` are there; `Hidden`
/// ("this entry has been deleted") is not; markers tell the entry apart; and
/// `TryExec`, which would hide the entry, names the installed binary.
pub fn rewrite_desktop(
    src: &DesktopEntry,
    bin_path: &str,
    icon_name: &str,
    source_path: &str,
    display_name: &str,
) -> (r: DesktopEntry)
    ensures
        r@ == menu_entry(src@, bin_path@, icon_name@, source_path@, display_name@),
{
    let mut d: DesktopEntry = src.clone();
    let exec: String = match d.get("Exec") {
        Some(exec) => rewrite_exec(exec, bin_path),
        None => {
            let mut out: String = copy(bin_path);
            out.append(" %U");
            out
        },
    };
    d.set("Exec", exec.as_str());
    d.groups = rewrite_groups(&d.groups, bin_path);
    d.set("Icon", icon_name);
    if d.get("Name").is_none() {
        d.set("Name", display_name);
    }
    if d.get("Type").is_none() {
        d.set("Type", "Application");
    }
    d.remove("Hidden");
    d.set(MARKER_KEY, "true");
    d.set("X-AppImage-Source", source_path);
    if d.get("TryExec").is_some() {
        d.set("TryExec", bin_path);
    }
    d
}

proof fn lemma_menu_literals()
    ensures
        "Exec"@ != "Icon"@,
        "Exec"@ != "Name"@,
        "Exec"@ != "Type"@,
        "Exec"@ != "Hidden"@,
        "Exec"@ != MARKER_KEY@,
        "Exec"@ != "X-AppImage-Source"@,
        "Exec"@ != "TryExec"@,
        "Icon"@ != "Name"@,
        "Icon"@ != "Type"@,
        "Icon"@ != "Hidden"@,
        "Icon"@ != MARKER_KEY@,
        "Icon"@ != "X-AppImage-Source"@,
        "Icon"@ != "TryExec"@,
        "Name"@ != "Type"@,
        "Name"@ != "Hidden"@,
        "Name"@ != MARKER_KEY@,
        "Name"@ != "X-AppImage-Source"@,
        "Name"@ != "TryExec"@,
        "Type"@ != "Hidden"@,
        "Type"@ != MARKER_KEY@,
        "Type"@ != "X-AppImage-Source"@,
        "Type"@ != "TryExec"@,
        "Hidden"@ != MARKER_KEY@,
        "Hidden"@ != "X-AppImage-Source"@,
        "Hidden"@ != "TryExec"@,
        MARKER_KEY@ != "X-AppImage-Source"@,
        MARKER_KEY@ != "TryExec"@,
        "X-AppImage-Source"@ != "TryExec"@,
{
    reveal_strlit("Exec");
    reveal_strlit("Icon");
    reveal_strlit("Name");
    reveal_strlit("Type");
    reveal_strlit("Hidden");
    reveal_strlit("X-AppImage-Manager");
    reveal_strlit("X-AppImage-Source");
    reveal_strlit("TryExec");
    assert("Exec"@[0] == 'E' && "Icon"@[0] == 'I' && "Name"@[0] == 'N' && "Type"@[0] == 'T'
        && "Hidden"@[0] == 'H' && MARKER_KEY@[0] == 'X' && "X-AppImage-Source"@[0] == 'X'
        && "TryExec"@[0] == 'T');
    assert("Type"@.len() == 4 && "TryExec"@.len() == 7);
    assert(MARKER_KEY@.len() == 18 && "X-AppImage-Source"@.len() == 17);
}

/// What a menu entry says, key by key: it starts the installed binary, shows
/// under its own name and icon, is valid and not deleted, carries the markers,
/// and keeps everything else that the AppImage's own entry said.
pub proof fn law_menu_entry(
    keys: Seq<Pair>,
    bin: Seq<char>,
    icon: Seq<char>,
    source: Seq<char>,
    display: Seq<char>,
)
    ensures
        ({
            let m = menu_keys(keys, bin, icon, source, display);
            &&& lookup(m, "Exec"@) == Some(menu_exec(keys, bin))
            &&& lookup(m, "Icon"@) == Some(icon)
            &&& lookup(m, "Name"@) == (if lookup(keys, "Name"@) is None {
                Some(display)
            } else {
                lookup(keys, "Name"@)
            })
            &&& lookup(m, "Type"@) == (if lookup(keys, "Type"@) is None {
                Some("Application"@)
            } else {
                lookup(keys, "Type"@)
            })
            &&& lookup(m, "Hidden"@) is None
            &&& lookup(m, MARKER_KEY@) == Some("true"@)
            &&& lookup(m, "X-AppImage-Source"@) == Some(source)
            &&& lookup(m, "TryExec"@) == (if lookup(keys, "TryExec"@) is None {
                None
            } else {
                Some(bin)
            })
            &&& forall|k: Seq<char>|
                k != "Exec"@ && k != "Icon"@ && k != "Name"@ && k != "Type"@ && k != "Hidden"@ && k
                    != MARKER_KEY@ && k != "X-AppImage-Source"@ && k != "TryExec"@
                    ==> #[trigger] lookup(m, k) == lookup(keys, k)
        }),
{
    lemma_menu_literals();
    let a = assign(keys, "Exec"@, menu_exec(keys, bin));
    law_set_then_get(keys, "Exec"@, menu_exec(keys, bin));
    let b = assign(a, "Icon"@, icon);
    law_set_then_get(a, "Icon"@, icon);
    let c = with_default(b, "Name"@, display);
    law_set_then_get(b, "Name"@, display);
    let d = with_default(c, "Type"@, "Application"@);
    law_set_then_get(c, "Type"@, "Application"@);
    let e = without_key(d, "Hidden"@);
    law_remove_then_get(d, "Hidden"@);
    let f = assign(e, MARKER_KEY@, "true"@);
    law_set_then_get(e, MARKER_KEY@, "true"@);
    let g = assign(f, "X-AppImage-Source"@, source);
    law_set_then_get(f, "X-AppImage-Source"@, source);
    let h = repointed(g, "TryExec"@, bin);
    law_set_then_get(g, "TryExec"@, bin);
}

/// The menu entry of an installed AppImage is recognised as starting the
/// installed binary, whatever its own entry said.
pub proof fn law_menu_entry_runs_the_binary(keys: Seq<Pair>, bin: Seq<char>)
    requires
        plain_program(bin),
    ensures
        program(menu_exec(keys, bin)) == Some(bin),
{
    match lookup(keys, "Exec"@) {
        Some(exec) => {
            law_rewritten_exec_runs_the_binary(exec, bin);
        },
        None => {
            reveal_strlit(" %U");
            let r = bin + " %U"@;
            assert(!whitespace(bin[0]));
            lemma_trim_id(r);
            assert forall|i: int| 0 <= i < bin.len() implies !whitespace(r[i]) by {
                assert(r[i] == bin[i]);
            }
            lemma_space_pos_is(r, bin.len() as int);
            assert(r.take(bin.len() as int) =~= bin);
        },
    }
}

// ---------------------------------------------------------------------------
// Errors, directories, installed applications
// ---------------------------------------------------------------------------
/// Why an installation, or a removal, failed.
#[derive(Debug)]
pub enum InstallError {
    AppImage(AppImageError),
    Metadata(MetadataError),
    Io(IoFailure),
    /// A required helper binary was missing.
    HelperMissing(String),
    /// A helper ran but failed.
    HelperFailed(String, String),
}

/// The words that describe an [`InstallError`].
pub open spec fn install_error_text(e: InstallError) -> Seq<char> {
    match e {
        InstallError::AppImage(e) => appimage_error_text(e),
        InstallError::Metadata(e) => metadata_error_text(e@),
        InstallError::Io(e) => "I/O error: "@ + e.message@,
        InstallError::HelperMissing(name) => "helper not found: "@ + name@,
        InstallError::HelperFailed(name, message) => "helper "@ + name@ + " failed: "@ + message@,
    }
}

impl InstallError {
    /// The error in words.
    pub fn to_string(&self) -> (r: String)
        ensures
            r@ == install_error_text(*self),
    {
        match self {
            InstallError::AppImage(e) => e.to_string(),
            InstallError::Metadata(e) => e.to_string(),
            InstallError::Io(e) => {
                let mut out: String = copy("I/O error: ");
                out.append(e.message.as_str());
                out
            },
            InstallError::HelperMissing(name) => {
                let mut out: String = copy("helper not found: ");
                out.append(name.as_str());
                out
            },
            InstallError::HelperFailed(name, message) => {
                let mut out: String = copy("helper ");
                out.append(name.as_str());
                out.append(" failed: ");
                out.append(message.as_str());
                out
            },
        }
    }
}

impl From<AppImageError> for InstallError {
    fn from(e: AppImageError) -> (r: Self) {
        InstallError::AppImage(e)
    }
}

impl vstd::std_specs::convert::FromSpecImpl<AppImageError> for InstallError {
    open spec fn obeys_from_spec() -> bool {
        true
    }

    open spec fn from_spec(e: AppImageError) -> Self {
        InstallError::AppImage(e)
    }
}

impl From<MetadataError> for InstallError {
    fn from(e: MetadataError) -> (r: Self) {
        InstallError::Metadata(e)
    }
}

impl vstd::std_specs::convert::FromSpecImpl<MetadataError> for InstallError {
    open spec fn obeys_from_spec() -> bool {
        true
    }

    open spec fn from_spec(e: MetadataError) -> Self {
        InstallError::Metadata(e)
    }
}

impl From<IoFailure> for InstallError {
    fn from(e: IoFailure) -> (r: Self) {
        InstallError::Io(e)
    }
}

impl vstd::std_specs::convert::FromSpecImpl<IoFailure> for InstallError {
    open spec fn obeys_from_spec() -> bool {
        true
    }

    open spec fn from_spec(e: IoFailure) -> Self {
        InstallError::Io(e)
    }
}

/// An application that is installed.
#[derive(Debug)]
pub struct InstalledApp {
    /// Canonical name (e.g. `zcode`).
    pub name: String,
    /// Human-readable name from the desktop entry.
    pub display_name: String,
    /// Path where the AppImage executable was copied.
    pub binary: String,
    /// Path of the menu entry.
    pub desktop: String,
    /// There when KDE may not see the menu entry because `~/.local/share` is
    /// missing from `XDG_DATA_DIRS`: a hint for the user.
    pub xdg_warning: Option<String>,
}

/// What an [`InstalledApp`] says.
#[verifier::ext_equal]
pub struct InstalledView {
    pub name: Seq<char>,
    pub display_name: Seq<char>,
    pub binary: Seq<char>,
    pub desktop: Seq<char>,
    pub xdg_warning: Option<Seq<char>>,
}

impl View for InstalledApp {
    type V = InstalledView;

    open spec fn view(&self) -> InstalledView {
        InstalledView {
            name: self.name@,
            display_name: self.display_name@,
            binary: self.binary@,
            desktop: self.desktop@,
            xdg_warning: opt_string(self.xdg_warning),
        }
    }
}

impl Clone for InstalledApp {
    fn clone(&self) -> (r: Self)
        ensures
            r@ == self@,
    {
        InstalledApp {
            name: copy(self.name.as_str()),
            display_name: copy(self.display_name.as_str()),
            binary: copy(self.binary.as_str()),
            desktop: copy(self.desktop.as_str()),
            xdg_warning: match &self.xdg_warning {
                Some(hint) => Some(copy(hint.as_str())),
                None => None,
            },
        }
    }
}

/// What a vector of installed applications says.
pub open spec fn installed_views(v: Seq<InstalledApp>) -> Seq<InstalledView> {
    Seq::new(v.len(), |i: int| v[i]@)
}

/// Where per-user integration files live.
#[derive(Debug)]
pub struct Dirs {
    pub bin: String,
    pub applications: String,
}

/// What a [`Dirs`] says.
#[verifier::ext_equal]
pub struct DirsView {
    pub bin: Seq<char>,
    pub applications: Seq<char>,
}

impl View for Dirs {
    type V = DirsView;

    open spec fn view(&self) -> DirsView {
        DirsView { bin: self.bin@, applications: self.applications@ }
    }
}

/// The directories under this home.
pub open spec fn dirs_of(home: Seq<char>) -> DirsView {
    let local = join_path(home, ".local"@);
    DirsView {
        bin: join_path(local, "bin"@),
        applications: join_path(join_path(local, "share"@), "applications"@),
    }
}

impl Dirs {
    /// Resolve from `$HOME/.local/{bin,share/applications}`. Both have to be
    /// created before anything is put in them.
    pub fn ensure(home: Option<String>) -> (r: Result<Self, IoFailure>)
        ensures
            match r {
                Ok(dirs) => home is Some && dirs@ == dirs_of(home->0@),
                Err(e) => home is None && home_unset(e),
            },
    {
        match home {
            Some(home) => {
                let local: String = joined_path(home.as_str(), ".local");
                let share: String = joined_path(local.as_str(), "share");
                Ok(
                    Dirs {
                        bin: joined_path(local.as_str(), "bin"),
                        applications: joined_path(share.as_str(), "applications"),
                    },
                )
            },
            None => Err(home_is_unset()),
        }
    }
}

// ---------------------------------------------------------------------------
// Installing
// ---------------------------------------------------------------------------
/// The permission bits of an installed AppImage.
pub const EXECUTABLE_MODE: u32 = 0o700;

/// Only a regular file is installed.
pub fn check_source(is_file: bool) -> (r: Result<(), InstallError>)
    ensures
        r is Ok <==> is_file,
        r is Err ==> (r->Err_0 matches InstallError::Io(e) && !e.not_found && e.message@
            == "source is not a regular file"@),
{
    if is_file {
        Ok(())
    } else {
        Err(
            InstallError::Io(
                IoFailure { not_found: false, message: copy("source is not a regular file") },
            ),
        )
    }
}

/// Where the AppImage of the install `name` is copied to.
pub open spec fn binary_path(dirs: DirsView, name: Seq<char>) -> Seq<char> {
    join_path(dirs.bin, name + ".AppImage"@)
}

/// Where the menu entry of the install `name` is.
pub open spec fn entry_path(dirs: DirsView, name: Seq<char>) -> Seq<char> {
    join_path(dirs.applications, desktop_file(name))
}

/// The name that a desktop entry shows, or else `name`.
pub open spec fn shown_name(keys: Seq<Pair>, name: Seq<char>) -> Seq<char> {
    match lookup(keys, "Name"@) {
        Some(shown) => shown,
        None => name,
    }
}

fn to_binary_path(dirs: &Dirs, name: &str) -> (r: String)
    ensures
        r@ == binary_path(dirs@, name@),
{
    let mut file: String = copy(name);
    file.append(".AppImage");
    joined_path(dirs.bin.as_str(), file.as_str())
}

/// What an installation puts where.
#[derive(Debug)]
pub struct Installation {
    pub name: String,
    pub display_name: String,
    /// Where the AppImage is copied to.
    pub binary: String,
    /// The menu entry.
    pub entry: FileWrite,
    /// What the registry records.
    pub record: Entry,
}

/// The record of an AppImage at `appimage`, whose file has the name `file`, with
/// this desktop entry.
pub open spec fn install_record(
    dirs: DirsView,
    appimage: Seq<char>,
    file: Seq<char>,
    keys: Seq<Pair>,
) -> EntryView {
    let name = app_install_name(keys, file);
    EntryView {
        name,
        display_name: shown_name(keys, name),
        binary: binary_path(dirs, name),
        desktop: desktop_file(name),
        icon: name,
        source: appimage,
    }
}

/// Is `r` the installation of an AppImage at `appimage`, whose file has the name
/// `file`, with this desktop entry?
pub open spec fn is_installation(
    r: Installation,
    dirs: DirsView,
    appimage: Seq<char>,
    file: Seq<char>,
    desktop: DesktopView,
) -> bool {
    let record = install_record(dirs, appimage, file, desktop.keys);
    &&& r.record@ == record
    &&& r.name@ == record.name
    &&& r.display_name@ == record.display_name
    &&& r.binary@ == record.binary
    &&& r.entry.path@ == entry_path(dirs, record.name)
    &&& r.entry.content@ == written(
        menu_entry(desktop, record.binary, record.name, appimage, record.display_name),
    )
}

/// What the installation of the AppImage at `appimage` puts where, by its
/// extracted metadata. `file` is the path again, for the file name in it; it is
/// empty where that name is not text.
pub fn install_from_metadata(
    dirs: &Dirs,
    appimage: &str,
    file: &str,
    meta: &AppImageMetadata,
) -> (r: Installation)
    ensures
        is_installation(r, dirs@, appimage@, file@, meta.desktop@),
{
    let name: String = install_name(&meta.desktop, file);
    let display_name: String = match meta.desktop.get("Name") {
        Some(shown) => copy(shown),
        None => copy(name.as_str()),
    };
    let binary: String = to_binary_path(dirs, name.as_str());
    let desktop_name: String = desktop_file_name(name.as_str());
    let desktop: DesktopEntry = rewrite_desktop(
        &meta.desktop,
        binary.as_str(),
        name.as_str(),
        appimage,
        display_name.as_str(),
    );
    let entry: FileWrite = FileWrite {
        path: joined_path(dirs.applications.as_str(), desktop_name.as_str()),
        content: desktop.to_string(),
    };
    let record: Entry = Entry {
        name: copy(name.as_str()),
        display_name: copy(display_name.as_str()),
        binary: copy(binary.as_str()),
        desktop: desktop_name,
        icon: copy(name.as_str()),
        source: copy(appimage),
    };
    Installation { name, display_name, binary, entry, record }
}

/// The steps of an installation, in their order.
#[derive(Debug, Clone, Copy, PartialEq, Eq, Structural)]
pub enum InstallStep {
    /// Copy the AppImage, as an executable.
    CopyBinary,
    /// Install the icons; before the menu entry, so that its icon resolves.
    InstallIcons,
    /// Write the menu entry.
    WriteEntry,
    /// Record the installation and save the registry.
    SaveRegistry,
    /// Drop the menu entries that duplicate an install.
    PruneDuplicates,
    /// Refresh the database of desktop entries.
    UpdateDatabase,
    /// Refresh the icon cache.
    RefreshIcons,
    /// Make KDE see the menu entry.
    RebuildMenu,
}

/// Is the installation over when this step fails? The helpers of the other
/// steps may be absent on minimal systems.
pub open spec fn is_required(step: InstallStep) -> bool {
    step == InstallStep::CopyBinary || step == InstallStep::WriteEntry || step
        == InstallStep::SaveRegistry
}

/// The step that follows, unless this was the last.
pub open spec fn following(step: InstallStep) -> Option<InstallStep> {
    match step {
        InstallStep::CopyBinary => Some(InstallStep::InstallIcons),
        InstallStep::InstallIcons => Some(InstallStep::WriteEntry),
        InstallStep::WriteEntry => Some(InstallStep::SaveRegistry),
        InstallStep::SaveRegistry => Some(InstallStep::PruneDuplicates),
        InstallStep::PruneDuplicates => Some(InstallStep::UpdateDatabase),
        InstallStep::UpdateDatabase => Some(InstallStep::RefreshIcons),
        InstallStep::RefreshIcons => Some(InstallStep::RebuildMenu),
        InstallStep::RebuildMenu => None,
    }
}

impl InstallStep {
    /// The first step.
    pub fn first() -> (r: Self)
        ensures
            r == InstallStep::CopyBinary,
    {
        InstallStep::CopyBinary
    }

    /// The step after this one, or the error that ends the installation.
    pub fn next(self, outcome: Result<(), InstallError>) -> (r: Result<
        Option<InstallStep>,
        InstallError,
    >)
        ensures
            match outcome {
                Err(e) => if is_required(self) {
                    r == Err::<Option<InstallStep>, InstallError>(e)
                } else {
                    r == Ok::<Option<InstallStep>, InstallError>(following(self))
                },
                Ok(_) => r == Ok::<Option<InstallStep>, InstallError>(following(self)),
            },
    {
        match self {
            InstallStep::CopyBinary => match outcome {
                Ok(_) => Ok(Some(InstallStep::InstallIcons)),
                Err(e) => Err(e),
            },
            InstallStep::InstallIcons => Ok(Some(InstallStep::WriteEntry)),
            InstallStep::WriteEntry => match outcome {
                Ok(_) => Ok(Some(InstallStep::SaveRegistry)),
                Err(e) => Err(e),
            },
            InstallStep::SaveRegistry => match outcome {
                Ok(_) => Ok(Some(InstallStep::PruneDuplicates)),
                Err(e) => Err(e),
            },
            InstallStep::PruneDuplicates => Ok(Some(InstallStep::UpdateDatabase)),
            InstallStep::UpdateDatabase => Ok(Some(InstallStep::RefreshIcons)),
            InstallStep::RefreshIcons => Ok(Some(InstallStep::RebuildMenu)),
            InstallStep::RebuildMenu => Ok(None),
        }
    }
}

/// What the steps from `step` on come to: the first failure of a required one,
/// or none once all of them are done.
pub open spec fn install_outcome(
    step: Option<InstallStep>,
    outcomes: Seq<Result<(), InstallError>>,
) -> Option<InstallError>
    decreases outcomes.len(),
{
    if step is None || outcomes.len() == 0 {
        None
    } else if outcomes[0] is Err && is_required(step->0) {
        Some(outcomes[0]->Err_0)
    } else {
        install_outcome(following(step->0), outcomes.drop_first())
    }
}

/// An installation fails only where copying the AppImage, writing the menu
/// entry or saving the registry does, and with the first of these errors.
pub proof fn law_install_fails_only_where_required(outcomes: Seq<Result<(), InstallError>>)
    requires
        outcomes.len() == 8,
    ensures
        install_outcome(Some(InstallStep::CopyBinary), outcomes) == (if outcomes[0] is Err {
            Some(outcomes[0]->Err_0)
        } else if outcomes[2] is Err {
            Some(outcomes[2]->Err_0)
        } else if outcomes[3] is Err {
            Some(outcomes[3]->Err_0)
        } else {
            None
        }),
{
    reveal_with_fuel(install_outcome, 9);
    assert(outcomes.drop_first().drop_first()[0] == outcomes[2]);
    assert(outcomes.drop_first().drop_first().drop_first()[0] == outcomes[3]);
}

/// The application that an installation leaves behind.
pub fn installed_app(plan: Installation, xdg_warning: Option<String>) -> (r: InstalledApp)
    ensures
        r@ == (InstalledView {
            name: plan.name@,
            display_name: plan.display_name@,
            binary: plan.binary@,
            desktop: plan.entry.path@,
            xdg_warning: opt_string(xdg_warning),
        }),
{
    InstalledApp {
        name: plan.name,
        display_name: plan.display_name,
        binary: plan.binary,
        desktop: plan.entry.path,
        xdg_warning,
    }
}

// ---------------------------------------------------------------------------
// Icons
// ---------------------------------------------------------------------------
/// The size that a fallback icon is installed as.
pub const FALLBACK_ICON_SIZE: u32 = 512;

/// Did any of these succeed?
pub open spec fn any_success(outcomes: Seq<bool>) -> bool {
    exists|i: int| 0 <= i < outcomes.len() && outcomes[i]
}

/// Every shipped icon is installed, in its size. If none of them could be, or
/// none was shipped, the `.DirIcon` is installed as an icon of
/// [`FALLBACK_ICON_SIZE`] pixels: this one, if there is one.
pub fn fallback_icon<'a>(meta: &'a AppImageMetadata, outcomes: &Vec<bool>) -> (r: Option<
    &'a Vec<u8>,
>)
    ensures
        match r {
            Some(png) => !any_success(outcomes@) && meta.dir_icon == Some(*png),
            None => any_success(outcomes@) || meta.dir_icon is None,
        },
{
    let mut i: usize = 0;
    while i < outcomes.len()
        invariant
            i <= outcomes.len(),
            forall|j: int| 0 <= j < i ==> !outcomes[j],
        decreases outcomes.len() - i,
    {
        if outcomes[i] {
            assert(outcomes@[i as int]);
            return None;
        }
        i += 1;
    }
    match &meta.dir_icon {
        Some(png) => Some(png),
        None => None,
    }
}

/// The directory name of an icon size: `<size>x<size>/apps`.
pub open spec fn size_dir(size: u32) -> Seq<char> {
    decimal(size as nat) + "x"@ + decimal(size as nat) + "/apps"@
}

/// Where an icon of the user's own theme is.
pub open spec fn icon_path(home: Seq<char>, size: u32, name: Seq<char>) -> Seq<char> {
    join_path(
        join_path(join_path(home, ".local/share/icons/hicolor"@), size_dir(size)),
        name + ".png"@,
    )
}

/// The directory of the user's own icon theme that holds icons of this size.
fn to_icon_dir(home: &str, size: u32) -> (r: String)
    ensures
        r@ == join_path(join_path(home@, ".local/share/icons/hicolor"@), size_dir(size)),
{
    let mut dir: String = to_decimal(size as u128);
    dir.append("x");
    dir.append(to_decimal(size as u128).as_str());
    dir.append("/apps");
    joined_path(joined_path(home, ".local/share/icons/hicolor").as_str(), dir.as_str())
}

/// Where an icon of the user's own theme is.
pub fn manual_icon_path(home: &str, size: u32, name: &str) -> (r: String)
    ensures
        r@ == icon_path(home@, size, name@),
{
    let mut file: String = copy(name);
    file.append(".png");
    joined_path(to_icon_dir(home, size).as_str(), file.as_str())
}

/// Where to copy an icon that `xdg-icon-resource` did not install.
pub fn manual_install_icon(home: Option<String>, size: u32, name: &str) -> (r: Result<
    String,
    IoFailure,
>)
    ensures
        match r {
            Ok(path) => home is Some && path@ == icon_path(home->0@, size, name@),
            Err(e) => home is None && e.not_found && e.message@ == "HOME unset"@,
        },
{
    match home {
        Some(home) => Ok(manual_icon_path(home.as_str(), size, name)),
        None => Err(IoFailure { not_found: true, message: copy("HOME unset") }),
    }
}

/// The name of the file that hands an icon to `xdg-icon-resource`.
pub fn temp_icon_path(dir: &str, size: u32, pid: u32, nanos: u128) -> (r: String)
    ensures
        r@ == join_path(
            dir@,
            "app-image-manager-icon-"@ + decimal(size as nat) + "-"@ + decimal(pid as nat) + "-"@
                + decimal(nanos as nat) + ".png"@,
        ),
{
    let mut file: String = copy("app-image-manager-icon-");
    file.append(to_decimal(size as u128).as_str());
    file.append("-");
    file.append(to_decimal(pid as u128).as_str());
    file.append("-");
    file.append(to_decimal(nanos).as_str());
    file.append(".png");
    joined_path(dir, file.as_str())
}

/// The arguments with which `xdg-icon-resource` installs the icon in `file`.
pub fn install_icon_args(name: &str, size: u32, file: &str) -> (r: Vec<String>)
    ensures
        texts(r@) == seq![
            "install"@,
            "--noupdate"@,
            "--novendor"@,
            "--size"@,
            decimal(size as nat),
            file@,
            name@,
        ],
{
    let mut args: Vec<String> = Vec::new();
    args.push(copy("install"));
    args.push(copy("--noupdate"));
    args.push(copy("--novendor"));
    args.push(copy("--size"));
    args.push(to_decimal(size as u128));
    args.push(copy(file));
    args.push(copy(name));
    assert(texts(args@) =~= seq![
        "install"@,
        "--noupdate"@,
        "--novendor"@,
        "--size"@,
        decimal(size as nat),
        file@,
        name@,
    ]);
    args
}

/// The arguments with which `xdg-icon-resource` removes an icon.
pub fn uninstall_icon_args(name: &str, size: u32) -> (r: Vec<String>)
    ensures
        texts(r@) == seq!["uninstall"@, "--size"@, decimal(size as nat), name@],
{
    let mut args: Vec<String> = Vec::new();
    args.push(copy("uninstall"));
    args.push(copy("--size"));
    args.push(to_decimal(size as u128));
    args.push(copy(name));
    assert(texts(args@) =~= seq!["uninstall"@, "--size"@, decimal(size as nat), name@]);
    args
}

/// The sizes at which icons are looked for when an application is removed.
pub open spec fn removal_sizes() -> Seq<u32> {
    seq![16u32, 22u32, 24u32, 32u32, 48u32, 64u32, 128u32, 256u32, 512u32, 1024u32]
}

fn to_removal_sizes() -> (r: Vec<u32>)
    ensures
        r@ == removal_sizes(),
{
    let mut sizes: Vec<u32> = Vec::new();
    sizes.push(16);
    sizes.push(22);
    sizes.push(24);
    sizes.push(32);
    sizes.push(48);
    sizes.push(64);
    sizes.push(128);
    sizes.push(256);
    sizes.push(512);
    sizes.push(1024);
    assert(sizes@ =~= removal_sizes());
    sizes
}

/// How the icons of one size are removed: the arguments of `xdg-icon-resource`
/// and, where there is a home, the file that may have been copied by hand.
#[derive(Debug)]
pub struct IconRemoval {
    pub args: Vec<String>,
    pub file: Option<String>,
}

/// Is `r` the removal of the icon of this size of the install `name`?
pub open spec fn is_icon_removal(
    r: IconRemoval,
    size: u32,
    name: Seq<char>,
    home: Option<String>,
) -> bool {
    &&& texts(r.args@) == seq!["uninstall"@, "--size"@, decimal(size as nat), name]
    &&& opt_string(r.file) == (match home {
        Some(h) => Some(icon_path(h@, size, name)),
        None => None,
    })
}

/// Is the icon of this size of the install `name` among those that are removed?
pub open spec fn removes(
    r: Seq<IconRemoval>,
    size: u32,
    name: Seq<char>,
    home: Option<String>,
) -> bool {
    exists|i: int| 0 <= i < r.len() && #[trigger] is_icon_removal(r[i], size, name, home)
}

/// The removal of the icons of the install `name`, one for each size.
pub fn uninstall_icons(name: &str, home: Option<String>) -> (r: Vec<IconRemoval>)
    ensures
        r.len() == removal_sizes().len(),
        forall|i: int|
            0 <= i < r.len() ==> is_icon_removal(
                #[trigger] r[i],
                removal_sizes()[i],
                name@,
                home,
            ),
        forall|size: u32|
            size == 16 || size == 22 || size == 24 || size == 32 || size == 48 || size == 64 || size
                == 128 || size == 256 || size == 512 || size == 1024 ==> #[trigger] removes(
                r@,
                size,
                name@,
                home,
            ),
{
    let sizes: Vec<u32> = to_removal_sizes();
    let mut out: Vec<IconRemoval> = Vec::new();
    let mut i: usize = 0;
    while i < sizes.len()
        invariant
            i <= sizes.len(),
            out.len() == i,
            sizes@ == removal_sizes(),
            forall|j: int|
                0 <= j < i ==> is_icon_removal(#[trigger] out[j], sizes[j], name@, home),
        decreases sizes.len() - i,
    {
        let file: Option<String> = match &home {
            Some(h) => Some(manual_icon_path(h.as_str(), sizes[i], name)),
            None => None,
        };
        let removal: IconRemoval = IconRemoval { args: uninstall_icon_args(name, sizes[i]), file };
        out.push(removal);
        i += 1;
    }
    proof {
        assert forall|size: u32|
            size == 16 || size == 22 || size == 24 || size == 32 || size == 48 || size == 64 || size
                == 128 || size == 256 || size == 512 || size == 1024 implies #[trigger] removes(
            out@,
            size,
            name@,
            home,
        ) by {
            let k = removal_sizes().index_of(size);
            assert(removal_sizes()[0] == 16 && removal_sizes()[1] == 22 && removal_sizes()[2] == 24
                && removal_sizes()[3] == 32 && removal_sizes()[4] == 48 && removal_sizes()[5] == 64
                && removal_sizes()[6] == 128 && removal_sizes()[7] == 256 && removal_sizes()[8]
                == 512 && removal_sizes()[9] == 1024);
            assert(removal_sizes().contains(size));
            assert(is_icon_removal(out[k], size, name@, home));
        }
    }
    out
}

// ---------------------------------------------------------------------------
// Desktop caches
// ---------------------------------------------------------------------------
/// What a run of the helper `name` comes to: nothing to tell where it exited
/// with success, and otherwise its name and what it complained of.
pub open spec fn helper_failure(
    name: Seq<char>,
    outcome: Result<ToolOutput, IoFailure>,
) -> Option<(Seq<char>, Seq<char>)> {
    match outcome {
        Err(e) => Some((name, e.message@)),
        Ok(o) => if o.success {
            None
        } else {
            Some((name, utf8_lossy(o.stderr@)))
        },
    }
}

/// The failure in a result.
pub open spec fn failure_texts(r: Result<(), (String, String)>) -> Option<(Seq<char>, Seq<char>)> {
    match r {
        Ok(_) => None,
        Err(e) => Some((e.0@, e.1@)),
    }
}

/// What a run of the helper `name` comes to.
pub fn run_helper(name: &str, outcome: Result<ToolOutput, IoFailure>) -> (r: Result<
    (),
    (String, String),
>)
    ensures
        failure_texts(r) == helper_failure(name@, outcome),
{
    match outcome {
        Err(e) => Err((copy(name), e.message)),
        Ok(o) => {
            if o.success {
                Ok(())
            } else {
                Err((copy(name), lossy(o.stderr.as_slice())))
            }
        },
    }
}

/// The arguments with which `xdg-icon-resource` regenerates the theme cache.
pub fn force_update_args() -> (r: Vec<String>)
    ensures
        texts(r@) == seq!["forceupdate"@, "--theme"@, "hicolor"@],
{
    let mut args: Vec<String> = Vec::new();
    args.push(copy("forceupdate"));
    args.push(copy("--theme"));
    args.push(copy("hicolor"));
    assert(texts(args@) =~= seq!["forceupdate"@, "--theme"@, "hicolor"@]);
    args
}

/// The arguments with which `gtk-update-icon-cache` builds the cache of the
/// theme in this home, which usually has no `index.theme` of its own.
pub open spec fn icon_cache_args(home: Seq<char>) -> Seq<Seq<char>> {
    seq![
        "--force"@,
        "--ignore-theme-index"@,
        "--quiet"@,
        join_path(home, ".local/share/icons/hicolor"@),
    ]
}

/// How the icon cache is refreshed, by what `xdg-icon-resource` came to: nothing
/// is left to do where it succeeded; otherwise `gtk-update-icon-cache` is run
/// with these arguments, which takes a home.
pub fn refresh_icon_cache(
    first: Result<(), (String, String)>,
    home: Option<String>,
) -> (r: Result<Option<Vec<String>>, (String, String)>)
    ensures
        first is Ok ==> (r matches Ok(None)),
        first is Err && home is Some ==> (r matches Ok(Some(args)) && texts(args@)
            == icon_cache_args(home->0@)),
        first is Err && home is None ==> (r matches Err(e) && e.0@ == "HOME"@ && e.1@
            == "unset"@),
{
    if first.is_ok() {
        return Ok(None);
    }
    match home {
        None => Err((copy("HOME"), copy("unset"))),
        Some(home) => {
            let mut args: Vec<String> = Vec::new();
            args.push(copy("--force"));
            args.push(copy("--ignore-theme-index"));
            args.push(copy("--quiet"));
            args.push(joined_path(home.as_str(), ".local/share/icons/hicolor"));
            assert(texts(args@) =~= icon_cache_args(home@));
            Ok(Some(args))
        },
    }
}

/// How KDE is made to see the user's menu entries.
#[derive(Debug)]
pub struct MenuRefresh {
    /// The `XDG_DATA_DIRS` to rebuild the menu cache with, if not the current.
    pub xdg_data_dirs: Option<String>,
    /// What to tell the user, where the environment needs a permanent fix.
    pub warning: Option<Message>,
}

/// Is the directory one of those in a colon-separated list?
pub open spec fn in_list(list: Option<Seq<char>>, dir: Seq<char>) -> bool {
    list is Some && split(list->0, ':').contains(dir)
}

/// Make sure KDE will actually pick up the menu entries in the user's own
/// `applications` directory, which lies in `local_share`.
///
/// KDE Plasma only scans the directories listed in `XDG_DATA_DIRS` when it
/// builds its menu cache. In some environments `~/.local/share` is not in that
/// list. Then the cache is to be rebuilt with that directory put before the
/// list, and the user is told.
///
/// `xdg_data_dirs` is the list, with replacement characters where it is not
/// text; `xdg_text` is the list if it is text, and empty otherwise.
pub fn ensure_kde_sees_user_applications(
    local_share: &str,
    xdg_data_dirs: Option<String>,
    xdg_text: &str,
) -> (r: MenuRefresh)
    ensures
        in_list(opt_string(xdg_data_dirs), local_share@) ==> r.xdg_data_dirs is None && r.warning
            is None,
        !in_list(opt_string(xdg_data_dirs), local_share@) ==> {
            &&& opt_string(r.xdg_data_dirs) == Some(local_share@ + ":"@ + xdg_text@)
            &&& opt_message(r.warning) == Some(
                with_arg("xdg_warning"@, "path"@, local_share@),
            )
        },
{
    let mut found: bool = false;
    match &xdg_data_dirs {
        Some(list) => {
            let chars: Vec<char> = to_chars(list.as_str());
            let parts: Vec<&[char]> = split_at(chars.as_slice(), ':');
            let ghost gp = slices(parts@);
            let mut i: usize = 0;
            while i < parts.len()
                invariant
                    i <= parts.len(),
                    gp == slices(parts@),
                    found <==> exists|j: int| 0 <= j < i && #[trigger] gp[j] == local_share@,
                decreases parts.len() - i,
            {
                if is_text(parts[i], local_share) {
                    found = true;
                }
                assert(gp[i as int] == parts@[i as int]@);
                i += 1;
            }
            assert(found <==> gp.contains(local_share@));
        },
        None => {},
    }
    if found {
        return MenuRefresh { xdg_data_dirs: None, warning: None };
    }
    let mut list: String = copy(local_share);
    list.append(":");
    list.append(xdg_text);
    MenuRefresh {
        xdg_data_dirs: Some(list),
        warning: Some(Message::with_arg("xdg_warning", "path", local_share)),
    }
}

/// The programs that rebuild KDE's menu cache. The first that can be run is.
pub fn sycoca_programs() -> (r: Vec<String>)
    ensures
        texts(r@) == seq!["kbuildsycoca6"@, "kbuildsycoca5"@],
{
    let mut programs: Vec<String> = Vec::new();
    programs.push(copy("kbuildsycoca6"));
    programs.push(copy("kbuildsycoca5"));
    assert(texts(programs@) =~= seq!["kbuildsycoca6"@, "kbuildsycoca5"@]);
    programs
}

// ---------------------------------------------------------------------------
// Installs of 0.1.2 and before
// ---------------------------------------------------------------------------
/// The import of an install that only its menu entry records.
#[derive(Debug)]
pub struct Migration {
    /// The menu entry under its canonical name.
    pub entry: FileWrite,
    /// What the registry is to record.
    pub record: Entry,
}

/// Is this the content of a menu entry that carries the marker?
pub open spec fn is_marked(content: Seq<char>) -> bool {
    lookup(parsed(content).keys, MARKER_KEY@) == Some("true"@)
}

/// The program that a desktop entry with this content starts.
pub open spec fn started_program(content: Seq<char>) -> Option<Seq<char>> {
    match lookup(parsed(content).keys, "Exec"@) {
        Some(exec) => program(exec),
        None => None,
    }
}

/// The value of `key`, or else `default`.
pub open spec fn value_or(keys: Seq<Pair>, key: Seq<char>, default: Seq<char>) -> Seq<char> {
    match lookup(keys, key) {
        Some(value) => value,
        None => default,
    }
}

/// What the registry records of an install `name` whose menu entry has this
/// content.
pub open spec fn migrated_record(
    dirs: DirsView,
    name: Seq<char>,
    content: Seq<char>,
) -> EntryView {
    let keys = parsed(content).keys;
    EntryView {
        name,
        display_name: value_or(keys, "Name"@, name),
        binary: match started_program(content) {
            Some(bin) => bin,
            None => binary_path(dirs, name),
        },
        desktop: desktop_file(name),
        icon: value_or(keys, "Icon"@, name),
        source: value_or(keys, "X-AppImage-Source"@, seq![]),
    }
}

fn get_or(d: &DesktopEntry, key: &str, default: &str) -> (r: String)
    ensures
        r@ == value_or(d@.keys, key@, default@),
{
    match d.get(key) {
        Some(value) => copy(value),
        None => copy(default),
    }
}

/// The program that a desktop entry starts.
fn entry_program(d: &DesktopEntry) -> (r: Option<String>)
    ensures
        opt_string(r) == (match lookup(d@.keys, "Exec"@) {
            Some(exec) => program(exec),
            None => None,
        }),
{
    match d.get("Exec") {
        Some(exec) => exec_program(exec),
        None => None,
    }
}

/// The import of the install that the file `file_name`, with this content,
/// records; `None` where it is not the menu entry of an install of 0.1.2 or
/// before.
pub fn legacy_migration(dirs: &Dirs, file_name: &str, content: &str) -> (r: Option<Migration>)
    ensures
        match r {
            Some(m) => exists|name: Seq<char>|
                {
                    &&& file_name@ == #[trigger] legacy_file(name)
                    &&& is_marked(content@)
                    &&& m.entry.path@ == entry_path(dirs@, name)
                    &&& m.entry.content@ == content@
                    &&& m.record@ == migrated_record(dirs@, name, content@)
                },
            None => !is_marked(content@) || forall|name: Seq<char>|
                file_name@ != #[trigger] legacy_file(name),
        },
{
    let name: String = match name_from_legacy_desktop_file(file_name) {
        Some(name) => name,
        None => {
            return None;
        },
    };
    let d: DesktopEntry = DesktopEntry::parse(content);
    let marked: bool = match d.get(MARKER_KEY) {
        Some(value) => same(value, "true"),
        None => false,
    };
    if !marked {
        return None;
    }
    let desktop: String = desktop_file_name(name.as_str());
    let entry: FileWrite = FileWrite {
        path: joined_path(dirs.applications.as_str(), desktop.as_str()),
        content: copy(content),
    };
    let binary: String = match entry_program(&d) {
        Some(bin) => bin,
        None => to_binary_path(dirs, name.as_str()),
    };
    let display_name: String = get_or(&d, "Name", name.as_str());
    let icon: String = get_or(&d, "Icon", name.as_str());
    let source: String = get_or(&d, "X-AppImage-Source", "");
    proof {
        reveal_strlit("");
        assert(""@ =~= seq![]);
    }
    let record: Entry = Entry {
        name: copy(name.as_str()),
        display_name,
        binary,
        desktop,
        icon,
        source,
    };
    let m: Migration = Migration { entry, record };
    assert(file_name@ == legacy_file(name@));
    assert(m.record@ =~= migrated_record(dirs@, name@, content@));
    Some(m)
}

/// What was tried: an import, and whether its menu entry could be written.
#[derive(Debug)]
pub struct MigrationOutcome {
    pub migration: Migration,
    pub written: bool,
}

/// The entries after the imports whose menu entry could be written.
pub open spec fn with_migrations(es: Seq<EntryView>, outcomes: Seq<MigrationOutcome>) -> Seq<
    EntryView,
>
    decreases outcomes.len(),
{
    if outcomes.len() == 0 {
        es
    } else if outcomes.last().written {
        upserted(with_migrations(es, outcomes.drop_last()), outcomes.last().migration.record@)
    } else {
        with_migrations(es, outcomes.drop_last())
    }
}

/// Could the menu entry of any import be written?
pub open spec fn any_written(outcomes: Seq<MigrationOutcome>) -> bool {
    exists|i: int| 0 <= i < outcomes.len() && (#[trigger] outcomes[i]).written
}

/// Import installs made by 0.1.2 or before, which recorded everything in a
/// menu entry, into the registry. Those whose menu entry could not be written
/// under its canonical name are left as they are. Tells whether anything
/// changed.
pub fn migrate_legacy_entries(reg: &mut Registry, outcomes: &Vec<MigrationOutcome>) -> (r: bool)
    ensures
        final(reg)@.entries == with_migrations(old(reg)@.entries, outcomes@),
        final(reg)@.path == old(reg)@.path,
        r == any_written(outcomes@),
{
    let mut changed: bool = false;
    let mut i: usize = 0;
    let ghost all = outcomes@;
    assert(all.take(0) =~= seq![]);
    while i < outcomes.len()
        invariant
            i <= outcomes.len(),
            all == outcomes@,
            reg@.entries == with_migrations(old(reg)@.entries, all.take(i as int)),
            reg@.path == old(reg)@.path,
            changed <==> exists|j: int| 0 <= j < i && (#[trigger] all[j]).written,
        decreases outcomes.len() - i,
    {
        proof {
            assert(all.take(i + 1).drop_last() =~= all.take(i as int));
            assert(all.take(i + 1).last() == all[i as int]);
        }
        if outcomes[i].written {
            reg.upsert(outcomes[i].migration.record.clone());
            changed = true;
            assert(all[i as int].written);
        }
        i += 1;
    }
    assert(all.take(i as int) =~= all);
    changed
}

/// The registry after the imports, and what to save where they changed
/// anything.
pub fn open_registry(reg: Registry, outcomes: &Vec<MigrationOutcome>) -> (r: (
    Registry,
    Option<FileWrite>,
))
    ensures
        r.0@.entries == with_migrations(reg@.entries, outcomes@),
        r.0@.path == reg@.path,
        r.1 is Some <==> any_written(outcomes@),
        r.1 matches Some(save) ==> save.path@ == reg@.path && save.content@ == registry_text(
            r.0@.entries,
        ),
{
    let mut reg: Registry = reg;
    if migrate_legacy_entries(&mut reg, outcomes) {
        let save: FileWrite = reg.save();
        (reg, Some(save))
    } else {
        (reg, None)
    }
}

/// An imported install is recorded under its name, and a second import of the
/// same menu entry changes nothing.
pub proof fn law_migrated_install_is_recorded(
    es: Seq<EntryView>,
    dirs: DirsView,
    name: Seq<char>,
    content: Seq<char>,
)
    ensures
        ({
            let once = upserted(es, migrated_record(dirs, name, content));
            &&& find(once, name) == Some(migrated_record(dirs, name, content))
            &&& upserted(once, migrated_record(dirs, name, content)) == once
        }),
{
    let record = migrated_record(dirs, name, content);
    law_upsert_then_get(es, record);
    let once = upserted(es, record);
    lemma_name_pos(once, name);
    assert(upserted(once, record) =~= once);
}

// ---------------------------------------------------------------------------
// Duplicate menu entries
// ---------------------------------------------------------------------------
/// A file of the `applications` directory.
#[derive(Debug)]
pub struct DirFile {
    pub path: String,
    /// The name in `path`; empty where it is not text.
    pub file_name: String,
    /// The content, where it could be read.
    pub content: Option<String>,
}

/// What a [`DirFile`] holds.
#[verifier::ext_equal]
pub struct DirFileView {
    pub path: Seq<char>,
    pub file_name: Seq<char>,
    pub content: Option<Seq<char>>,
}

impl View for DirFile {
    type V = DirFileView;

    open spec fn view(&self) -> DirFileView {
        DirFileView {
            path: self.path@,
            file_name: self.file_name@,
            content: opt_string(self.content),
        }
    }
}

/// What a vector of files holds.
pub open spec fn dir_views(v: Seq<DirFile>) -> Seq<DirFileView> {
    Seq::new(v.len(), |i: int| v[i]@)
}

/// Does the path end in `.desktop`?
pub open spec fn desktop_path(path: Seq<char>) -> bool {
    file_name(path) is Some && extension(file_name(path)->0) == Some("desktop"@)
}

/// Is the program one of the binaries, as a path?
pub open spec fn is_one_of(program: Seq<char>, binaries: Seq<Seq<char>>) -> bool {
    exists|i: int| 0 <= i < binaries.len() && same_path(#[trigger] binaries[i], program)
}

/// Is the file a menu entry that starts one of the binaries, under a name that
/// is not to be kept?
pub open spec fn points_at(f: DirFileView, binaries: Seq<Seq<char>>, keep: Seq<Seq<char>>) -> bool {
    &&& desktop_path(f.path)
    &&& !keep.contains(f.file_name)
    &&& f.content is Some
    &&& started_program(f.content->0) is Some
    &&& is_one_of(started_program(f.content->0)->0, binaries)
}

/// The paths of the files that point at one of the binaries, in their order.
pub open spec fn pointing(
    files: Seq<DirFileView>,
    binaries: Seq<Seq<char>>,
    keep: Seq<Seq<char>>,
) -> Seq<Seq<char>>
    decreases files.len(),
{
    if files.len() == 0 {
        seq![]
    } else if points_at(files.last(), binaries, keep) {
        pointing(files.drop_last(), binaries, keep).push(files.last().path)
    } else {
        pointing(files.drop_last(), binaries, keep)
    }
}

pub(crate) fn lists_text(list: &Vec<String>, text: &str) -> (r: bool)
    ensures
        r == texts(list@).contains(text@),
{
    let mut i: usize = 0;
    while i < list.len()
        invariant
            i <= list.len(),
            forall|j: int| 0 <= j < i ==> texts(list@)[j] != text@,
        decreases list.len() - i,
    {
        if same(list[i].as_str(), text) {
            assert(texts(list@)[i as int] == text@);
            return true;
        }
        i += 1;
    }
    false
}

fn lists_path(list: &Vec<String>, path: &str) -> (r: bool)
    ensures
        r == is_one_of(path@, texts(list@)),
{
    let mut i: usize = 0;
    while i < list.len()
        invariant
            i <= list.len(),
            forall|j: int| 0 <= j < i ==> !same_path(#[trigger] texts(list@)[j], path@),
        decreases list.len() - i,
    {
        if is_same_path(list[i].as_str(), path) {
            assert(same_path(texts(list@)[i as int], path@));
            return true;
        }
        i += 1;
    }
    false
}

fn is_pointing(f: &DirFile, binaries: &Vec<String>, keep: &Vec<String>) -> (r: bool)
    ensures
        r == points_at(f@, texts(binaries@), texts(keep@)),
{
    if !has_extension(f.path.as_str(), "desktop") || lists_text(keep, f.file_name.as_str()) {
        return false;
    }
    match &f.content {
        None => false,
        Some(content) => {
            let d: DesktopEntry = DesktopEntry::parse(content.as_str());
            match entry_program(&d) {
                None => false,
                Some(program) => lists_path(binaries, program.as_str()),
            }
        },
    }
}

/// The paths of every `.desktop` file of the `applications` directory whose
/// `Exec` program is one of `binaries`, except those whose file name is listed
/// in `keep`: these are to be removed.
pub fn remove_entries_pointing_at(
    files: &Vec<DirFile>,
    binaries: &Vec<String>,
    keep: &Vec<String>,
) -> (r: Vec<String>)
    ensures
        texts(r@) == pointing(dir_views(files@), texts(binaries@), texts(keep@)),
{
    let mut out: Vec<String> = Vec::new();
    let mut i: usize = 0;
    let ghost all = dir_views(files@);
    assert(texts(out@) =~= pointing(all.take(0), texts(binaries@), texts(keep@)));
    while i < files.len()
        invariant
            i <= files.len(),
            all == dir_views(files@),
            texts(out@) == pointing(all.take(i as int), texts(binaries@), texts(keep@)),
        decreases files.len() - i,
    {
        let ghost before = out@;
        proof {
            assert(all.take(i + 1).drop_last() =~= all.take(i as int));
            assert(all.take(i + 1).last() == files@[i as int]@);
        }
        if is_pointing(&files[i], binaries, keep) {
            out.push(copy(files[i].path.as_str()));
            assert(texts(out@) =~= texts(before).push(files@[i as int]@.path));
        }
        i += 1;
    }
    assert(all.take(i as int) =~= all);
    out
}

/// The binaries of the registered installs.
pub open spec fn managed_binaries(es: Seq<EntryView>) -> Seq<Seq<char>> {
    es.map_values(|e: EntryView| e.binary)
}

/// The file names of the menu entries of the registered installs.
pub open spec fn managed_entries(es: Seq<EntryView>) -> Seq<Seq<char>> {
    es.map_values(|e: EntryView| e.desktop)
}

/// The paths of the menu entries that duplicate an install: these are to be
/// removed.
///
/// An application that registers itself on its first run writes a menu entry
/// whose `Exec` names the running binary, which is the installed copy. An entry
/// that starts an installed binary and is not the canonical one is by
/// construction a duplicate, so it is safe to drop.
pub fn prune_duplicate_entries(reg: &Registry, files: &Vec<DirFile>) -> (r: Vec<String>)
    ensures
        texts(r@) == pointing(
            dir_views(files@),
            managed_binaries(reg@.entries),
            managed_entries(reg@.entries),
        ),
{
    let entries: &Vec<Entry> = reg.entries();
    let mut binaries: Vec<String> = Vec::new();
    let mut keep: Vec<String> = Vec::new();
    let mut i: usize = 0;
    while i < entries.len()
        invariant
            i <= entries.len(),
            binaries.len() == i,
            keep.len() == i,
            forall|j: int| 0 <= j < i ==> (#[trigger] binaries[j])@ == entries[j]@.binary,
            forall|j: int| 0 <= j < i ==> (#[trigger] keep[j])@ == entries[j]@.desktop,
        decreases entries.len() - i,
    {
        binaries.push(copy(entries[i].binary.as_str()));
        keep.push(copy(entries[i].desktop.as_str()));
        i += 1;
    }
    assert(texts(binaries@) =~= managed_binaries(entry_views(entries@)));
    assert(texts(keep@) =~= managed_entries(entry_views(entries@)));
    remove_entries_pointing_at(files, &binaries, &keep)
}

/// Pruning spares the canonical menu entry of every install, and every entry
/// that starts something else; it takes every other entry of an installed
/// binary.
pub proof fn law_prune_takes_only_duplicates(es: Seq<EntryView>, f: DirFileView)
    ensures
        forall|i: int|
            0 <= i < es.len() && (#[trigger] es[i]).desktop == f.file_name ==> !points_at(
                f,
                managed_binaries(es),
                managed_entries(es),
            ),
        f.content is Some && started_program(f.content->0) is Some && (forall|i: int|
            0 <= i < es.len() ==> !same_path(
                (#[trigger] es[i]).binary,
                started_program(f.content->0)->0,
            )) ==> !points_at(f, managed_binaries(es), managed_entries(es)),
        desktop_path(f.path) && f.content is Some && started_program(f.content->0) is Some && (
        forall|i: int| 0 <= i < es.len() ==> (#[trigger] es[i]).desktop != f.file_name) && (
        exists|i: int|
            0 <= i < es.len() && same_path(
                (#[trigger] es[i]).binary,
                started_program(f.content->0)->0,
            )) ==> points_at(f, managed_binaries(es), managed_entries(es)),
{
    let bins = managed_binaries(es);
    let keep = managed_entries(es);
    assert forall|i: int|
        0 <= i < es.len() && (#[trigger] es[i]).desktop == f.file_name implies !points_at(
        f,
        bins,
        keep,
    ) by {
        assert(keep[i] == f.file_name);
    }
    assert(forall|i: int| 0 <= i < es.len() ==> bins[i] == (#[trigger] es[i]).binary);
    assert(forall|i: int| 0 <= i < bins.len() ==> #[trigger] bins[i] == es[i].binary);
    assert(forall|i: int| 0 <= i < keep.len() ==> #[trigger] keep[i] == es[i].desktop);
}

/// The files that pruning leaves.
pub open spec fn left_over(
    files: Seq<DirFileView>,
    binaries: Seq<Seq<char>>,
    keep: Seq<Seq<char>>,
) -> Seq<DirFileView>
    decreases files.len(),
{
    if files.len() == 0 {
        seq![]
    } else if points_at(files.last(), binaries, keep) {
        left_over(files.drop_last(), binaries, keep)
    } else {
        left_over(files.drop_last(), binaries, keep).push(files.last())
    }
}

/// Once the duplicates are removed there is nothing left to remove.
pub proof fn law_prune_is_complete(
    files: Seq<DirFileView>,
    binaries: Seq<Seq<char>>,
    keep: Seq<Seq<char>>,
)
    ensures
        pointing(left_over(files, binaries, keep), binaries, keep) == Seq::<Seq<char>>::empty(),
        pointing(files, binaries, keep).len() + left_over(files, binaries, keep).len()
            == files.len(),
    decreases files.len(),
{
    if files.len() > 0 {
        law_prune_is_complete(files.drop_last(), binaries, keep);
        let rest = left_over(files.drop_last(), binaries, keep);
        if !points_at(files.last(), binaries, keep) {
            assert(left_over(files, binaries, keep).drop_last() =~= rest);
        }
    }
}

/// The entry that an application writes for itself, in the quoted form, is
/// recognised as a duplicate of its install.
pub proof fn law_self_registered_entry_is_a_duplicate(
    es: Seq<EntryView>,
    k: int,
    f: DirFileView,
    rest: Seq<char>,
)
    requires
        0 <= k < es.len(),
        forall|i: int|
            0 <= i < es[k].binary.len() ==> #[trigger] es[k].binary[i] != '"' && es[k].binary[i]
                != '\\',
        desktop_path(f.path),
        forall|i: int| 0 <= i < es.len() ==> (#[trigger] es[i]).desktop != f.file_name,
        f.content is Some,
        lookup(parsed(f.content->0).keys, "Exec"@) == Some(
            seq!['"'] + es[k].binary + seq!['"'] + rest,
        ),
    ensures
        points_at(f, managed_binaries(es), managed_entries(es)),
{
    law_quoted_program(es[k].binary, rest);
    law_prune_takes_only_duplicates(es, f);
    assert(same_path(es[k].binary, started_program(f.content->0)->0));
}

// ---------------------------------------------------------------------------
// Listing and removing
// ---------------------------------------------------------------------------
/// The applications that the registry records.
pub open spec fn listed_apps(dirs: DirsView, es: Seq<EntryView>) -> Seq<InstalledView> {
    es.map_values(
        |e: EntryView|
            InstalledView {
                name: e.name,
                display_name: e.display_name,
                binary: e.binary,
                desktop: join_path(dirs.applications, e.desktop),
                xdg_warning: None,
            },
    )
}

/// List installed AppImages, per the registry.
pub fn list(dirs: &Dirs, reg: &Registry) -> (r: Vec<InstalledApp>)
    ensures
        installed_views(r@) == listed_apps(dirs@, reg@.entries),
{
    let entries: &Vec<Entry> = reg.entries();
    let mut out: Vec<InstalledApp> = Vec::new();
    let mut i: usize = 0;
    let ghost want = listed_apps(dirs@, entry_views(entries@));
    while i < entries.len()
        invariant
            i <= entries.len(),
            out.len() == i,
            want == listed_apps(dirs@, entry_views(entries@)),
            forall|j: int| 0 <= j < i ==> (#[trigger] out[j])@ == want[j],
        decreases entries.len() - i,
    {
        let app: InstalledApp = InstalledApp {
            name: copy(entries[i].name.as_str()),
            display_name: copy(entries[i].display_name.as_str()),
            binary: copy(entries[i].binary.as_str()),
            desktop: joined_path(dirs.applications.as_str(), entries[i].desktop.as_str()),
            xdg_warning: None,
        };
        assert(app@ =~= want[i as int]);
        out.push(app);
        i += 1;
    }
    assert(installed_views(out@) =~= want);
    out
}

/// Listing doubles as a repair command: the desktop is told to re-read the menu
/// where installs were imported or duplicates removed.
pub fn menu_changed(migrated: bool, pruned: &Vec<String>) -> (r: bool)
    ensures
        r == (migrated || pruned@.len() > 0),
{
    migrated || pruned.len() > 0
}

/// What the removal of an install takes away.
#[derive(Debug)]
pub struct Uninstallation {
    /// The binary; only ever from inside the directory that installs go to.
    pub binary: Option<String>,
    /// The name of the icons, if any.
    pub icon: Option<String>,
    /// The path of the menu entry.
    pub entry: String,
    /// The binary whose other menu entries go too.
    pub duplicates_of: String,
    /// The registry without the install.
    pub registry: FileWrite,
}

/// Is `u` the removal of an install recorded as `e`?
pub open spec fn is_uninstallation(u: Uninstallation, dirs: DirsView, e: EntryView) -> bool {
    &&& opt_string(u.binary) == (if inside(e.binary, dirs.bin) {
        Some(e.binary)
    } else {
        None
    })
    &&& opt_string(u.icon) == (if e.icon.len() > 0 {
        Some(e.icon)
    } else {
        None
    })
    &&& u.entry@ == join_path(dirs.applications, e.desktop)
    &&& u.duplicates_of@ == e.binary
}

/// Uninstall by name. `None` if there is no such install.
pub fn uninstall(dirs: &Dirs, reg: &mut Registry, name: &str) -> (r: Option<Uninstallation>)
    ensures
        final(reg)@.entries == removed(old(reg)@.entries, name@),
        final(reg)@.path == old(reg)@.path,
        match r {
            Some(u) => {
                &&& find(old(reg)@.entries, name@) is Some
                &&& is_uninstallation(u, dirs@, find(old(reg)@.entries, name@)->0)
                &&& u.registry.path@ == old(reg)@.path
                &&& u.registry.content@ == registry_text(removed(old(reg)@.entries, name@))
            },
            None => find(old(reg)@.entries, name@) is None,
        },
{
    let entry: Entry = match reg.remove(name) {
        Some(entry) => entry,
        None => {
            return None;
        },
    };
    let binary: Option<String> = if is_inside(entry.binary.as_str(), dirs.bin.as_str()) {
        Some(copy(entry.binary.as_str()))
    } else {
        None
    };
    let icon_chars: Vec<char> = to_chars(entry.icon.as_str());
    let icon: Option<String> = if icon_chars.len() > 0 {
        Some(entry.icon)
    } else {
        None
    };
    Some(
        Uninstallation {
            binary,
            icon,
            entry: joined_path(dirs.applications.as_str(), entry.desktop.as_str()),
            duplicates_of: entry.binary,
            registry: reg.save(),
        },
    )
}

pub(crate) proof fn lemma_install_name_has_no_slash(keys: Seq<Pair>, file: Seq<char>)
    ensures
        !has_char(app_install_name(keys, file), '/'),
{
    let name = app_install_name(keys, file);
    if has_char(name, '/') {
        let i = choose|i: int| 0 <= i < name.len() && name[i] == '/';
        if lookup(keys, "Name"@) is Some && cleaned_name(lookup(keys, "Name"@)->0).len() > 0 {
            law_install_name_is_stable(lookup(keys, "Name"@)->0);
            assert(cleaned_name(lookup(keys, "Name"@)->0)[i] != '/');
        } else if file_name(file) is Some {
            law_file_name_is_one_component(file);
            lemma_stem(file_name(file)->0);
            assert((file_name(file)->0)[i] == '/');
        } else {
            reveal_strlit("appimage-app");
        }
    }
}

proof fn lemma_suffixed_name(name: Seq<char>, suffix: Seq<char>)
    requires
        !has_char(name, '/'),
        !has_char(suffix, '/'),
    ensures
        !has_char(name + suffix, '/'),
{
    let all = name + suffix;
    if has_char(all, '/') {
        let i = choose|i: int| 0 <= i < all.len() && all[i] == '/';
        if i < name.len() {
            assert(name[i] == '/');
        } else {
            assert(suffix[i - name.len()] == '/');
        }
    }
}

/// Everything that an installation puts anywhere is inside the `.local` of the
/// user's home: the binary, the menu entry, and the icons that are copied by
/// hand.
pub proof fn law_everything_lives_inside_local(
    home: Seq<char>,
    appimage: Seq<char>,
    file: Seq<char>,
    keys: Seq<Pair>,
    size: u32,
)
    requires
        home.len() > 0,
    ensures
        ({
            let record = install_record(dirs_of(home), appimage, file, keys);
            let local = join_path(home, ".local"@);
            &&& inside(record.binary, local)
            &&& inside(entry_path(dirs_of(home), record.name), local)
            &&& inside(icon_path(home, size, record.icon), local)
        }),
{
    reveal_strlit(".local");
    reveal_strlit("bin");
    reveal_strlit("share");
    reveal_strlit("applications");
    reveal_strlit(".AppImage");
    reveal_strlit(".desktop");
    reveal_strlit(".png");
    let dirs = dirs_of(home);
    let name = app_install_name(keys, file);
    let local = join_path(home, ".local"@);
    lemma_install_name_has_no_slash(keys, file);
    lemma_suffixed_name(name, ".AppImage"@);
    lemma_suffixed_name(name, ".desktop"@);
    lemma_suffixed_name(name, ".png"@);
    // The binary.
    law_joined_name_is_inside(dirs.bin, name + ".AppImage"@);
    law_joined_name_is_inside(local, "bin"@);
    law_inside_is_transitive(binary_path(dirs, name), dirs.bin, local);
    // The menu entry.
    let share = join_path(local, "share"@);
    law_joined_name_is_inside(dirs.applications, desktop_file(name));
    law_joined_name_is_inside(share, "applications"@);
    law_joined_name_is_inside(local, "share"@);
    law_inside_is_transitive(dirs.applications, share, local);
    law_inside_is_transitive(entry_path(dirs, name), dirs.applications, local);
    // The icons.
    let theme = join_path(home, ".local/share/icons/hicolor"@);
    let sized = join_path(theme, size_dir(size));
    lemma_theme_is_inside(home);
    lemma_size_dir_is_inside(theme, size);
    law_joined_name_is_inside(sized, name + ".png"@);
    law_inside_is_transitive(sized, theme, local);
    law_inside_is_transitive(icon_path(home, size, name), sized, local);
}

proof fn lemma_theme_is_inside(home: Seq<char>)
    requires
        home.len() > 0,
    ensures
        inside(join_path(home, ".local/share/icons/hicolor"@), join_path(home, ".local"@)),
        join_path(home, ".local/share/icons/hicolor"@).len() > 0,
{
    reveal_strlit(".local");
    reveal_strlit("share");
    reveal_strlit("icons");
    reveal_strlit("hicolor");
    reveal_strlit("share/icons/hicolor");
    reveal_strlit("icons/hicolor");
    reveal_strlit(".local/share/icons/hicolor");
    let local = join_path(home, ".local"@);
    let share = join_path(local, "share"@);
    let icons = join_path(share, "icons"@);
    law_join_in_steps(home, ".local"@, "share/icons/hicolor"@);
    assert(".local"@.push('/') + "share/icons/hicolor"@ =~= ".local/share/icons/hicolor"@);
    law_join_in_steps(local, "share"@, "icons/hicolor"@);
    assert("share"@.push('/') + "icons/hicolor"@ =~= "share/icons/hicolor"@);
    law_join_in_steps(share, "icons"@, "hicolor"@);
    assert("icons"@.push('/') + "hicolor"@ =~= "icons/hicolor"@);
    law_joined_name_is_inside(local, "share"@);
    law_joined_name_is_inside(share, "icons"@);
    law_joined_name_is_inside(icons, "hicolor"@);
    law_inside_is_transitive(icons, share, local);
    law_inside_is_transitive(join_path(icons, "hicolor"@), icons, local);
}

proof fn lemma_size_dir_is_inside(theme: Seq<char>, size: u32)
    requires
        theme.len() > 0,
    ensures
        inside(join_path(theme, size_dir(size)), theme),
{
    reveal_strlit("x");
    reveal_strlit("apps");
    reveal_strlit("/apps");
    let number = decimal(size as nat);
    let square = number + "x"@ + number;
    lemma_decimal_has_no_slash(size as nat);
    lemma_suffixed_name(number, "x"@);
    lemma_suffixed_name(number + "x"@, number);
    assert(square[0] == number[0]);
    law_join_in_steps(theme, square, "apps"@);
    assert(square.push('/') + "apps"@ =~= size_dir(size));
    law_joined_name_is_inside(theme, square);
    law_joined_name_is_inside(join_path(theme, square), "apps"@);
    law_inside_is_transitive(
        join_path(join_path(theme, square), "apps"@),
        join_path(theme, square),
        theme,
    );
}

proof fn lemma_decimal_has_no_slash(n: nat)
    ensures
        decimal(n).len() > 0,
        !has_char(decimal(n), '/'),
    decreases n,
{
    let d = decimal(n);
    if n >= 10 {
        lemma_decimal_has_no_slash(n / 10);
    }
    if has_char(d, '/') {
        let i = choose|i: int| 0 <= i < d.len() && d[i] == '/';
        if n >= 10 && i < d.len() - 1 {
            assert(decimal(n / 10)[i] == '/');
        } else {
            let k = n % 10;
            assert(d[i] == digit(k));
            assert('0' as u32 <= '0' as u32 + k <= '9' as u32);
        }
    }
}

/// Removing what was just installed takes away what the installation put
/// there: the record, the binary, the icons under their name and the menu
/// entry. The records of the other installs stay as they were.
pub proof fn law_uninstall_undoes_install(
    es: Seq<EntryView>,
    dirs: DirsView,
    appimage: Seq<char>,
    file: Seq<char>,
    keys: Seq<Pair>,
)
    ensures
        ({
            let record = install_record(dirs, appimage, file, keys);
            let after = upserted(es, record);
            &&& find(after, record.name) == Some(record)
            &&& removed(after, record.name) == removed(es, record.name)
            &&& find(es, record.name) is None ==> removed(after, record.name) == es
            &&& inside(record.binary, dirs.bin)
            &&& record.binary == binary_path(dirs, record.name)
            &&& record.icon == record.name
            &&& join_path(dirs.applications, record.desktop) == entry_path(dirs, record.name)
        }),
{
    let record = install_record(dirs, appimage, file, keys);
    let after = upserted(es, record);
    law_upsert_then_get(es, record);
    lemma_name_pos(es, record.name);
    lemma_name_pos(after, record.name);
    let k = name_pos(es, record.name) as int;
    assert forall|i: int| 0 <= i < k implies (#[trigger] after[i]).name != record.name by {
        assert(after[i] == es[i]);
    }
    assert(after[k].name == record.name);
    lemma_name_pos_is(after, record.name, k);
    assert(removed(after, record.name) =~= removed(es, record.name));
    reveal_strlit(".AppImage");
    lemma_install_name_has_no_slash(keys, file);
    lemma_suffixed_name(record.name, ".AppImage"@);
    law_joined_name_is_inside(dirs.bin, record.name + ".AppImage"@);
}

/// A text that stands at the end of a line as it is.
spec fn line_end(s: Seq<char>) -> bool {
    trim_end(s) == s && !has_char(s, '\n')
}

proof fn lemma_rewritten_exec_line(exec: Seq<char>, bin: Seq<char>)
    requires
        line_end(exec),
        line_end(bin),
    ensures
        line_end(rewritten_exec(exec, bin)),
{
    let r = rewritten_exec(exec, bin);
    let s = trim_start(exec);
    let rest = s.skip(space_pos(s) as int);
    let args = trim_start(rest);
    lemma_trim_end(exec);
    lemma_trim_start(exec);
    lemma_space_pos(s);
    lemma_trim_start(rest);
    if args.len() > 0 {
        reveal_strlit(" ");
        let n = bin.len() + 1;
        assert(args.last() == exec.last());
        assert(r.last() == args.last());
        lemma_trim_id(r);
        if has_char(r, '\n') {
            let i = choose|i: int| 0 <= i < r.len() && r[i] == '\n';
            if i < bin.len() {
                assert(bin[i] == '\n');
            } else if i >= n {
                assert(args[i - n] == '\n');
                assert(exec[exec.len() - args.len() + (i - n)] == '\n');
            }
        }
    }
}

proof fn lemma_menu_keys_writable(
    keys: Seq<Pair>,
    bin: Seq<char>,
    icon: Seq<char>,
    source: Seq<char>,
    display: Seq<char>,
)
    requires
        writable_pairs(keys),
        line_end(bin),
        line_end(icon),
        line_end(source),
        line_end(display),
    ensures
        writable_pairs(menu_keys(keys, bin, icon, source, display)),
{
    reveal_strlit("Exec");
    reveal_strlit("Icon");
    reveal_strlit("Name");
    reveal_strlit("Type");
    reveal_strlit("Application");
    reveal_strlit("true");
    reveal_strlit("X-AppImage-Manager");
    reveal_strlit("X-AppImage-Source");
    reveal_strlit("TryExec");
    reveal_strlit(" %U");
    let exec = menu_exec(keys, bin);
    if lookup(keys, "Exec"@) is Some {
        lemma_lookup_writable(keys, "Exec"@);
        lemma_rewritten_exec_line(lookup(keys, "Exec"@)->0, bin);
    } else {
        lemma_trim_id(exec);
        if has_char(exec, '\n') {
            let i = choose|i: int| 0 <= i < exec.len() && exec[i] == '\n';
            if i < bin.len() {
                assert(bin[i] == '\n');
            }
        }
    }
    lemma_trim_id("Application"@);
    lemma_trim_id("true"@);
    lemma_writable_pair("Exec"@, exec);
    lemma_writable_pair("Icon"@, icon);
    lemma_writable_pair("Name"@, display);
    lemma_writable_pair("Type"@, "Application"@);
    lemma_writable_pair(MARKER_KEY@, "true"@);
    lemma_writable_pair("X-AppImage-Source"@, source);
    lemma_writable_pair("TryExec"@, bin);
    let a = assign(keys, "Exec"@, exec);
    lemma_assign_writable(keys, "Exec"@, exec);
    let b = assign(a, "Icon"@, icon);
    lemma_assign_writable(a, "Icon"@, icon);
    let c = with_default(b, "Name"@, display);
    lemma_assign_writable(b, "Name"@, display);
    let d = with_default(c, "Type"@, "Application"@);
    lemma_assign_writable(c, "Type"@, "Application"@);
    let e = without_key(d, "Hidden"@);
    lemma_without_key_writable(d, "Hidden"@);
    let f = assign(e, MARKER_KEY@, "true"@);
    lemma_assign_writable(e, MARKER_KEY@, "true"@);
    let g = assign(f, "X-AppImage-Source"@, source);
    lemma_assign_writable(f, "X-AppImage-Source"@, source);
    lemma_assign_writable(g, "TryExec"@, bin);
}

proof fn lemma_action_keys_writable(keys: Seq<Pair>, bin: Seq<char>)
    requires
        writable_pairs(keys),
        line_end(bin),
    ensures
        writable_pairs(action_keys(keys, bin)),
{
    reveal_strlit("Exec");
    let after = action_keys(keys, bin);
    assert forall|i: int| 0 <= i < after.len() implies writable_pair(#[trigger] after[i]) by {
        let p = keys[i];
        assert(writable_pair(p));
        assert(after[i] == action_pair(p, bin));
        if p.0 == "Exec"@ {
            lemma_rewritten_exec_line(p.1, bin);
            lemma_writable_pair("Exec"@, rewritten_exec(p.1, bin));
        }
    }
}

/// The menu entry that an installation writes is read back as it was meant: it
/// carries the marker, starts the installed binary, and so counts as an entry
/// of this install.
pub proof fn law_installed_entry_is_recognised(
    dirs: DirsView,
    appimage: Seq<char>,
    file: Seq<char>,
    desktop: DesktopView,
)
    requires
        writable(desktop),
        storable_entry(install_record(dirs, appimage, file, desktop.keys)),
        storable(install_record(dirs, appimage, file, desktop.keys).name),
    ensures
        ({
            let record = install_record(dirs, appimage, file, desktop.keys);
            let entry = menu_entry(
                desktop,
                record.binary,
                record.name,
                appimage,
                record.display_name,
            );
            &&& parsed(written(entry)) == entry
            &&& is_marked(written(entry))
            &&& plain_program(record.binary) ==> started_program(written(entry)) == Some(
                record.binary,
            )
        }),
{
    let record = install_record(dirs, appimage, file, desktop.keys);
    let bin = record.binary;
    let entry = menu_entry(desktop, bin, record.name, appimage, record.display_name);
    lemma_menu_keys_writable(desktop.keys, bin, record.name, appimage, record.display_name);
    assert forall|i: int| 0 <= i < entry.groups.len() implies readable_name(
        (#[trigger] entry.groups[i]).name,
    ) && writable_pairs(entry.groups[i].keys) by {
        let g = desktop.groups[i];
        assert(readable_name(g.name) && writable_pairs(g.keys));
        lemma_action_keys_writable(g.keys, bin);
    }
    desktop::law_write_then_parse(entry);
    law_menu_entry(desktop.keys, bin, record.name, appimage, record.display_name);
    if plain_program(bin) {
        law_menu_entry_runs_the_binary(desktop.keys, bin);
    }
}

/// An application is listed once it is installed, also by a later run that
/// reads the registry back.
pub proof fn law_installed_app_is_listed(
    es: Seq<EntryView>,
    dirs: DirsView,
    appimage: Seq<char>,
    file: Seq<char>,
    keys: Seq<Pair>,
)
    requires
        forall|i: int| 0 <= i < es.len() ==> storable_entry(#[trigger] es[i]),
        storable_entry(install_record(dirs, appimage, file, keys)),
    ensures
        ({
            let record = install_record(dirs, appimage, file, keys);
            let after = upserted(es, record);
            &&& registry_entries(registry_text(after)) == after
            &&& listed_apps(dirs, after).contains(
                InstalledView {
                    name: record.name,
                    display_name: record.display_name,
                    binary: record.binary,
                    desktop: entry_path(dirs, record.name),
                    xdg_warning: None,
                },
            )
        }),
{
    let record = install_record(dirs, appimage, file, keys);
    let after = upserted(es, record);
    lemma_name_pos(es, record.name);
    assert forall|i: int| 0 <= i < after.len() implies storable_entry(#[trigger] after[i]) by {
        if i < es.len() && i != name_pos(es, record.name) {
            assert(after[i] == es[i]);
        }
    }
    law_write_then_parse(after);
    let k = name_pos(es, record.name) as int;
    assert(after[k] == record);
    let app = InstalledView {
        name: record.name,
        display_name: record.display_name,
        binary: record.binary,
        desktop: entry_path(dirs, record.name),
        xdg_warning: None,
    };
    assert(listed_apps(dirs, after)[k] == app);
}

/// The menu entry of an install is never a duplicate of it.
pub proof fn law_installed_entry_is_kept(
    es: Seq<EntryView>,
    dirs: DirsView,
    appimage: Seq<char>,
    file: Seq<char>,
    keys: Seq<Pair>,
    f: DirFileView,
)
    requires
        f.file_name == desktop_file(install_record(dirs, appimage, file, keys).name),
    ensures
        ({
            let after = upserted(es, install_record(dirs, appimage, file, keys));
            !points_at(f, managed_binaries(after), managed_entries(after))
        }),
{
    let record = install_record(dirs, appimage, file, keys);
    let after = upserted(es, record);
    lemma_name_pos(es, record.name);
    let k = name_pos(es, record.name) as int;
    assert(after[k] == record);
    law_prune_takes_only_duplicates(after, f);
}

} // verus!
