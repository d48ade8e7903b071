//! What an installation puts where, and what a removal takes away.
use vstd::prelude::*;

use crate::appimage::appimage_error_text;
use crate::desktop::{assign, key_pos, lemma_key_pos, lookup, parsed, without_key, writable, written,
    DesktopView, Pair};
use crate::failure::{IoFailure, ToolOutput};
use crate::installer::{any_success, any_written, desktop_file, desktop_path, dirs_of, following,
    helper_failure, icon_cache_args, icon_path, in_list, install_error_text, install_record,
    is_icon_removal, is_installation, is_marked, is_one_of, is_required, is_uninstallation,
    law_installed_entry_is_recognised, law_menu_entry, law_rewritten_exec_keeps_the_arguments,
    law_rewritten_exec_runs_the_binary, legacy_file, lemma_install_name_has_no_slash, listed_apps,
    menu_entry, menu_exec, menu_keys, migrated_record, plain_program, pointing, points_at, program,
    removal_sizes, rewritten_exec, started_program, unquoted, with_default, with_migrations,
    DirFileView, DirsView, IconRemoval, InstallError, InstallStep, Installation, MigrationOutcome,
    Uninstallation, EXECUTABLE_MODE, FALLBACK_ICON_SIZE, MARKER_KEY};
use crate::laws::paths::{law_file_name, law_join_path, law_stem};
use crate::laws::text::{blank, law_split};
use crate::metadata::{app_install_name, metadata_error_text};
use crate::paths::{inside, join_path, same_path};
use crate::registry::{find, law_upsert_then_get, storable, storable_entry, upserted, EntryView};
use crate::text::{decimal, lemma_space_pos_is, lemma_split_append, lemma_trim_start_is, opt_string,
    space_pos, split, texts, trim_start, utf8_lossy, whitespace, words};

verus! {

// ---------------------------------------------------------------------------
// File names and paths
// ---------------------------------------------------------------------------
/// The files of an install are named after it, whatever its name holds.
pub proof fn law_file_names(name: Seq<char>)
    ensures
        desktop_file(name) == name + ".desktop"@,
        legacy_file(name) == "appimage-manager-"@ + name + ".desktop"@,
{
}

/// The directories for the binaries and the menu entries of a user.
pub proof fn law_dirs(home: Seq<char>)
    requires
        home.len() > 0,
        home.last() != '/',
    ensures
        dirs_of(home).bin == home + "/.local/bin"@,
        dirs_of(home).applications == home + "/.local/share/applications"@,
{
    reveal_strlit(".local");
    reveal_strlit("bin");
    reveal_strlit("share");
    reveal_strlit("applications");
    reveal_strlit("/.local/bin");
    reveal_strlit("/.local/share/applications");
    let local = home + seq!['/'] + ".local"@;
    law_join_path(home, ".local"@);
    assert(local.last() == 'l');
    law_join_path(local, "bin"@);
    assert(dirs_of(home).bin =~= home + "/.local/bin"@);
    let share = local + seq!['/'] + "share"@;
    law_join_path(local, "share"@);
    assert(share.last() == 'e');
    law_join_path(share, "applications"@);
    assert(dirs_of(home).applications =~= home + "/.local/share/applications"@);
}

/// Where the icon of an install is in the user's own theme, by its size.
pub proof fn law_icon_path(home: Seq<char>, size: u32, name: Seq<char>)
    requires
        home.len() > 0,
        home.last() != '/',
        name.len() == 0 || name[0] != '/',
    ensures
        icon_path(home, size, name) == home + "/.local/share/icons/hicolor/"@ + decimal(
            size as nat,
        ) + "x"@ + decimal(size as nat) + "/apps/"@ + name + ".png"@,
        icon_cache_args(home) == seq![
            "--force"@,
            "--ignore-theme-index"@,
            "--quiet"@,
            home + "/.local/share/icons/hicolor"@,
        ],
{
    reveal_strlit(".local/share/icons/hicolor");
    reveal_strlit("/.local/share/icons/hicolor");
    reveal_strlit("/.local/share/icons/hicolor/");
    reveal_strlit("x");
    reveal_strlit("/apps");
    reveal_strlit("/apps/");
    reveal_strlit(".png");
    let d = decimal(size as nat);
    crate::laws::text::law_decimal(size);
    let theme = home + seq!['/'] + ".local/share/icons/hicolor"@;
    law_join_path(home, ".local/share/icons/hicolor"@);
    assert(theme =~= home + "/.local/share/icons/hicolor"@);
    assert(theme.last() == 'r');
    let square = d + "x"@ + d + "/apps"@;
    assert('0' <= d[0] <= '9');
    assert(square[0] == d[0]);
    law_join_path(theme, square);
    let sized = theme + seq!['/'] + square;
    assert(sized.last() == 's');
    law_join_path(sized, name + ".png"@);
    let file = name + ".png"@;
    assert(file[0] != '/') by {
        if name.len() > 0 {
            assert(file[0] == name[0]);
        } else {
            assert(file[0] == '.');
        }
    }
    assert(icon_path(home, size, name) =~= home + "/.local/share/icons/hicolor/"@ + d + "x"@ + d
        + "/apps/"@ + name + ".png"@);
    assert(icon_cache_args(home) =~= seq![
        "--force"@,
        "--ignore-theme-index"@,
        "--quiet"@,
        home + "/.local/share/icons/hicolor"@,
    ]);
}

// ---------------------------------------------------------------------------
// Exec values
// ---------------------------------------------------------------------------
proof fn lemma_first_field(before: Seq<char>, word: Seq<char>, rest: Seq<char>)
    requires
        blank(before),
        word.len() > 0,
        forall|i: int| 0 <= i < word.len() ==> !whitespace(#[trigger] word[i]),
        rest.len() > 0 ==> whitespace(rest[0]),
    ensures
        trim_start(before + word + rest) == word + rest,
        space_pos(word + rest) == word.len(),
        (word + rest).take(word.len() as int) == word,
        (word + rest).skip(word.len() as int) == rest,
{
    let s = before + word + rest;
    let t = word + rest;
    assert forall|i: int| 0 <= i < before.len() implies whitespace(s[i]) by {
        assert(whitespace(before[i]));
    }
    assert(s[before.len() as int] == word[0]);
    lemma_trim_start_is(s, before.len() as int);
    assert(s.skip(before.len() as int) =~= t);
    assert forall|i: int| 0 <= i < word.len() implies !whitespace(t[i]) by {
        assert(t[i] == word[i]);
    }
    if rest.len() > 0 {
        assert(t[word.len() as int] == rest[0]);
    }
    lemma_space_pos_is(t, word.len() as int);
    assert(t.take(word.len() as int) =~= word);
    assert(t.skip(word.len() as int) =~= rest);
}

/// The first word of a value gives way to the installed binary; everything from
/// the second word on stays, character by character, behind one blank.
pub proof fn law_rewritten_exec(
    before: Seq<char>,
    word: Seq<char>,
    gap: Seq<char>,
    args: Seq<char>,
    bin: Seq<char>,
)
    requires
        blank(before),
        blank(gap),
        word.len() > 0,
        forall|i: int| 0 <= i < word.len() ==> !whitespace(#[trigger] word[i]),
        args.len() > 0,
        !whitespace(args[0]),
    ensures
        gap.len() > 0 ==> rewritten_exec(before + word + gap + args, bin) == bin + seq![' '] + args,
        rewritten_exec(before + word + gap, bin) == bin,
        rewritten_exec(before, bin) == bin,
{
    reveal_strlit(" ");
    assert(" "@ =~= seq![' ']);
    if gap.len() > 0 {
        assert(whitespace(gap[0]));
        let rest = gap + args;
        assert(rest[0] == gap[0]);
        lemma_first_field(before, word, rest);
        assert(before + word + gap + args =~= before + word + rest);
        assert forall|i: int| 0 <= i < gap.len() implies whitespace(rest[i]) by {
            assert(whitespace(gap[i]));
        }
        assert(rest[gap.len() as int] == args[0]);
        lemma_trim_start_is(rest, gap.len() as int);
        assert(rest.skip(gap.len() as int) =~= args);
    }
    lemma_first_field(before, word, gap);
    lemma_trim_start_is(gap, gap.len() as int);
    assert(trim_start(gap).len() == 0);
    lemma_trim_start_is(before, before.len() as int);
    let none = trim_start(before);
    assert(none.len() == 0);
    assert(space_pos(none) == 0);
    assert(none.skip(0).len() == 0);
    assert(trim_start(none.skip(0)).len() == 0);
}

/// The program of a value is its first word, where that is not in quotes.
pub proof fn law_plain_program(before: Seq<char>, word: Seq<char>, rest: Seq<char>)
    requires
        blank(before),
        word.len() > 0,
        word[0] != '"',
        forall|i: int| 0 <= i < word.len() ==> !whitespace(#[trigger] word[i]),
        rest.len() > 0 ==> whitespace(rest[0]),
    ensures
        program(before + word + rest) == Some(word),
        program(before) is None,
{
    lemma_first_field(before, word, rest);
    assert((word + rest)[0] == word[0]);
    lemma_trim_start_is(before, before.len() as int);
}

/// A program in quotes is read up to the closing quote or the end, character by
/// character; a backslash stands for the character behind it, a quote among them.
pub proof fn law_quoted_field(before: Seq<char>, c: char, s: Seq<char>)
    requires
        blank(before),
    ensures
        program(before + seq!['"'] + s) == Some(unquoted(s)),
        unquoted(Seq::<char>::empty()) == Seq::<char>::empty(),
        unquoted(seq!['"'] + s) == Seq::<char>::empty(),
        unquoted(seq!['\\', c] + s) == seq![c] + unquoted(s),
        unquoted(seq!['\\']) == Seq::<char>::empty(),
        c != '"' && c != '\\' ==> unquoted(seq![c] + s) == seq![c] + unquoted(s),
{
    let e = before + seq!['"'] + s;
    let n = before.len() as int;
    assert forall|i: int| 0 <= i < n implies whitespace(e[i]) by {
        assert(whitespace(before[i]));
    }
    assert(e[n] == '"');
    lemma_trim_start_is(e, n);
    assert(e.skip(n).skip(1) =~= s);
    assert((seq!['\\', c] + s).skip(2) =~= s);
    assert((seq![c] + s).skip(1) =~= s);
}

// ---------------------------------------------------------------------------
// The menu entry
// ---------------------------------------------------------------------------
/// The menu entry has every group that the AppImage's own entry has, each with
/// every pair that it has there, under the same names and in the same order. In
/// every one of them `Exec` starts the installed binary with the arguments it
/// had, and everything else stays as it is.
pub proof fn law_every_action_is_rewritten(
    src: DesktopView,
    bin: Seq<char>,
    icon: Seq<char>,
    source: Seq<char>,
    display: Seq<char>,
    i: int,
    j: int,
)
    requires
        0 <= i < src.groups.len(),
        0 <= j < src.groups[i].keys.len(),
    ensures
        ({
            let out = menu_entry(src, bin, icon, source, display).groups;
            let old_pair = src.groups[i].keys[j];
            let new_pair = out[i].keys[j];
            &&& out.len() == src.groups.len()
            &&& out[i].name == src.groups[i].name
            &&& out[i].keys.len() == src.groups[i].keys.len()
            &&& new_pair.0 == old_pair.0
            &&& old_pair.0 != "Exec"@ ==> new_pair.1 == old_pair.1
            &&& old_pair.0 == "Exec"@ && plain_program(bin) ==> program(new_pair.1) == Some(bin)
            &&& old_pair.0 == "Exec"@ && plain_program(bin) && words(old_pair.1).len() > 0
                ==> words(new_pair.1) == seq![bin] + words(old_pair.1).drop_first()
            &&& old_pair.0 == "Exec"@ ==> new_pair.1 == rewritten_exec(old_pair.1, bin)
        }),
{
    let old_pair = src.groups[i].keys[j];
    if plain_program(bin) {
        law_rewritten_exec_runs_the_binary(old_pair.1, bin);
        if words(old_pair.1).len() > 0 {
            law_rewritten_exec_keeps_the_arguments(old_pair.1, bin);
        }
    }
}

/// A group without pairs is kept too, and no group is added.
pub proof fn law_groups_are_kept(
    src: DesktopView,
    bin: Seq<char>,
    icon: Seq<char>,
    source: Seq<char>,
    display: Seq<char>,
)
    ensures
        ({
            let out = menu_entry(src, bin, icon, source, display).groups;
            &&& menu_entry(src, bin, icon, source, display).keys == menu_keys(
                src.keys,
                bin,
                icon,
                source,
                display,
            )
            &&& out.len() == src.groups.len()
            &&& forall|i: int|
                0 <= i < out.len() ==> (#[trigger] out[i]).name == src.groups[i].name
                    && out[i].keys.len() == src.groups[i].keys.len()
        }),
{
}

/// The menu entry starts the installed binary with the arguments of the
/// AppImage's own entry, or with the files to open where that says nothing.
pub proof fn law_menu_exec(keys: Seq<Pair>, bin: Seq<char>)
    ensures
        lookup(keys, "Exec"@) matches Some(exec) ==> {
            &&& menu_exec(keys, bin) == rewritten_exec(exec, bin)
            &&& plain_program(bin) && words(exec).len() > 0 ==> words(menu_exec(keys, bin))
                == seq![bin] + words(exec).drop_first()
        },
        lookup(keys, "Exec"@) is None ==> menu_exec(keys, bin) == bin + " %U"@,
{
    if lookup(keys, "Exec"@) is Some && plain_program(bin) {
        let exec = lookup(keys, "Exec"@)->0;
        if words(exec).len() > 0 {
            law_rewritten_exec_keeps_the_arguments(exec, bin);
        }
    }
}

/// Is this none of the keys that a menu entry sets or drops?
pub open spec fn other_key(k: Seq<char>) -> bool {
    &&& k != "Exec"@
    &&& k != "Icon"@
    &&& k != "Name"@
    &&& k != "Type"@
    &&& k != "Hidden"@
    &&& k != "X-AppImage-Manager"@
    &&& k != "X-AppImage-Source"@
    &&& k != "TryExec"@
}

proof fn lemma_assign_other(keys: Seq<Pair>, key: Seq<char>, value: Seq<char>)
    requires
        !other_key(key),
    ensures
        assign(keys, key, value).filter(|p: Pair| other_key(p.0)) == keys.filter(
            |p: Pair| other_key(p.0),
        ),
{
    let pred = |p: Pair| other_key(p.0);
    lemma_key_pos(keys, key);
    let k = key_pos(keys, key) as int;
    reveal_with_fuel(Seq::filter, 2);
    if k < keys.len() {
        let a = keys.take(k);
        let b = keys.skip(k + 1);
        let x = seq![keys[k]];
        let y = seq![(key, value)];
        assert(keys =~= a + x + b);
        assert(assign(keys, key, value) =~= a + y + b);
        Seq::filter_distributes_over_add(a + x, b, pred);
        Seq::filter_distributes_over_add(a + y, b, pred);
        Seq::filter_distributes_over_add(a, x, pred);
        Seq::filter_distributes_over_add(a, y, pred);
        assert(x.drop_last() =~= seq![]);
        assert(y.drop_last() =~= seq![]);
        assert(x.filter(pred) =~= seq![]);
        assert(y.filter(pred) =~= seq![]);
    } else {
        assert(assign(keys, key, value).drop_last() =~= keys);
    }
}

proof fn lemma_without_other(keys: Seq<Pair>, key: Seq<char>)
    requires
        !other_key(key),
    ensures
        without_key(keys, key).filter(|p: Pair| other_key(p.0)) == keys.filter(
            |p: Pair| other_key(p.0),
        ),
    decreases keys.len(),
{
    reveal(Seq::filter);
    if keys.len() > 0 {
        lemma_without_other(keys.drop_last(), key);
        let rest = without_key(keys.drop_last(), key);
        if keys.last().0 != key {
            assert(without_key(keys, key).drop_last() =~= rest);
        }
    }
}

/// Every pair of the AppImage's own entry under another key, such as its
/// categories, its MIME types or its name in other languages, is in the menu
/// entry as it was and in the same order, and no other pair is.
pub proof fn law_menu_keeps_the_rest(
    keys: Seq<Pair>,
    bin: Seq<char>,
    icon: Seq<char>,
    source: Seq<char>,
    display: Seq<char>,
)
    ensures
        menu_keys(keys, bin, icon, source, display).filter(|p: Pair| other_key(p.0)) == keys.filter(
            |p: Pair| other_key(p.0),
        ),
{
    let a = assign(keys, "Exec"@, menu_exec(keys, bin));
    lemma_assign_other(keys, "Exec"@, menu_exec(keys, bin));
    let b = assign(a, "Icon"@, icon);
    lemma_assign_other(a, "Icon"@, icon);
    let c = with_default(b, "Name"@, display);
    lemma_assign_other(b, "Name"@, display);
    let d = with_default(c, "Type"@, "Application"@);
    lemma_assign_other(c, "Type"@, "Application"@);
    let e = without_key(d, "Hidden"@);
    lemma_without_other(d, "Hidden"@);
    let f = assign(e, MARKER_KEY@, "true"@);
    lemma_assign_other(e, MARKER_KEY@, "true"@);
    let g = assign(f, "X-AppImage-Source"@, source);
    lemma_assign_other(f, "X-AppImage-Source"@, source);
    lemma_assign_other(g, "TryExec"@, bin);
}

/// The marker that a menu entry carries is the one that is looked for.
pub proof fn law_marker(content: Seq<char>)
    ensures
        is_marked(content) <==> lookup(parsed(content).keys, "X-AppImage-Manager"@) == Some(
            "true"@,
        ),
        forall|exec: Seq<char>|
            lookup(parsed(content).keys, "Exec"@) == Some(exec) ==> started_program(content)
                == #[trigger] program(exec),
        lookup(parsed(content).keys, "Exec"@) is None ==> started_program(content) is None,
{
}

// ---------------------------------------------------------------------------
// Installing
// ---------------------------------------------------------------------------
/// An installation puts the AppImage and the menu entry where they belong, under
/// the name of the install, and records exactly that.
pub proof fn law_installation(
    r: Installation,
    dirs: DirsView,
    appimage: Seq<char>,
    file: Seq<char>,
    desktop: DesktopView,
)
    requires
        is_installation(r, dirs, appimage, file, desktop),
        dirs.bin.len() > 0,
        dirs.bin.last() != '/',
        dirs.applications.len() > 0,
        dirs.applications.last() != '/',
    ensures
        ({
            let name = app_install_name(desktop.keys, file);
            &&& r.name@ == name
            &&& r.binary@ == dirs.bin + seq!['/'] + name + ".AppImage"@
            &&& r.entry.path@ == dirs.applications + seq!['/'] + name + ".desktop"@
            &&& r.display_name@ == (match lookup(desktop.keys, "Name"@) {
                Some(shown) => shown,
                None => name,
            })
            &&& r.entry.content@ == written(
                menu_entry(desktop, r.binary@, name, appimage, r.display_name@),
            )
            &&& r.record@ == (EntryView {
                name,
                display_name: r.display_name@,
                binary: r.binary@,
                desktop: name + ".desktop"@,
                icon: name,
                source: appimage,
            })
        }),
{
    reveal_strlit(".AppImage");
    reveal_strlit(".desktop");
    let name = app_install_name(desktop.keys, file);
    lemma_install_name_has_no_slash(desktop.keys, file);
    let bin = name + ".AppImage"@;
    let entry = name + ".desktop"@;
    if name.len() > 0 {
        assert(name[0] != '/');
        assert(bin[0] == name[0] && entry[0] == name[0]);
    } else {
        assert(bin[0] == '.' && entry[0] == '.');
    }
    law_join_path(dirs.bin, bin);
    law_join_path(dirs.applications, entry);
    assert(r.binary@ =~= dirs.bin + seq!['/'] + name + ".AppImage"@);
    assert(r.entry.path@ =~= dirs.applications + seq!['/'] + name + ".desktop"@);
}

/// The steps of an installation follow one another in this order, none is left
/// out, and these three can make it fail.
pub proof fn law_install_steps(step: InstallStep)
    ensures
        following(InstallStep::CopyBinary) == Some(InstallStep::InstallIcons),
        following(InstallStep::InstallIcons) == Some(InstallStep::WriteEntry),
        following(InstallStep::WriteEntry) == Some(InstallStep::SaveRegistry),
        following(InstallStep::SaveRegistry) == Some(InstallStep::PruneDuplicates),
        following(InstallStep::PruneDuplicates) == Some(InstallStep::UpdateDatabase),
        following(InstallStep::UpdateDatabase) == Some(InstallStep::RefreshIcons),
        following(InstallStep::RefreshIcons) == Some(InstallStep::RebuildMenu),
        following(step) is None <==> step is RebuildMenu,
        is_required(step) <==> step is CopyBinary || step is WriteEntry || step is SaveRegistry,
{
}

/// An installed AppImage can be read, changed and run by its user, and by nobody
/// else.
pub proof fn law_executable_mode()
    ensures
        EXECUTABLE_MODE == 0o700,
        EXECUTABLE_MODE & 0o700 == 0o700,
        EXECUTABLE_MODE & 0o077 == 0,
{
    assert(0o700u32 & 0o700 == 0o700) by (bit_vector);
    assert(0o700u32 & 0o077 == 0) by (bit_vector);
}

/// One icon that could be installed is enough.
pub proof fn law_any_success(a: Seq<bool>, i: int)
    ensures
        0 <= i < a.len() && a[i] ==> any_success(a),
        (forall|k: int| 0 <= k < a.len() ==> !a[k]) ==> !any_success(a),
{
}

/// A helper that ran to its end in success has nothing to tell; otherwise its
/// name is told, and what it complained of.
pub proof fn law_helper_failure(name: Seq<char>, o: ToolOutput, e: IoFailure)
    ensures
        o.success ==> helper_failure(name, Ok(o)) is None,
        !o.success ==> helper_failure(name, Ok(o)) == Some((name, utf8_lossy(o.stderr@))),
        helper_failure(name, Err(e)) == Some((name, e.message@)),
{
}

/// A directory is in a list that is written with colons where it is the whole of
/// one of its parts; without a list it is nowhere.
pub proof fn law_in_list(a: Seq<char>, b: Seq<char>, one: Seq<char>, dir: Seq<char>)
    requires
        forall|i: int| 0 <= i < one.len() ==> one[i] != ':',
    ensures
        in_list(Some(one), dir) <==> one == dir,
        in_list(Some(a + seq![':'] + b), dir) <==> in_list(Some(a), dir) || in_list(Some(b), dir),
        !in_list(None, dir),
{
    law_split(one, ':', seq![]);
    let s = seq![one];
    assert(s[0] == one);
    if one == dir {
        assert(s.contains(dir));
    }
    if s.contains(dir) {
        let i = choose|i: int| 0 <= i < s.len() && s[i] == dir;
        assert(s[i] == one);
    }
    lemma_split_append(a, ':', b);
    assert(a + seq![':'] + b =~= a.push(':') + b);
    let x = split(a, ':');
    let y = split(b, ':');
    let all = x + y;
    if all.contains(dir) {
        let i = choose|i: int| 0 <= i < all.len() && all[i] == dir;
        if i < x.len() {
            assert(x[i] == dir);
        } else {
            assert(y[i - x.len()] == dir);
        }
    }
    if x.contains(dir) {
        let i = choose|i: int| 0 <= i < x.len() && x[i] == dir;
        assert(all[i] == dir);
    }
    if y.contains(dir) {
        let i = choose|i: int| 0 <= i < y.len() && y[i] == dir;
        assert(all[i + x.len()] == dir);
    }
}

// ---------------------------------------------------------------------------
// Imports of earlier installs
// ---------------------------------------------------------------------------
/// An install that only its menu entry records is imported as it was recorded
/// there: with its binary, its name, its icon and where it came from.
pub proof fn law_import_reads_the_entry_back(
    dirs: DirsView,
    appimage: Seq<char>,
    file: Seq<char>,
    desktop: DesktopView,
)
    requires
        writable(desktop),
        storable_entry(install_record(dirs, appimage, file, desktop.keys)),
        storable(install_record(dirs, appimage, file, desktop.keys).name),
        plain_program(install_record(dirs, appimage, file, desktop.keys).binary),
    ensures
        ({
            let record = install_record(dirs, appimage, file, desktop.keys);
            let content = written(
                menu_entry(desktop, record.binary, record.name, appimage, record.display_name),
            );
            is_marked(content) && migrated_record(dirs, record.name, content) == record
        }),
{
    let record = install_record(dirs, appimage, file, desktop.keys);
    law_installed_entry_is_recognised(dirs, appimage, file, desktop);
    law_menu_entry(desktop.keys, record.binary, record.name, appimage, record.display_name);
    let content = written(
        menu_entry(desktop, record.binary, record.name, appimage, record.display_name),
    );
    assert(migrated_record(dirs, record.name, content) =~= record);
}

/// What an import records, value by value: what the menu entry says, and where it
/// says nothing what an install of that name has.
pub proof fn law_migrated_record(dirs: DirsView, name: Seq<char>, content: Seq<char>)
    ensures
        ({
            let keys = parsed(content).keys;
            let record = migrated_record(dirs, name, content);
            &&& record.name == name
            &&& record.desktop == name + ".desktop"@
            &&& lookup(keys, "Name"@) matches Some(shown) ==> record.display_name == shown
            &&& lookup(keys, "Name"@) is None ==> record.display_name == name
            &&& lookup(keys, "Icon"@) matches Some(icon) ==> record.icon == icon
            &&& lookup(keys, "Icon"@) is None ==> record.icon == name
            &&& lookup(keys, "X-AppImage-Source"@) matches Some(source) ==> record.source == source
            &&& lookup(keys, "X-AppImage-Source"@) is None ==> record.source.len() == 0
            &&& started_program(content) matches Some(bin) ==> record.binary == bin
            &&& started_program(content) is None ==> record.binary == join_path(
                dirs.bin,
                name + ".AppImage"@,
            )
        }),
{
}

/// An import is recorded like any other install, and one whose menu entry could not
/// be written changes nothing.
pub proof fn law_one_import(
    es: Seq<EntryView>,
    outcomes: Seq<MigrationOutcome>,
    last: MigrationOutcome,
)
    ensures
        with_migrations(es, Seq::<MigrationOutcome>::empty()) == es,
        last.written ==> with_migrations(es, outcomes.push(last)) == upserted(
            with_migrations(es, outcomes),
            last.migration.record@,
        ),
        !last.written ==> with_migrations(es, outcomes.push(last)) == with_migrations(es, outcomes),
{
    assert(outcomes.push(last).drop_last() =~= outcomes);
}

/// Every import whose menu entry could be written is recorded as it is, unless a
/// later one of the same name replaces it; what is not imported stays as it was.
pub proof fn law_imports_are_recorded(
    es: Seq<EntryView>,
    outcomes: Seq<MigrationOutcome>,
    name: Seq<char>,
)
    ensures
        (forall|i: int|
            0 <= i < outcomes.len() && (#[trigger] outcomes[i]).written
                ==> outcomes[i].migration.record@.name != name) ==> find(
            with_migrations(es, outcomes),
            name,
        ) == find(es, name),
        forall|k: int|
            #![trigger outcomes[k]]
            0 <= k < outcomes.len() && outcomes[k].written && outcomes[k].migration.record@.name
                == name && (forall|i: int|
                k < i < outcomes.len() && (#[trigger] outcomes[i]).written
                    ==> outcomes[i].migration.record@.name != name) ==> find(
                with_migrations(es, outcomes),
                name,
            ) == Some(outcomes[k].migration.record@),
        any_written(outcomes) <==> exists|i: int|
            0 <= i < outcomes.len() && (#[trigger] outcomes[i]).written,
    decreases outcomes.len(),
{
    if outcomes.len() > 0 {
        let rest = outcomes.drop_last();
        let last = outcomes[outcomes.len() - 1];
        law_imports_are_recorded(es, rest, name);
        law_upsert_then_get(with_migrations(es, rest), last.migration.record@);
        if forall|i: int|
            0 <= i < outcomes.len() && (#[trigger] outcomes[i]).written
                ==> outcomes[i].migration.record@.name != name {
            assert forall|i: int| 0 <= i < rest.len() && (#[trigger] rest[i]).written implies
                rest[i].migration.record@.name != name by {
                assert(outcomes[i].written);
            }
            if last.written {
                assert(outcomes[outcomes.len() - 1].migration.record@.name != name);
            }
        }
        assert forall|k: int|
            #![trigger outcomes[k]]
            0 <= k < outcomes.len() && outcomes[k].written && outcomes[k].migration.record@.name
                == name && (forall|i: int|
                k < i < outcomes.len() && (#[trigger] outcomes[i]).written
                    ==> outcomes[i].migration.record@.name != name) implies find(
            with_migrations(es, outcomes),
            name,
        ) == Some(outcomes[k].migration.record@) by {
            if k < rest.len() {
                assert(rest[k] == outcomes[k]);
                assert forall|i: int| k < i < rest.len() && (#[trigger] rest[i]).written implies
                    rest[i].migration.record@.name != name by {
                    assert(outcomes[i].written);
                }
                if last.written {
                    assert(outcomes[outcomes.len() - 1].migration.record@.name != name);
                }
            }
        }
    }
}

// ---------------------------------------------------------------------------
// Duplicates
// ---------------------------------------------------------------------------
/// A file is a menu entry by the end of its name, whatever stands before it.
pub proof fn law_desktop_path(dir: Seq<char>, start: Seq<char>, end: Seq<char>)
    requires
        dir.len() > 0,
        start.len() > 0,
        forall|i: int| 0 <= i < start.len() ==> start[i] != '/',
        forall|i: int| 0 <= i < end.len() ==> end[i] != '/' && end[i] != '.',
        end.len() > 0,
    ensures
        desktop_path(dir + seq!['/'] + (start + seq!['.'] + end)) <==> end == "desktop"@,
        !desktop_path(dir + seq!['/'] + end),
{
    let name = start + seq!['.'] + end;
    assert forall|i: int| 0 <= i < name.len() implies name[i] != '/' by {
        if i < start.len() {
            assert(name[i] == start[i]);
        } else if i > start.len() {
            assert(name[i] == end[i - start.len() - 1]);
        }
    }
    assert(name.last() == end.last());
    assert(name.last() != '.');
    law_file_name(dir, name);
    law_stem(start, end);
    assert(end.last() != '.');
    law_file_name(dir, end);
}

/// The files that are removed are those that point at one of the binaries, and no
/// others, in their order.
pub proof fn law_pointing(
    files: Seq<DirFileView>,
    binaries: Seq<Seq<char>>,
    keep: Seq<Seq<char>>,
)
    ensures
        pointing(files, binaries, keep) == files.filter(
            |f: DirFileView| points_at(f, binaries, keep),
        ).map_values(|f: DirFileView| f.path),
    decreases files.len(),
{
    reveal(Seq::filter);
    let pred = |f: DirFileView| points_at(f, binaries, keep);
    let path = |f: DirFileView| f.path;
    if files.len() > 0 {
        law_pointing(files.drop_last(), binaries, keep);
        let rest = files.drop_last().filter(pred);
        if points_at(files.last(), binaries, keep) {
            assert(rest.push(files.last()).map_values(path) =~= rest.map_values(path).push(
                files.last().path,
            ));
        }
        assert(pointing(files, binaries, keep) =~= files.filter(pred).map_values(path));
    } else {
        assert(pointing(files, binaries, keep) =~= files.filter(pred).map_values(path));
    }
}

/// A file points at a binary where it is a menu entry that can be read, starts
/// that binary, however the path is written, and is not to be kept; and at some
/// binaries where it points at one of them.
pub proof fn law_points_at(
    f: DirFileView,
    bin: Seq<char>,
    a: Seq<Seq<char>>,
    b: Seq<Seq<char>>,
    keep: Seq<Seq<char>>,
)
    ensures
        points_at(f, seq![bin], keep) <==> {
            &&& desktop_path(f.path)
            &&& forall|i: int| 0 <= i < keep.len() ==> keep[i] != f.file_name
            &&& f.content matches Some(content) && started_program(content) matches Some(started)
                && same_path(bin, started)
        },
        points_at(f, a + b, keep) <==> points_at(f, a, keep) || points_at(f, b, keep),
        !points_at(f, Seq::<Seq<char>>::empty(), keep),
{
    let bins = seq![bin];
    assert(bins[0] == bin);
    if forall|i: int| 0 <= i < keep.len() ==> keep[i] != f.file_name {
        assert(!keep.contains(f.file_name));
    }
    if f.content is Some && started_program(f.content->0) is Some {
        let started = started_program(f.content->0)->0;
        if same_path(bin, started) {
            assert(same_path(bins[0], started));
        }
        let all = a + b;
        if is_one_of(started, all) {
            let i = choose|i: int| 0 <= i < all.len() && same_path(#[trigger] all[i], started);
            if i < a.len() {
                assert(same_path(a[i], started));
            } else {
                assert(same_path(b[i - a.len()], started));
            }
        }
        if is_one_of(started, a) {
            let i = choose|i: int| 0 <= i < a.len() && same_path(#[trigger] a[i], started);
            assert(same_path(all[i], started));
        }
        if is_one_of(started, b) {
            let i = choose|i: int| 0 <= i < b.len() && same_path(#[trigger] b[i], started);
            assert(same_path(all[i + a.len()], started));
        }
    }
}

// ---------------------------------------------------------------------------
// Listing and removing
// ---------------------------------------------------------------------------
/// Every install that is recorded is listed, in the order of the record, with its
/// name, its display name, its binary and the path of its menu entry.
pub proof fn law_listed_apps(dirs: DirsView, es: Seq<EntryView>, i: int)
    requires
        0 <= i < es.len(),
    ensures
        listed_apps(dirs, es).len() == es.len(),
        listed_apps(dirs, es)[i].name == es[i].name,
        listed_apps(dirs, es)[i].display_name == es[i].display_name,
        listed_apps(dirs, es)[i].binary == es[i].binary,
        listed_apps(dirs, es)[i].desktop == join_path(dirs.applications, es[i].desktop),
        listed_apps(dirs, es)[i].xdg_warning is None,
{
}

/// The removal of an install takes away what its installation put there: the
/// binary, the menu entry and the icons, under the names that they have.
pub proof fn law_uninstallation(
    u: Uninstallation,
    dirs: DirsView,
    appimage: Seq<char>,
    file: Seq<char>,
    keys: Seq<Pair>,
)
    requires
        is_uninstallation(u, dirs, install_record(dirs, appimage, file, keys)),
    ensures
        ({
            let name = app_install_name(keys, file);
            &&& opt_string(u.binary) == Some(join_path(dirs.bin, name + ".AppImage"@))
            &&& name.len() > 0 ==> opt_string(u.icon) == Some(name)
            &&& u.entry@ == join_path(dirs.applications, name + ".desktop"@)
            &&& u.duplicates_of@ == join_path(dirs.bin, name + ".AppImage"@)
        }),
{
    crate::installer::law_uninstall_undoes_install(seq![], dirs, appimage, file, keys);
}

/// A binary is taken away only where it is inside the directory of the binaries;
/// the menu entry, the icons and the duplicates go in any case.
pub proof fn law_uninstallation_of_any_record(u: Uninstallation, dirs: DirsView, e: EntryView)
    requires
        is_uninstallation(u, dirs, e),
    ensures
        inside(e.binary, dirs.bin) ==> opt_string(u.binary) == Some(e.binary),
        !inside(e.binary, dirs.bin) ==> u.binary is None,
        e.icon.len() > 0 ==> opt_string(u.icon) == Some(e.icon),
        e.icon.len() == 0 ==> u.icon is None,
        u.entry@ == join_path(dirs.applications, e.desktop),
        u.duplicates_of@ == e.binary,
{
}

/// Is this one of the sizes that the icon theme has directories for?
pub open spec fn theme_size(size: u32) -> bool {
    size == 16 || size == 22 || size == 24 || size == 32 || size == 48 || size == 64 || size == 128
        || size == 256 || size == 512 || size == 1024
}

/// An uninstall removes the icon of every size of the theme, that of the fallback
/// icon among them: for each there is one removal that names the size and the
/// install and, where there is a home, the file at the path of that icon.
pub proof fn law_every_icon_size_is_removed(
    r: Seq<IconRemoval>,
    name: Seq<char>,
    home: Option<String>,
    size: u32,
)
    requires
        r.len() == removal_sizes().len(),
        forall|i: int|
            0 <= i < r.len() ==> is_icon_removal(#[trigger] r[i], removal_sizes()[i], name, home),
        theme_size(size) || size == FALLBACK_ICON_SIZE,
    ensures
        exists|k: int|
            {
                &&& 0 <= k < r.len()
                &&& texts((#[trigger] r[k]).args@) == seq![
                    "uninstall"@,
                    "--size"@,
                    decimal(size as nat),
                    name,
                ]
                &&& home is None ==> r[k].file is None
                &&& home matches Some(h) ==> opt_string(r[k].file) == Some(
                    icon_path(h@, size, name),
                )
            },
        r.len() == 10,
        FALLBACK_ICON_SIZE == 512,
{
    let s = removal_sizes();
    assert(s[0] == 16 && s[1] == 22 && s[2] == 24 && s[3] == 32 && s[4] == 48 && s[5] == 64 && s[6]
        == 128 && s[7] == 256 && s[8] == 512 && s[9] == 1024);
    assert(s.contains(size));
    let k = choose|k: int| 0 <= k < s.len() && s[k] == size;
    assert(is_icon_removal(r[k], s[k], name, home));
}

// ---------------------------------------------------------------------------
// Errors
// ---------------------------------------------------------------------------
/// An error is told in the words of what caused it.
pub proof fn law_install_error_text(e: InstallError)
    ensures
        e matches InstallError::AppImage(cause) ==> install_error_text(e) == appimage_error_text(
            cause,
        ),
        e matches InstallError::Metadata(cause) ==> install_error_text(e) == metadata_error_text(
            cause@,
        ),
        e matches InstallError::Io(cause) ==> cause.message@.is_suffix_of(install_error_text(e)),
        e matches InstallError::HelperMissing(name) ==> name@.is_suffix_of(install_error_text(e)),
        e matches InstallError::HelperFailed(name, message) ==> message@.is_suffix_of(
            install_error_text(e),
        ),
{
    let t = install_error_text(e);
    match e {
        InstallError::Io(cause) => {
            assert(t.skip(t.len() - cause.message@.len()) =~= cause.message@);
        },
        InstallError::HelperMissing(name) => {
            assert(t.skip(t.len() - name@.len()) =~= name@);
        },
        InstallError::HelperFailed(name, message) => {
            assert(t.skip(t.len() - message@.len()) =~= message@);
        },
        _ => {},
    }
}

} // verus!
