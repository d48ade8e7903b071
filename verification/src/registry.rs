//! Persistent record of the AppImages that were installed.
//!
//! The record is a small INI-like text, readable and fixable by hand:
//!
//! ```text
//! [zcode]
//! display=ZCode
//! binary=/home/u/.local/bin/zcode.AppImage
//! desktop=zcode.desktop
//! icon=zcode
//! source=/home/u/Downloads/ZCode-3.5.3-x86_64.AppImage
//! ```
//!
//! It is kept apart from the menu entries, so that an application which
//! rewrites its own entry cannot make an install invisible.
use vstd::prelude::*;

use crate::desktop::is_header;
use crate::failure::IoFailure;
use crate::paths::{absolute, is_absolute, join_path, joined_path};
use crate::text::{copy, ended, find_char, from_index, has_char, is_text, lemma_char_pos_is,
    lemma_lines_append, lemma_one_line, lemma_trim_end, lemma_trim_id, lines, opt_string, same,
    slices, split_once, text_lines, to_chars, to_text, trim, trim_end, trimmed, up_to, whitespace,
    without_cr};

verus! {

/// One installed AppImage.
#[derive(Debug)]
pub struct Entry {
    /// Canonical install name (e.g. `zcode`), also the group header.
    pub name: String,
    /// Human-readable name from the desktop entry.
    pub display_name: String,
    /// Absolute path of the installed executable under `~/.local/bin`.
    pub binary: String,
    /// File name (not path) of the menu entry under `~/.local/share/applications`.
    pub desktop: String,
    /// Icon theme name under which the icons were installed.
    pub icon: String,
    /// Where the AppImage was installed from, for reference.
    pub source: String,
}

/// What an [`Entry`] says.
#[verifier::ext_equal]
pub struct EntryView {
    pub name: Seq<char>,
    pub display_name: Seq<char>,
    pub binary: Seq<char>,
    pub desktop: Seq<char>,
    pub icon: Seq<char>,
    pub source: Seq<char>,
}

impl View for Entry {
    type V = EntryView;

    open spec fn view(&self) -> EntryView {
        EntryView {
            name: self.name@,
            display_name: self.display_name@,
            binary: self.binary@,
            desktop: self.desktop@,
            icon: self.icon@,
            source: self.source@,
        }
    }
}

/// What a vector of entries says.
pub open spec fn entry_views(v: Seq<Entry>) -> Seq<EntryView> {
    Seq::new(v.len(), |i: int| v[i]@)
}

/// What an optional entry says.
pub open spec fn opt_entry(o: Option<Entry>) -> Option<EntryView> {
    match o {
        Some(e) => Some(e@),
        None => None,
    }
}

/// What an optional borrowed entry says.
pub open spec fn opt_entry_ref(o: Option<&Entry>) -> Option<EntryView> {
    match o {
        Some(e) => Some(e@),
        None => None,
    }
}

/// An entry of which nothing but the name is known.
pub open spec fn named(name: Seq<char>) -> EntryView {
    EntryView {
        name,
        display_name: seq![],
        binary: seq![],
        desktop: seq![],
        icon: seq![],
        source: seq![],
    }
}

impl Clone for Entry {
    fn clone(&self) -> (r: Self)
        ensures
            r@ == self@,
    {
        Entry {
            name: self.name.clone(),
            display_name: self.display_name.clone(),
            binary: self.binary.clone(),
            desktop: self.desktop.clone(),
            icon: self.icon.clone(),
            source: self.source.clone(),
        }
    }
}

impl Default for Entry {
    fn default() -> (r: Self)
        ensures
            r@ == named(seq![]),
    {
        Entry {
            name: String::new(),
            display_name: String::new(),
            binary: String::new(),
            desktop: String::new(),
            icon: String::new(),
            source: String::new(),
        }
    }
}

// ---------------------------------------------------------------------------
// Reading
// ---------------------------------------------------------------------------
/// The entry with the field of this key set; an unknown key sets nothing.
pub open spec fn with_field(e: EntryView, key: Seq<char>, value: Seq<char>) -> EntryView {
    if key == "display"@ {
        EntryView { display_name: value, ..e }
    } else if key == "binary"@ {
        EntryView { binary: value, ..e }
    } else if key == "desktop"@ {
        EntryView { desktop: value, ..e }
    } else if key == "icon"@ {
        EntryView { icon: value, ..e }
    } else if key == "source"@ {
        EntryView { source: value, ..e }
    } else {
        e
    }
}

/// The entries with the field of this key set in the last of them. Before any
/// entry there is nothing to set.
pub open spec fn with_last_field(
    es: Seq<EntryView>,
    key: Seq<char>,
    value: Seq<char>,
) -> Seq<EntryView> {
    if es.len() == 0 {
        es
    } else {
        es.update(es.len() - 1, with_field(es.last(), key, value))
    }
}

/// The effect of one line.
pub open spec fn read_line(es: Seq<EntryView>, raw: Seq<char>) -> Seq<EntryView> {
    let line = trim(raw);
    if line.len() == 0 || line[0] == '#' {
        es
    } else if is_header(line) {
        es.push(named(line.subrange(1, line.len() - 1)))
    } else {
        match split_once(line, '=') {
            Some((key, value)) => with_last_field(es, trim(key), value),
            None => es,
        }
    }
}

/// The effect of some lines, one after the other.
pub open spec fn read_lines(es: Seq<EntryView>, ls: Seq<Seq<char>>) -> Seq<EntryView>
    decreases ls.len(),
{
    if ls.len() == 0 {
        es
    } else {
        read_line(read_lines(es, ls.drop_last()), ls.last())
    }
}

/// The entries that a text holds.
pub open spec fn registry_entries(content: Seq<char>) -> Seq<EntryView> {
    read_lines(seq![], lines(content))
}

fn set_field(e: &mut Entry, key: &[char], value: &[char])
    ensures
        final(e)@ == with_field(old(e)@, key@, value@),
{
    if is_text(key, "display") {
        e.display_name = to_text(value);
    } else if is_text(key, "binary") {
        e.binary = to_text(value);
    } else if is_text(key, "desktop") {
        e.desktop = to_text(value);
    } else if is_text(key, "icon") {
        e.icon = to_text(value);
    } else if is_text(key, "source") {
        e.source = to_text(value);
    }
}

/// Read the entries from the text of a registry file.
pub fn parse(content: &str) -> (r: Vec<Entry>)
    ensures
        entry_views(r@) == registry_entries(content@),
{
    let chars: Vec<char> = to_chars(content);
    let ls: Vec<&[char]> = text_lines(chars.as_slice());
    let mut out: Vec<Entry> = Vec::new();
    let mut i: usize = 0;
    proof {
        assert(entry_views(out@) =~= read_lines(seq![], lines(content@).take(0)));
    }
    while i < ls.len()
        invariant
            i <= ls.len(),
            slices(ls@) == lines(content@),
            entry_views(out@) == read_lines(seq![], lines(content@).take(i as int)),
        decreases ls.len() - i,
    {
        let raw: &[char] = ls[i];
        let ghost before = entry_views(out@);
        i = i + 1;
        proof {
            assert(lines(content@).take(i as int).drop_last() =~= lines(content@).take(i - 1));
            assert(raw@ == slices(ls@)[i - 1]);
        }
        let line: &[char] = trimmed(raw);
        if line.len() == 0 || line[0] == '#' {
            continue;
        }
        if line[0] == '[' && line[line.len() - 1] == ']' {
            let mut entry: Entry = Entry::default();
            entry.name = to_text(vstd::slice::slice_subrange(line, 1, line.len() - 1));
            out.push(entry);
            proof {
                assert(entry_views(out@) =~= before.push(entry@));
            }
            continue;
        }
        let eq: usize = find_char(line, '=');
        if eq == line.len() {
            continue;
        }
        match out.pop() {
            Some(last) => {
                let mut entry: Entry = last;
                set_field(&mut entry, trimmed(up_to(line, eq)), from_index(line, eq + 1));
                out.push(entry);
                proof {
                    assert(entry_views(out@) =~= with_last_field(
                        before,
                        trim(line@.take(eq as int)),
                        line@.skip(eq + 1),
                    ));
                }
            },
            None => {
                assert(entry_views(out@) =~= before);
            },
        }
    }
    proof {
        assert(lines(content@).take(i as int) =~= lines(content@));
    }
    out
}

// ---------------------------------------------------------------------------
// Writing
// ---------------------------------------------------------------------------
/// The comment at the top of the file.
pub open spec fn preamble() -> Seq<char> {
    "# AppImage Manager — installed AppImages. Managed automatically;\n"@
        + "# edit only if you know what you are doing.\n"@
}

/// A line that sets a field.
pub open spec fn field_line(key: Seq<char>, value: Seq<char>) -> Seq<char> {
    key + "="@ + value + "\n"@
}

/// The lines of one entry.
pub open spec fn entry_text(e: EntryView) -> Seq<char> {
    "\n["@ + e.name + "]\n"@ + field_line("display"@, e.display_name) + field_line(
        "binary"@,
        e.binary,
    ) + field_line("desktop"@, e.desktop) + field_line("icon"@, e.icon) + field_line(
        "source"@,
        e.source,
    )
}

/// The lines of some entries.
pub open spec fn entries_text(es: Seq<EntryView>) -> Seq<char>
    decreases es.len(),
{
    if es.len() == 0 {
        seq![]
    } else {
        entries_text(es.drop_last()) + entry_text(es.last())
    }
}

/// The text of a registry file.
pub open spec fn registry_text(es: Seq<EntryView>) -> Seq<char> {
    preamble() + entries_text(es)
}

fn append_field(out: &mut String, key: &str, value: &str)
    ensures
        final(out)@ == old(out)@ + field_line(key@, value@),
{
    let ghost start = out@;
    out.append(key);
    out.append("=");
    out.append(value);
    out.append("\n");
    assert(out@ =~= start + field_line(key@, value@));
}

/// The text of a registry file with these entries.
pub fn serialize(entries: &Vec<Entry>) -> (r: String)
    ensures
        r@ == registry_text(entry_views(entries@)),
{
    let mut out: String = copy(
        "# AppImage Manager — installed AppImages. Managed automatically;\n",
    );
    out.append("# edit only if you know what you are doing.\n");
    let ghost es = entry_views(entries@);
    let mut i: usize = 0;
    proof {
        assert(out@ =~= preamble() + entries_text(es.take(0)));
    }
    while i < entries.len()
        invariant
            i <= entries.len(),
            es == entry_views(entries@),
            out@ == preamble() + entries_text(es.take(i as int)),
        decreases entries.len() - i,
    {
        let e: &Entry = &entries[i];
        let ghost before = out@;
        out.append("\n[");
        out.append(e.name.as_str());
        out.append("]\n");
        append_field(&mut out, "display", e.display_name.as_str());
        append_field(&mut out, "binary", e.binary.as_str());
        append_field(&mut out, "desktop", e.desktop.as_str());
        append_field(&mut out, "icon", e.icon.as_str());
        append_field(&mut out, "source", e.source.as_str());
        i = i + 1;
        proof {
            assert(es[i - 1] == e@);
            assert(out@ =~= before + entry_text(e@));
            assert(es.take(i as int).drop_last() =~= es.take(i - 1));
            assert(out@ =~= preamble() + entries_text(es.take(i as int)));
        }
    }
    assert(es.take(i as int) =~= es);
    out
}

// ---------------------------------------------------------------------------
// The set of entries
// ---------------------------------------------------------------------------
/// The place of the first entry with this name; the length where there is none.
pub open spec fn name_pos(es: Seq<EntryView>, name: Seq<char>) -> nat
    decreases es.len(),
{
    if es.len() == 0 {
        0
    } else if es[0].name == name {
        0
    } else {
        1 + name_pos(es.drop_first(), name)
    }
}

/// The first entry with this name.
pub open spec fn find(es: Seq<EntryView>, name: Seq<char>) -> Option<EntryView> {
    if name_pos(es, name) < es.len() {
        Some(es[name_pos(es, name) as int])
    } else {
        None
    }
}

/// The entries with `e` in place of the first one of its name, or at the end.
pub open spec fn upserted(es: Seq<EntryView>, e: EntryView) -> Seq<EntryView> {
    if name_pos(es, e.name) < es.len() {
        es.update(name_pos(es, e.name) as int, e)
    } else {
        es.push(e)
    }
}

/// The entries without the first one of this name.
pub open spec fn removed(es: Seq<EntryView>, name: Seq<char>) -> Seq<EntryView> {
    if name_pos(es, name) < es.len() {
        es.remove(name_pos(es, name) as int)
    } else {
        es
    }
}

/// The first entry with this name is where `name_pos` says.
pub proof fn lemma_name_pos(es: Seq<EntryView>, name: Seq<char>)
    ensures
        name_pos(es, name) <= es.len(),
        name_pos(es, name) < es.len() ==> es[name_pos(es, name) as int].name == name,
        forall|i: int| 0 <= i < name_pos(es, name) ==> (#[trigger] es[i]).name != name,
    decreases es.len(),
{
    if es.len() > 0 && es[0].name != name {
        lemma_name_pos(es.drop_first(), name);
        assert forall|i: int| 0 <= i < name_pos(es, name) implies (#[trigger] es[i]).name
            != name by {
            if i > 0 {
                assert(es[i] == es.drop_first()[i - 1]);
            }
        }
    }
}

/// An entry with this name and none before it is where `name_pos` says.
pub proof fn lemma_name_pos_is(es: Seq<EntryView>, name: Seq<char>, k: int)
    requires
        0 <= k <= es.len(),
        forall|i: int| 0 <= i < k ==> (#[trigger] es[i]).name != name,
        k < es.len() ==> es[k].name == name,
    ensures
        name_pos(es, name) == k,
{
    lemma_name_pos(es, name);
    if name_pos(es, name) < k {
        assert(es[name_pos(es, name) as int].name != name);
    }
}

/// The set of installed AppImages and the file that stores it.
#[derive(Debug)]
pub struct Registry {
    entries: Vec<Entry>,
    path: String,
}

/// What a [`Registry`] holds.
#[verifier::ext_equal]
pub struct RegistryView {
    pub entries: Seq<EntryView>,
    pub path: Seq<char>,
}

impl View for Registry {
    type V = RegistryView;

    closed spec fn view(&self) -> RegistryView {
        RegistryView { entries: entry_views(self.entries@), path: self.path@ }
    }
}

impl Default for Registry {
    fn default() -> (r: Self)
        ensures
            r@ == (RegistryView { entries: seq![], path: seq![] }),
    {
        let r: Registry = Registry { entries: Vec::new(), path: String::new() };
        assert(entry_views(r.entries@) =~= seq![]);
        r
    }
}

/// A text and the file that it goes to.
#[derive(Debug)]
pub struct FileWrite {
    pub path: String,
    pub content: String,
}

/// The directory for user data: `$XDG_DATA_HOME` where that is absolute, else
/// `~/.local/share`.
pub open spec fn data_home(
    xdg_data_home: Option<Seq<char>>,
    home: Option<Seq<char>>,
) -> Option<Seq<char>> {
    if xdg_data_home is Some && absolute(xdg_data_home->0) {
        xdg_data_home
    } else if home is Some {
        Some(join_path(home->0, ".local/share"@))
    } else {
        None
    }
}

/// The failure of an operation that needs `HOME` where it is not set.
pub open spec fn home_unset(e: IoFailure) -> bool {
    e.not_found && e.message@ == "HOME is not set"@
}

/// The failure of an operation that needs `HOME` where it is not set.
pub fn home_is_unset() -> (r: IoFailure)
    ensures
        home_unset(r),
{
    IoFailure { not_found: true, message: copy("HOME is not set") }
}

/// `$XDG_DATA_HOME/app-image-manager/installed.list`, or the same below
/// `~/.local/share`, given the two variables.
pub fn registry_path(xdg_data_home: Option<String>, home: Option<String>) -> (r: Result<
    String,
    IoFailure,
>)
    ensures
        match r {
            Ok(path) => {
                &&& data_home(opt_string(xdg_data_home), opt_string(home)) is Some
                &&& path@ == join_path(
                    join_path(
                        data_home(opt_string(xdg_data_home), opt_string(home))->0,
                        "app-image-manager"@,
                    ),
                    "installed.list"@,
                )
            },
            Err(e) => {
                &&& data_home(opt_string(xdg_data_home), opt_string(home)) is None
                &&& home_unset(e)
            },
        },
{
    let mut base: Option<String> = None;
    match xdg_data_home {
        Some(x) => {
            if is_absolute(x.as_str()) {
                base = Some(x);
            }
        },
        None => {},
    }
    if base.is_none() {
        match home {
            Some(h) => {
                base = Some(joined_path(h.as_str(), ".local/share"));
            },
            None => {},
        }
    }
    match base {
        Some(b) => Ok(
            joined_path(
                joined_path(b.as_str(), "app-image-manager").as_str(),
                "installed.list",
            ),
        ),
        None => Err(home_is_unset()),
    }
}

impl Registry {
    /// The registry stored at `path`, given what reading that file gave. A file
    /// that does not exist yet stands for an empty registry.
    pub fn load(path: String, content: Result<String, IoFailure>) -> (r: Result<Self, IoFailure>)
        ensures
            match content {
                Ok(c) => r is Ok && r->Ok_0@ == (RegistryView {
                    entries: registry_entries(c@),
                    path: path@,
                }),
                Err(e) => if e.not_found {
                    r is Ok && r->Ok_0@ == (RegistryView { entries: seq![], path: path@ })
                } else {
                    r == Err::<Self, IoFailure>(e)
                },
            },
    {
        match content {
            Ok(c) => Ok(Registry { entries: parse(c.as_str()), path }),
            Err(e) => {
                if e.not_found {
                    let r: Registry = Registry { entries: Vec::new(), path };
                    assert(entry_views(r.entries@) =~= seq![]);
                    Ok(r)
                } else {
                    Err(e)
                }
            },
        }
    }

    /// The text to store, and where.
    pub fn save(&self) -> (r: FileWrite)
        ensures
            r.path@ == self@.path,
            r.content@ == registry_text(self@.entries),
    {
        FileWrite { path: self.path.clone(), content: serialize(&self.entries) }
    }

    /// The entries, in the order in which they were first recorded.
    pub fn iter(&self) -> (r: core::slice::Iter<'_, Entry>)
        ensures
            entry_views(vstd::std_specs::slice::into_iter_elts(r)) == self@.entries,
            vstd::std_specs::iter::IteratorSpec::decrease(&r) is Some,
            vstd::std_specs::iter::IteratorSpec::initial_value_relation(&r, &r),
    {
        let r: core::slice::Iter<'_, Entry> = self.entries.as_slice().iter();
        proof {
            assert(vstd::std_specs::slice::into_iter_elts(r) =~= self.entries@);
        }
        r
    }

    /// The entries, in the same order.
    pub(crate) fn entries(&self) -> (r: &Vec<Entry>)
        ensures
            entry_views(r@) == self@.entries,
    {
        &self.entries
    }

    fn position(&self, name: &str) -> (r: usize)
        ensures
            r == name_pos(self@.entries, name@),
            r <= self.entries.len(),
    {
        let mut i: usize = 0;
        while i < self.entries.len() && !same(self.entries[i].name.as_str(), name)
            invariant
                i <= self.entries.len(),
                forall|j: int| 0 <= j < i ==> (#[trigger] self@.entries[j]).name != name@,
            decreases self.entries.len() - i,
        {
            assert(self@.entries[i as int].name == self.entries@[i as int].name@);
            i = i + 1;
        }
        proof {
            if i < self.entries.len() {
                assert(self@.entries[i as int].name == self.entries@[i as int].name@);
            }
            lemma_name_pos_is(self@.entries, name@, i as int);
        }
        i
    }

    /// The entry named `name`.
    pub fn get(&self, name: &str) -> (r: Option<&Entry>)
        ensures
            opt_entry_ref(r) == find(self@.entries, name@),
    {
        let i: usize = self.position(name);
        if i < self.entries.len() {
            Some(&self.entries[i])
        } else {
            None
        }
    }

    /// Insert `entry`, replacing any existing one with the same name.
    pub fn upsert(&mut self, entry: Entry)
        ensures
            final(self)@.entries == upserted(old(self)@.entries, entry@),
            final(self)@.path == old(self)@.path,
    {
        let i: usize = self.position(entry.name.as_str());
        let ghost before = entry_views(self.entries@);
        if i < self.entries.len() {
            self.entries.set(i, entry);
        } else {
            self.entries.push(entry);
        }
        assert(entry_views(self.entries@) =~= upserted(before, entry@));
    }

    /// Drop the entry named `name`, returning it if it was there.
    pub fn remove(&mut self, name: &str) -> (r: Option<Entry>)
        ensures
            opt_entry(r) == find(old(self)@.entries, name@),
            final(self)@.entries == removed(old(self)@.entries, name@),
            final(self)@.path == old(self)@.path,
    {
        let i: usize = self.position(name);
        let ghost before = entry_views(self.entries@);
        if i < self.entries.len() {
            let e: Entry = self.entries.remove(i);
            assert(entry_views(self.entries@) =~= removed(before, name@));
            Some(e)
        } else {
            None
        }
    }
}

// ---------------------------------------------------------------------------
// Laws
// ---------------------------------------------------------------------------
/// Has every entry a name of its own?
pub open spec fn distinct_names(es: Seq<EntryView>) -> bool {
    forall|i: int, j: int|
        0 <= i < j < es.len() ==> (#[trigger] es[i]).name != (#[trigger] es[j]).name
}

/// An entry that was inserted is the one found under its name; the other names
/// find what they found before.
pub proof fn law_upsert_then_get(es: Seq<EntryView>, e: EntryView)
    ensures
        find(upserted(es, e), e.name) == Some(e),
        forall|name: Seq<char>|
            name != e.name ==> #[trigger] find(upserted(es, e), name) == find(es, name),
{
    lemma_name_pos(es, e.name);
    let after = upserted(es, e);
    lemma_name_pos_is(after, e.name, name_pos(es, e.name) as int);
    assert forall|name: Seq<char>| name != e.name implies #[trigger] find(after, name) == find(
        es,
        name,
    ) by {
        lemma_name_pos(es, name);
        if name_pos(es, name) < es.len() {
            lemma_name_pos_is(after, name, name_pos(es, name) as int);
        } else {
            lemma_name_pos_is(after, name, after.len() as int);
        }
    }
}

/// Inserting replaces: the number of entries grows only by a name that is new,
/// and names that were distinct stay so.
pub proof fn law_upsert_replaces(es: Seq<EntryView>, e: EntryView)
    ensures
        find(es, e.name) is Some ==> upserted(es, e).len() == es.len(),
        find(es, e.name) is None ==> upserted(es, e).len() == es.len() + 1,
        distinct_names(es) ==> distinct_names(upserted(es, e)),
{
    lemma_name_pos(es, e.name);
    let after = upserted(es, e);
    if distinct_names(es) {
        let k = name_pos(es, e.name) as int;
        assert forall|i: int, j: int| 0 <= i < j < after.len() implies (#[trigger] after[i]).name
            != (#[trigger] after[j]).name by {
            if k == es.len() {
                assert(after[i] == es[i]);
                if j < es.len() {
                    assert(after[j] == es[j]);
                }
            } else {
                assert(after[i].name == es[i].name);
                assert(after[j].name == es[j].name);
            }
        }
    }
}

/// Among distinct names, an entry that was removed is found no more; the other
/// names find what they found before.
pub proof fn law_remove_then_get(es: Seq<EntryView>, name: Seq<char>)
    requires
        distinct_names(es),
    ensures
        find(removed(es, name), name) is None,
        forall|other: Seq<char>|
            other != name ==> #[trigger] find(removed(es, name), other) == find(es, other),
        distinct_names(removed(es, name)),
{
    lemma_name_pos(es, name);
    let k = name_pos(es, name) as int;
    let after = removed(es, name);
    if k < es.len() {
        assert forall|i: int| 0 <= i < after.len() implies #[trigger] after[i] == (if i < k {
            es[i]
        } else {
            es[i + 1]
        }) by {}
        assert forall|i: int| 0 <= i < after.len() implies (#[trigger] after[i]).name != name by {
            assert(es[k].name == name);
            if i >= k {
                assert(es[i + 1].name != es[k].name);
            }
        }
        lemma_name_pos_is(after, name, after.len() as int);
        assert forall|other: Seq<char>| other != name implies #[trigger] find(after, other) == find(
            es,
            other,
        ) by {
            lemma_name_pos(es, other);
            let p = name_pos(es, other) as int;
            if p == es.len() {
                lemma_name_pos_is(after, other, after.len() as int);
            } else if p < k {
                lemma_name_pos_is(after, other, p);
            } else {
                lemma_name_pos_is(after, other, p - 1);
            }
        }
    } else {
        lemma_name_pos_is(after, name, after.len() as int);
    }
}

/// Can the value be read from a line that was written with it?
pub open spec fn storable(value: Seq<char>) -> bool {
    !has_char(value, '\n') && trim_end(value) == value
}

/// Can the entry be read from lines that were written with it? Its texts hold
/// no line feed and those behind a key end with no white space.
pub open spec fn storable_entry(e: EntryView) -> bool {
    &&& !has_char(e.name, '\n')
    &&& storable(e.display_name)
    &&& storable(e.binary)
    &&& storable(e.desktop)
    &&& storable(e.icon)
    &&& storable(e.source)
}

pub(crate) proof fn lemma_read_append(es: Seq<EntryView>, a: Seq<Seq<char>>, b: Seq<Seq<char>>)
    ensures
        read_lines(es, a + b) == read_lines(read_lines(es, a), b),
    decreases b.len(),
{
    if b.len() == 0 {
        assert(a + b =~= a);
    } else {
        lemma_read_append(es, a, b.drop_last());
        assert((a + b).drop_last() =~= a + b.drop_last());
    }
}

pub(crate) proof fn lemma_read_one(es: Seq<EntryView>, l: Seq<char>)
    ensures
        read_lines(es, seq![l]) == read_line(es, l),
{
    reveal_with_fuel(read_lines, 2);
    assert(seq![l].drop_last() =~= seq![]);
}

/// Reading the lines of two texts of which the first is ended.
proof fn lemma_read_two(es: Seq<EntryView>, x: Seq<char>, y: Seq<char>)
    requires
        ended(x),
    ensures
        read_lines(es, lines(x + y)) == read_lines(read_lines(es, lines(x)), lines(y)),
        ended(y) ==> ended(x + y),
{
    lemma_lines_append(x, y);
    lemma_read_append(es, lines(x), lines(y));
    if y.len() > 0 {
        assert((x + y).last() == y.last());
    } else {
        assert(x + y =~= x);
    }
}

/// A key that is no comment, no header, and needs no trimming.
spec fn plain_key(key: Seq<char>) -> bool {
    &&& key.len() > 0
    &&& key[0] != '#'
    &&& key[0] != '['
    &&& !whitespace(key[0])
    &&& !whitespace(key.last())
    &&& !has_char(key, '\n')
    &&& !has_char(key, '=')
}

proof fn lemma_read_field(es: Seq<EntryView>, key: Seq<char>, value: Seq<char>)
    requires
        plain_key(key),
        storable(value),
    ensures
        read_lines(es, lines(field_line(key, value))) == with_last_field(es, key, value),
        ended(field_line(key, value)),
{
    reveal_strlit("=");
    reveal_strlit("\n");
    let l = key + "="@ + value;
    assert(field_line(key, value) =~= l.push('\n'));
    assert forall|i: int| 0 <= i < l.len() implies l[i] != '\n' by {
        if i < key.len() {
            assert(l[i] == key[i]);
        } else if i > key.len() {
            assert(l[i] == value[i - key.len() - 1]);
        }
    }
    lemma_one_line(l);
    lemma_trim_end(value);
    assert(!whitespace(l.last()));
    assert(without_cr(l) == l);
    assert(l[0] == key[0]);
    lemma_trim_id(l);
    lemma_trim_id(key);
    assert forall|i: int| 0 <= i < key.len() implies l[i] != '=' by {
        assert(l[i] == key[i]);
    }
    lemma_char_pos_is(l, '=', key.len() as int);
    assert(l.take(key.len() as int) =~= key);
    assert(l.skip(key.len() + 1int) =~= value);
    lemma_read_one(es, l);
}

proof fn lemma_read_header(es: Seq<EntryView>, name: Seq<char>)
    requires
        !has_char(name, '\n'),
    ensures
        read_lines(es, lines("\n["@ + name + "]\n"@)) == es.push(named(name)),
        ended("\n["@ + name + "]\n"@),
{
    reveal_strlit("\n[");
    reveal_strlit("]\n");
    let blank = Seq::<char>::empty();
    let l = seq!['['] + name + seq![']'];
    assert("\n["@ + name + "]\n"@ =~= blank.push('\n') + l.push('\n'));
    lemma_one_line(blank);
    assert forall|i: int| 0 <= i < l.len() implies l[i] != '\n' by {
        if 1 <= i <= name.len() {
            assert(l[i] == name[i - 1]);
        }
    }
    lemma_one_line(l);
    lemma_read_two(es, blank.push('\n'), l.push('\n'));
    assert(without_cr(l) == l);
    lemma_trim_id(l);
    assert(l.subrange(1, l.len() - 1) =~= name);
    lemma_read_one(es, without_cr(blank));
    lemma_read_one(es, l);
    assert(trim_end(without_cr(blank)).len() == 0);
    assert(trim(without_cr(blank)).len() == 0);
}

proof fn lemma_read_entry(es: Seq<EntryView>, e: EntryView)
    requires
        storable_entry(e),
    ensures
        read_lines(es, lines(entry_text(e))) == es.push(e),
        ended(entry_text(e)),
{
    reveal_strlit("display");
    reveal_strlit("binary");
    reveal_strlit("desktop");
    reveal_strlit("icon");
    reveal_strlit("source");
    let t0 = "\n["@ + e.name + "]\n"@;
    let f1 = field_line("display"@, e.display_name);
    let f2 = field_line("binary"@, e.binary);
    let f3 = field_line("desktop"@, e.desktop);
    let f4 = field_line("icon"@, e.icon);
    let f5 = field_line("source"@, e.source);
    lemma_read_header(es, e.name);
    let s0 = es.push(named(e.name));
    let e1 = EntryView { display_name: e.display_name, ..named(e.name) };
    let s1 = es.push(e1);
    lemma_read_field(s0, "display"@, e.display_name);
    assert(with_last_field(s0, "display"@, e.display_name) =~= s1);
    lemma_read_two(es, t0, f1);
    let e2 = EntryView { binary: e.binary, ..e1 };
    let s2 = es.push(e2);
    lemma_read_field(s1, "binary"@, e.binary);
    assert("binary"@[0] != "display"@[0]);
    assert(with_last_field(s1, "binary"@, e.binary) =~= s2);
    lemma_read_two(es, t0 + f1, f2);
    let e3 = EntryView { desktop: e.desktop, ..e2 };
    let s3 = es.push(e3);
    lemma_read_field(s2, "desktop"@, e.desktop);
    assert("desktop"@[1] != "display"@[1]);
    assert("desktop"@[0] != "binary"@[0]);
    assert(with_last_field(s2, "desktop"@, e.desktop) =~= s3);
    lemma_read_two(es, t0 + f1 + f2, f3);
    let e4 = EntryView { icon: e.icon, ..e3 };
    let s4 = es.push(e4);
    lemma_read_field(s3, "icon"@, e.icon);
    assert("icon"@[0] != "display"@[0]);
    assert("icon"@[0] != "binary"@[0]);
    assert("icon"@[0] != "desktop"@[0]);
    assert(with_last_field(s3, "icon"@, e.icon) =~= s4);
    lemma_read_two(es, t0 + f1 + f2 + f3, f4);
    lemma_read_field(s4, "source"@, e.source);
    assert("source"@[0] != "display"@[0]);
    assert("source"@[0] != "binary"@[0]);
    assert("source"@[0] != "desktop"@[0]);
    assert("source"@[0] != "icon"@[0]);
    assert(with_last_field(s4, "source"@, e.source) =~= es.push(e));
    lemma_read_two(es, t0 + f1 + f2 + f3 + f4, f5);
}

proof fn lemma_read_entries(es: Seq<EntryView>, new: Seq<EntryView>)
    requires
        forall|i: int| 0 <= i < new.len() ==> storable_entry(#[trigger] new[i]),
    ensures
        read_lines(es, lines(entries_text(new))) == es + new,
        ended(entries_text(new)),
    decreases new.len(),
{
    if new.len() == 0 {
        assert(es + new =~= es);
    } else {
        let front = new.drop_last();
        assert forall|i: int| 0 <= i < front.len() implies storable_entry(#[trigger] front[i]) by {
            assert(front[i] == new[i]);
        }
        lemma_read_entries(es, front);
        assert(storable_entry(new[new.len() - 1]));
        lemma_read_entry(es + front, new.last());
        lemma_read_two(es, entries_text(front), entry_text(new.last()));
        assert((es + front).push(new.last()) =~= es + new);
    }
}

proof fn lemma_read_comment(es: Seq<EntryView>, l: Seq<char>)
    requires
        l.len() > 0,
        l[0] == '#',
        !has_char(l, '\n'),
        !whitespace(l.last()),
    ensures
        read_lines(es, lines(l.push('\n'))) == es,
        ended(l.push('\n')),
{
    lemma_one_line(l);
    assert(without_cr(l) == l);
    lemma_trim_id(l);
    lemma_read_one(es, l);
}

/// What is stored is loaded again: writing entries and parsing the text gives
/// the same entries in the same order.
pub proof fn law_write_then_parse(es: Seq<EntryView>)
    requires
        forall|i: int| 0 <= i < es.len() ==> storable_entry(#[trigger] es[i]),
    ensures
        registry_entries(registry_text(es)) == es,
{
    reveal_strlit("# AppImage Manager — installed AppImages. Managed automatically;\n");
    reveal_strlit("# edit only if you know what you are doing.\n");
    let a = "# AppImage Manager — installed AppImages. Managed automatically;\n"@;
    let b = "# edit only if you know what you are doing.\n"@;
    let none = Seq::<EntryView>::empty();
    assert(a =~= a.drop_last().push('\n'));
    assert(b =~= b.drop_last().push('\n'));
    lemma_read_comment(none, a.drop_last());
    lemma_read_comment(none, b.drop_last());
    lemma_read_two(none, a, b);
    lemma_read_entries(none, es);
    lemma_read_two(none, a + b, entries_text(es));
    assert(none + es =~= es);
}

} // verus!
