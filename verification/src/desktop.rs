//! Minimal `.desktop` entry parser and writer.
//!
//! A desktop entry is a subset of INI: a `[Desktop Entry]` group of `Key=Value`
//! lines, comments that start with `#`, and further groups. Only what this
//! crate needs is here: read an entry, change a few keys, write a new one.
//!
//! Locale keys (`Key[lang]=...`) are keys like any other. Groups other than
//! `[Desktop Entry]`, in practice `[Desktop Action <id>]`, are kept: an entry
//! whose `Actions` key names a group that is gone would be invalid.
use vstd::prelude::*;

use crate::failure::IoFailure;
use crate::text::{char_pos, comes_before, copy, ended, find_char, from_index, has_char, is_text,
    lemma_char_pos, lemma_char_pos_is, lemma_lines_append, lemma_lines_no_feed, lemma_one_line,
    lemma_text_less_total, lemma_text_less_trans, lemma_trim, lemma_trim_end, lemma_trim_id,
    lemma_trim_start, lines, same, slices, split_once, text_less, text_lines, to_chars, to_text,
    trim, trim_end, trim_start, trimmed, trimmed_end, trimmed_start, up_to, whitespace,
    without_cr};

verus! {

/// A group other than `[Desktop Entry]`.
#[derive(Debug)]
pub struct Group {
    /// Header text without the brackets, e.g. `Desktop Action new-window`.
    pub name: String,
    pub keys: Vec<(String, String)>,
}

/// A parsed `.desktop` file: the key/value pairs of its `[Desktop Entry]`
/// group, and any further groups.
#[derive(Debug)]
pub struct DesktopEntry {
    /// The pairs in the order of the file.
    pub keys: Vec<(String, String)>,
    /// Additional groups, in file order. Not touched by [`DesktopEntry::get`] and
    /// [`DesktopEntry::set`], which operate on the main group only.
    pub groups: Vec<Group>,
}

/// A key and its value.
pub type Pair = (Seq<char>, Seq<char>);

/// What a [`Group`] says.
#[verifier::ext_equal]
pub struct GroupView {
    pub name: Seq<char>,
    pub keys: Seq<Pair>,
}

/// What a [`DesktopEntry`] says.
#[verifier::ext_equal]
pub struct DesktopView {
    pub keys: Seq<Pair>,
    pub groups: Seq<GroupView>,
}

/// What a vector of pairs says.
pub open spec fn pairs(v: Seq<(String, String)>) -> Seq<Pair> {
    Seq::new(v.len(), |i: int| (v[i].0@, v[i].1@))
}

impl View for Group {
    type V = GroupView;

    open spec fn view(&self) -> GroupView {
        GroupView { name: self.name@, keys: pairs(self.keys@) }
    }
}

/// What a vector of groups says.
pub open spec fn group_views(v: Seq<Group>) -> Seq<GroupView> {
    Seq::new(v.len(), |i: int| v[i]@)
}

impl View for DesktopEntry {
    type V = DesktopView;

    open spec fn view(&self) -> DesktopView {
        DesktopView { keys: pairs(self.keys@), groups: group_views(self.groups@) }
    }
}

// ---------------------------------------------------------------------------
// Keys
// ---------------------------------------------------------------------------
/// The place of the first pair with this key; the length where there is none.
pub open spec fn key_pos(keys: Seq<Pair>, key: Seq<char>) -> nat
    decreases keys.len(),
{
    if keys.len() == 0 {
        0
    } else if keys[0].0 == key {
        0
    } else {
        1 + key_pos(keys.drop_first(), key)
    }
}

/// The value of the first pair with this key.
pub open spec fn lookup(keys: Seq<Pair>, key: Seq<char>) -> Option<Seq<char>> {
    if key_pos(keys, key) < keys.len() {
        Some(keys[key_pos(keys, key) as int].1)
    } else {
        None
    }
}

/// The pairs with the first one of this key set to `value`, or a new one at the end.
pub open spec fn assign(keys: Seq<Pair>, key: Seq<char>, value: Seq<char>) -> Seq<Pair> {
    if key_pos(keys, key) < keys.len() {
        keys.update(key_pos(keys, key) as int, (key, value))
    } else {
        keys.push((key, value))
    }
}

/// The pairs that have another key.
pub open spec fn without_key(keys: Seq<Pair>, key: Seq<char>) -> Seq<Pair>
    decreases keys.len(),
{
    if keys.len() == 0 {
        seq![]
    } else if keys.last().0 == key {
        without_key(keys.drop_last(), key)
    } else {
        without_key(keys.drop_last(), key).push(keys.last())
    }
}

/// The pairs as a map; the last value of a key counts.
pub open spec fn pairs_map(keys: Seq<Pair>) -> Map<Seq<char>, Seq<char>>
    decreases keys.len(),
{
    if keys.len() == 0 {
        Map::empty()
    } else {
        pairs_map(keys.drop_last()).insert(keys.last().0, keys.last().1)
    }
}

/// What a vector of borrowed pairs says.
pub open spec fn str_pairs(v: Seq<(&str, &str)>) -> Seq<Pair> {
    Seq::new(v.len(), |i: int| (v[i].0@, v[i].1@))
}

/// Are the pairs exactly those of the map, in the order of their keys?
pub open spec fn lists_map(ps: Seq<Pair>, m: Map<Seq<char>, Seq<char>>) -> bool {
    &&& forall|i: int, j: int|
        0 <= i < j < ps.len() ==> text_less(#[trigger] ps[i].0, #[trigger] ps[j].0)
    &&& forall|i: int|
        0 <= i < ps.len() ==> m.dom().contains(#[trigger] ps[i].0) && m[ps[i].0] == ps[i].1
    &&& forall|k: Seq<char>| #[trigger]
        m.dom().contains(k) ==> exists|i: int| 0 <= i < ps.len() && #[trigger] ps[i].0 == k
}

/// The text of an optional string.
pub open spec fn opt_text(o: Option<&str>) -> Option<Seq<char>> {
    match o {
        Some(s) => Some(s@),
        None => None,
    }
}

// ---------------------------------------------------------------------------
// Reading
// ---------------------------------------------------------------------------
/// The pair on a `Key=Value` line. White space around the key is dropped, the
/// value is kept as it is; a line without a key holds no pair.
pub open spec fn line_pair(line: Seq<char>) -> Option<Pair> {
    match split_once(line, '=') {
        Some((k, v)) => if trim(k).len() > 0 {
            Some((trim(k), v))
        } else {
            None
        },
        None => None,
    }
}

/// Is the line blank or a comment?
pub open spec fn is_comment(line: Seq<char>) -> bool {
    line.len() == 0 || (trim_start(line).len() > 0 && trim_start(line)[0] == '#')
}

/// Is the line a group header?
pub open spec fn is_header(line: Seq<char>) -> bool {
    line.len() > 0 && line[0] == '[' && line.last() == ']'
}

/// What has been read so far, and whether the main group is the open one.
#[verifier::ext_equal]
pub struct Reading {
    pub entry: DesktopView,
    pub in_main: bool,
}

/// The groups with one more pair in the last of them. Without a group there is
/// no place for it.
pub open spec fn extend_last(groups: Seq<GroupView>, pair: Pair) -> Seq<GroupView> {
    if groups.len() == 0 {
        groups
    } else {
        groups.update(
            groups.len() - 1,
            GroupView { name: groups.last().name, keys: groups.last().keys.push(pair) },
        )
    }
}

/// The effect of one line.
pub open spec fn read_line(state: Reading, raw: Seq<char>) -> Reading {
    let line = trim_end(raw);
    if is_comment(line) {
        state
    } else if is_header(line) {
        if line == "[Desktop Entry]"@ {
            Reading { entry: state.entry, in_main: true }
        } else {
            Reading {
                entry: DesktopView {
                    keys: state.entry.keys,
                    groups: state.entry.groups.push(
                        GroupView { name: line.subrange(1, line.len() - 1), keys: seq![] },
                    ),
                },
                in_main: false,
            }
        }
    } else {
        match line_pair(line) {
            Some(pair) => if state.in_main {
                Reading {
                    entry: DesktopView {
                        keys: state.entry.keys.push(pair),
                        groups: state.entry.groups,
                    },
                    in_main: true,
                }
            } else {
                Reading {
                    entry: DesktopView {
                        keys: state.entry.keys,
                        groups: extend_last(state.entry.groups, pair),
                    },
                    in_main: false,
                }
            },
            None => state,
        }
    }
}

/// The effect of some lines, one after the other.
pub open spec fn read_lines(state: Reading, ls: Seq<Seq<char>>) -> Reading
    decreases ls.len(),
{
    if ls.len() == 0 {
        state
    } else {
        read_line(read_lines(state, ls.drop_last()), ls.last())
    }
}

/// Nothing read yet: no pair, no group, and no group open.
pub open spec fn unread() -> Reading {
    Reading { entry: DesktopView { keys: seq![], groups: seq![] }, in_main: false }
}

/// The entry that a text holds.
pub open spec fn parsed(content: Seq<char>) -> DesktopView {
    read_lines(unread(), lines(content)).entry
}

// ---------------------------------------------------------------------------
// Writing
// ---------------------------------------------------------------------------
/// The line of one pair.
pub open spec fn pair_line(p: Pair) -> Seq<char> {
    p.0 + "="@ + p.1 + "\n"@
}

/// The lines of some pairs.
pub open spec fn pairs_text(keys: Seq<Pair>) -> Seq<char>
    decreases keys.len(),
{
    if keys.len() == 0 {
        seq![]
    } else {
        pairs_text(keys.drop_last()) + pair_line(keys.last())
    }
}

/// The header that opens a group.
pub open spec fn group_header(name: Seq<char>) -> Seq<char> {
    "\n["@ + name + "]\n"@
}

/// The lines of some groups.
pub open spec fn groups_text(groups: Seq<GroupView>) -> Seq<char>
    decreases groups.len(),
{
    if groups.len() == 0 {
        seq![]
    } else {
        groups_text(groups.drop_last()) + (group_header(groups.last().name) + pairs_text(
            groups.last().keys,
        ))
    }
}

/// The text of an entry.
pub open spec fn written(e: DesktopView) -> Seq<char> {
    "[Desktop Entry]\n"@ + pairs_text(e.keys) + groups_text(e.groups)
}

// ---------------------------------------------------------------------------
// Operations
// ---------------------------------------------------------------------------
/// The first pair with this key is where `key_pos` says.
pub proof fn lemma_key_pos(keys: Seq<Pair>, key: Seq<char>)
    ensures
        key_pos(keys, key) <= keys.len(),
        key_pos(keys, key) < keys.len() ==> keys[key_pos(keys, key) as int].0 == key,
        forall|i: int| 0 <= i < key_pos(keys, key) ==> keys[i].0 != key,
    decreases keys.len(),
{
    if keys.len() > 0 && keys[0].0 != key {
        lemma_key_pos(keys.drop_first(), key);
        assert forall|i: int| 0 <= i < key_pos(keys, key) implies keys[i].0 != key by {
            if i > 0 {
                assert(keys[i] == keys.drop_first()[i - 1]);
            }
        }
    }
}

/// A pair with this key and none before it is where `key_pos` says.
pub proof fn lemma_key_pos_is(keys: Seq<Pair>, key: Seq<char>, k: int)
    requires
        0 <= k <= keys.len(),
        forall|i: int| 0 <= i < k ==> keys[i].0 != key,
        k < keys.len() ==> keys[k].0 == key,
    ensures
        key_pos(keys, key) == k,
{
    lemma_key_pos(keys, key);
    if key_pos(keys, key) < k {
        assert(keys[key_pos(keys, key) as int].0 != key);
    }
}

proof fn lemma_lists_map_insert(
    ps: Seq<Pair>,
    m: Map<Seq<char>, Seq<char>>,
    p: int,
    key: Seq<char>,
    value: Seq<char>,
)
    requires
        lists_map(ps, m),
        0 <= p <= ps.len(),
        forall|j: int| 0 <= j < p ==> text_less(#[trigger] ps[j].0, key),
        p < ps.len() ==> !text_less(ps[p].0, key),
    ensures
        p < ps.len() && ps[p].0 == key ==> lists_map(
            ps.update(p, (key, value)),
            m.insert(key, value),
        ),
        !(p < ps.len() && ps[p].0 == key) ==> lists_map(
            ps.insert(p, (key, value)),
            m.insert(key, value),
        ),
{
    let n = m.insert(key, value);
    if p < ps.len() && ps[p].0 == key {
        let qs = ps.update(p, (key, value));
        assert forall|i: int| 0 <= i < qs.len() implies n.dom().contains(#[trigger] qs[i].0)
            && n[qs[i].0] == qs[i].1 by {
            assert(qs[i].0 == ps[i].0);
            if i < p {
                lemma_text_less_total(ps[i].0, ps[p].0);
            } else if i > p {
                lemma_text_less_total(ps[p].0, ps[i].0);
            }
        }
        assert forall|k: Seq<char>| #[trigger] n.dom().contains(k) implies exists|i: int|
            0 <= i < qs.len() && #[trigger] qs[i].0 == k by {
            if k == key {
                assert(qs[p].0 == k);
            } else {
                let i = choose|i: int| 0 <= i < ps.len() && #[trigger] ps[i].0 == k;
                assert(qs[i].0 == k);
            }
        }
        assert forall|i: int, j: int| 0 <= i < j < qs.len() implies text_less(
            #[trigger] qs[i].0,
            #[trigger] qs[j].0,
        ) by {
            assert(text_less(ps[i].0, ps[j].0));
        }
    } else {
        let qs = ps.insert(p, (key, value));
        assert forall|j: int| p <= j < ps.len() implies text_less(key, #[trigger] ps[j].0) by {
            lemma_text_less_total(key, ps[p].0);
            if j > p {
                lemma_text_less_trans(key, ps[p].0, ps[j].0);
            }
        }
        assert forall|i: int| 0 <= i < qs.len() implies n.dom().contains(#[trigger] qs[i].0)
            && n[qs[i].0] == qs[i].1 by {
            if i < p {
                assert(qs[i] == ps[i]);
                lemma_text_less_total(ps[i].0, key);
            } else if i > p {
                assert(qs[i] == ps[i - 1]);
                lemma_text_less_total(key, ps[i - 1].0);
            }
        }
        assert forall|k: Seq<char>| #[trigger] n.dom().contains(k) implies exists|i: int|
            0 <= i < qs.len() && #[trigger] qs[i].0 == k by {
            if k == key {
                assert(qs[p].0 == k);
            } else {
                let i = choose|i: int| 0 <= i < ps.len() && #[trigger] ps[i].0 == k;
                if i < p {
                    assert(qs[i].0 == k);
                } else {
                    assert(qs[i + 1].0 == k);
                }
            }
        }
        assert forall|i: int, j: int| 0 <= i < j < qs.len() implies text_less(
            #[trigger] qs[i].0,
            #[trigger] qs[j].0,
        ) by {
            if i < p && j < p {
                assert(text_less(ps[i].0, ps[j].0));
            } else if i < p && j > p {
                assert(text_less(ps[i].0, ps[j - 1].0));
            } else if i > p {
                assert(text_less(ps[i - 1].0, ps[j - 1].0));
            }
        }
    }
}

/// The place of the first pair with this key, or the length.
fn find_key(keys: &Vec<(String, String)>, key: &str) -> (r: usize)
    ensures
        r == key_pos(pairs(keys@), key@),
        r <= keys.len(),
{
    let mut i: usize = 0;
    while i < keys.len() && !same(keys[i].0.as_str(), key)
        invariant
            i <= keys.len(),
            forall|j: int| 0 <= j < i ==> keys@[j].0@ != key@,
        decreases keys.len() - i,
    {
        i = i + 1;
    }
    proof {
        lemma_key_pos_is(pairs(keys@), key@, i as int);
    }
    i
}

/// Split a `Key=Value` line, trimming the key and keeping the value as it is.
pub fn split_kv(line: &str) -> (r: Option<(String, String)>)
    ensures
        match r {
            Some(p) => line_pair(line@) == Some((p.0@, p.1@)),
            None => line_pair(line@) is None,
        },
{
    split_kv_chars(to_chars(line).as_slice())
}

fn split_kv_chars(line: &[char]) -> (r: Option<(String, String)>)
    ensures
        match r {
            Some(p) => line_pair(line@) == Some((p.0@, p.1@)),
            None => line_pair(line@) is None,
        },
{
    let eq: usize = find_char(line, '=');
    if eq == line.len() {
        return None;
    }
    let key: &[char] = trimmed(up_to(line, eq));
    if key.len() == 0 {
        return None;
    }
    Some((to_text(key), to_text(from_index(line, eq + 1))))
}

/// A copy of some pairs.
pub fn copy_pairs(keys: &Vec<(String, String)>) -> (r: Vec<(String, String)>)
    ensures
        pairs(r@) == pairs(keys@),
{
    let mut out: Vec<(String, String)> = Vec::new();
    let mut i: usize = 0;
    while i < keys.len()
        invariant
            i <= keys.len(),
            pairs(out@) == pairs(keys@).take(i as int),
        decreases keys.len() - i,
    {
        let ghost before = out@;
        out.push((keys[i].0.clone(), keys[i].1.clone()));
        i = i + 1;
        assert(pairs(out@) =~= pairs(before).push(pairs(keys@)[i - 1]));
        assert(pairs(keys@).take(i as int) =~= pairs(keys@).take(i - 1).push(pairs(keys@)[i - 1]));
    }
    assert(pairs(keys@).take(i as int) =~= pairs(keys@));
    out
}

impl Clone for Group {
    fn clone(&self) -> (r: Self)
        ensures
            r@ == self@,
    {
        Group { name: self.name.clone(), keys: copy_pairs(&self.keys) }
    }
}

impl Clone for DesktopEntry {
    fn clone(&self) -> (r: Self)
        ensures
            r@ == self@,
    {
        let mut groups: Vec<Group> = Vec::new();
        let mut i: usize = 0;
        while i < self.groups.len()
            invariant
                i <= self.groups.len(),
                group_views(groups@) == self@.groups.take(i as int),
            decreases self.groups.len() - i,
        {
            let ghost before = groups@;
            groups.push(self.groups[i].clone());
            i = i + 1;
            assert(group_views(groups@) =~= group_views(before).push(self@.groups[i - 1]));
            assert(self@.groups.take(i as int) =~= self@.groups.take(i - 1).push(
                self@.groups[i - 1],
            ));
        }
        assert(self@.groups.take(i as int) =~= self@.groups);
        DesktopEntry { keys: copy_pairs(&self.keys), groups }
    }
}

impl Default for DesktopEntry {
    fn default() -> (r: Self)
        ensures
            r@ == unread().entry,
    {
        let r: DesktopEntry = DesktopEntry { keys: Vec::new(), groups: Vec::new() };
        assert(r@ =~= unread().entry);
        r
    }
}

impl DesktopEntry {
    /// Parse the text of a `.desktop` file.
    pub fn parse(content: &str) -> (r: Self)
        ensures
            r@ == parsed(content@),
    {
        let chars: Vec<char> = to_chars(content);
        let ls: Vec<&[char]> = text_lines(chars.as_slice());
        let mut entry: DesktopEntry = DesktopEntry::default();
        let mut in_main: bool = false;
        let mut i: usize = 0;
        while i < ls.len()
            invariant
                i <= ls.len(),
                slices(ls@) == lines(content@),
                (Reading { entry: entry@, in_main }) == read_lines(
                    unread(),
                    lines(content@).take(i as int),
                ),
            decreases ls.len() - i,
        {
            let ghost start = Reading { entry: entry@, in_main };
            let raw: &[char] = ls[i];
            i = i + 1;
            proof {
                assert(lines(content@).take(i as int).drop_last() =~= lines(content@).take(i - 1));
                assert(raw@ == slices(ls@)[i - 1]);
            }
            let line: &[char] = trimmed_end(raw);
            let shown: &[char] = trimmed_start(line);
            if line.len() == 0 || (shown.len() > 0 && shown[0] == '#') {
                continue;
            }
            if line[0] == '[' && line[line.len() - 1] == ']' {
                in_main = is_text(line, "[Desktop Entry]");
                if !in_main {
                    let name: String = to_text(vstd::slice::slice_subrange(line, 1, line.len() - 1));
                    let ghost before = entry.groups@;
                    let group: Group = Group { name, keys: Vec::new() };
                    proof {
                        assert(group@ =~= GroupView {
                            name: line@.subrange(1, line@.len() - 1),
                            keys: seq![],
                        });
                    }
                    entry.groups.push(group);
                    proof {
                        assert(group_views(entry.groups@) =~= group_views(before).push(group@));
                    }
                }
                continue;
            }
            match split_kv_chars(line) {
                Some(pair) => {
                    if in_main {
                        let ghost before = entry.keys@;
                        entry.keys.push(pair);
                        proof {
                            assert(pairs(entry.keys@) =~= pairs(before).push((pair.0@, pair.1@)));
                        }
                    } else {
                        let ghost groups = entry.groups@;
                        match entry.groups.pop() {
                            Some(last) => {
                                let mut group: Group = last;
                                let ghost before = group.keys@;
                                group.keys.push(pair);
                                entry.groups.push(group);
                                proof {
                                    assert(pairs(group.keys@) =~= pairs(before).push(
                                        (pair.0@, pair.1@),
                                    ));
                                    assert(group_views(entry.groups@) =~= extend_last(
                                        group_views(groups),
                                        (pair.0@, pair.1@),
                                    ));
                                }
                            },
                            None => {},
                        }
                    }
                },
                None => {},
            }
        }
        proof {
            assert(lines(content@).take(i as int) =~= lines(content@));
        }
        entry
    }

    /// The entry in what was read from disk.
    pub fn read(content: Result<String, IoFailure>) -> (r: Result<Self, IoFailure>)
        ensures
            match content {
                Ok(c) => r is Ok && r->Ok_0@ == parsed(c@),
                Err(e) => r == Err::<Self, IoFailure>(e),
            },
    {
        match content {
            Ok(c) => Ok(DesktopEntry::parse(c.as_str())),
            Err(e) => Err(e),
        }
    }

    /// The first value for `key` (case-sensitive).
    pub fn get(&self, key: &str) -> (r: Option<&str>)
        ensures
            opt_text(r) == lookup(self@.keys, key@),
    {
        let i: usize = find_key(&self.keys, key);
        if i < self.keys.len() {
            Some(self.keys[i].1.as_str())
        } else {
            None
        }
    }

    /// Set `key` to `value`: the first pair that has it, or a new one at the end.
    pub fn set(&mut self, key: &str, value: &str)
        ensures
            final(self)@.keys == assign(old(self)@.keys, key@, value@),
            final(self)@.groups == old(self)@.groups,
    {
        let i: usize = find_key(&self.keys, key);
        let ghost before = self.keys@;
        let pair: (String, String) = (copy(key), copy(value));
        if i < self.keys.len() {
            self.keys.set(i, pair);
        } else {
            self.keys.push(pair);
        }
        assert(pairs(self.keys@) =~= assign(pairs(before), key@, value@));
    }

    /// Remove all pairs with `key`.
    pub fn remove(&mut self, key: &str)
        ensures
            final(self)@.keys == without_key(old(self)@.keys, key@),
            final(self)@.groups == old(self)@.groups,
    {
        let mut kept: Vec<(String, String)> = Vec::new();
        let mut i: usize = 0;
        let ghost all = self@.keys;
        while i < self.keys.len()
            invariant
                i <= self.keys.len(),
                self.groups == old(self).groups,
                pairs(self.keys@) == all,
                pairs(kept@) == without_key(all.take(i as int), key@),
            decreases self.keys.len() - i,
        {
            let ghost before = kept@;
            if !same(self.keys[i].0.as_str(), key) {
                kept.push((self.keys[i].0.clone(), self.keys[i].1.clone()));
                assert(pairs(kept@) =~= pairs(before).push(all[i as int]));
            }
            i = i + 1;
            assert(all.take(i as int).drop_last() =~= all.take(i - 1));
        }
        assert(all.take(i as int) =~= all);
        self.keys = kept;
    }

    /// The pairs as a map, in the order of the keys; the last value wins where
    /// a key has several.
    pub fn as_map(&self) -> (r: Vec<(&str, &str)>)
        ensures
            lists_map(str_pairs(r@), pairs_map(self@.keys)),
    {
        let mut out: Vec<(&str, &str)> = Vec::new();
        let mut i: usize = 0;
        while i < self.keys.len()
            invariant
                i <= self.keys.len(),
                lists_map(str_pairs(out@), pairs_map(self@.keys.take(i as int))),
            decreases self.keys.len() - i,
        {
            let key: &str = self.keys[i].0.as_str();
            let value: &str = self.keys[i].1.as_str();
            let key_chars: Vec<char> = to_chars(key);
            let ghost before = str_pairs(out@);
            let mut p: usize = 0;
            while p < out.len() && comes_before(
                to_chars(out[p].0).as_slice(),
                key_chars.as_slice(),
            )
                invariant
                    p <= out.len(),
                    key_chars@ == key@,
                    before == str_pairs(out@),
                    forall|j: int| 0 <= j < p ==> text_less(#[trigger] before[j].0, key@),
                decreases out.len() - p,
            {
                p = p + 1;
            }
            if p < out.len() && same(out[p].0, key) {
                out.set(p, (key, value));
                assert(str_pairs(out@) =~= before.update(p as int, (key@, value@)));
            } else {
                out.insert(p, (key, value));
                assert(str_pairs(out@) =~= before.insert(p as int, (key@, value@)));
            }
            i = i + 1;
            proof {
                assert(self@.keys.take(i as int).drop_last() =~= self@.keys.take(i - 1));
                lemma_lists_map_insert(
                    before,
                    pairs_map(self@.keys.take(i - 1)),
                    p as int,
                    key@,
                    value@,
                );
            }
        }
        assert(self@.keys.take(i as int) =~= self@.keys);
        out
    }

    /// The text of the entry.
    pub fn to_string(&self) -> (r: String)
        ensures
            r@ == written(self@),
    {
        let mut out: String = copy("[Desktop Entry]\n");
        append_pairs(&mut out, &self.keys);
        let ghost top = out@;
        let mut i: usize = 0;
        proof {
            assert(out@ =~= top + groups_text(self@.groups.take(0)));
        }
        while i < self.groups.len()
            invariant
                i <= self.groups.len(),
                out@ == top + groups_text(self@.groups.take(i as int)),
            decreases self.groups.len() - i,
        {
            let ghost before = out@;
            out.append("\n[");
            out.append(self.groups[i].name.as_str());
            out.append("]\n");
            append_pairs(&mut out, &self.groups[i].keys);
            i = i + 1;
            proof {
                let g = self@.groups[i - 1];
                assert(self@.groups.take(i as int).drop_last() =~= self@.groups.take(i - 1));
                assert(out@ =~= before + (group_header(g.name) + pairs_text(g.keys)));
                assert(out@ =~= top + groups_text(self@.groups.take(i as int)));
            }
        }
        assert(self@.groups.take(i as int) =~= self@.groups);
        out
    }
}

fn append_pairs(out: &mut String, keys: &Vec<(String, String)>)
    ensures
        final(out)@ == old(out)@ + pairs_text(pairs(keys@)),
{
    let ghost start = out@;
    let ghost all = pairs(keys@);
    let mut i: usize = 0;
    proof {
        assert(out@ =~= start + pairs_text(all.take(0)));
    }
    while i < keys.len()
        invariant
            i <= keys.len(),
            all == pairs(keys@),
            out@ == start + pairs_text(all.take(i as int)),
        decreases keys.len() - i,
    {
        let ghost before = out@;
        out.append(keys[i].0.as_str());
        out.append("=");
        out.append(keys[i].1.as_str());
        out.append("\n");
        i = i + 1;
        proof {
            assert(all.take(i as int).drop_last() =~= all.take(i - 1));
            assert(out@ =~= before + pair_line(all[i - 1]));
            assert(out@ =~= start + pairs_text(all.take(i as int)));
        }
    }
    assert(all.take(i as int) =~= all);
}

// ---------------------------------------------------------------------------
// Laws
// ---------------------------------------------------------------------------
/// After a key is set, it has that value; every other key keeps its own.
pub proof fn law_set_then_get(keys: Seq<Pair>, key: Seq<char>, value: Seq<char>)
    ensures
        lookup(assign(keys, key, value), key) == Some(value),
        forall|other: Seq<char>|
            other != key ==> #[trigger] lookup(assign(keys, key, value), other) == lookup(
                keys,
                other,
            ),
{
    lemma_key_pos(keys, key);
    let after = assign(keys, key, value);
    lemma_key_pos_is(after, key, key_pos(keys, key) as int);
    assert forall|other: Seq<char>| other != key implies #[trigger] lookup(after, other) == lookup(
        keys,
        other,
    ) by {
        lemma_key_pos(keys, other);
        if key_pos(keys, other) < keys.len() {
            lemma_key_pos_is(after, other, key_pos(keys, other) as int);
        } else {
            lemma_key_pos_is(after, other, after.len() as int);
        }
    }
}

/// Setting a key twice is setting it to the last value.
pub proof fn law_set_twice(keys: Seq<Pair>, key: Seq<char>, first: Seq<char>, second: Seq<char>)
    ensures
        assign(assign(keys, key, first), key, second) == assign(keys, key, second),
{
    lemma_key_pos(keys, key);
    lemma_key_pos_is(assign(keys, key, first), key, key_pos(keys, key) as int);
    assert(assign(assign(keys, key, first), key, second) =~= assign(keys, key, second));
}

/// After a key is removed it has no value; every other key keeps its own.
pub proof fn law_remove_then_get(keys: Seq<Pair>, key: Seq<char>)
    ensures
        lookup(without_key(keys, key), key) is None,
        forall|other: Seq<char>|
            other != key ==> #[trigger] lookup(without_key(keys, key), other) == lookup(
                keys,
                other,
            ),
    decreases keys.len(),
{
    if keys.len() > 0 {
        let front = keys.drop_last();
        law_remove_then_get(front, key);
        let rest = without_key(front, key);
        lemma_key_pos(rest, key);
        assert forall|i: int| 0 <= i < rest.len() implies rest[i].0 != key by {}
        lemma_key_pos_is(without_key(keys, key), key, without_key(keys, key).len() as int);
        assert forall|other: Seq<char>| other != key implies #[trigger] lookup(
            without_key(keys, key),
            other,
        ) == lookup(keys, other) by {
            lemma_key_pos(front, other);
            lemma_key_pos(rest, other);
            assert(lookup(rest, other) == lookup(front, other));
            let after = without_key(keys, key);
            assert forall|i: int| 0 <= i < key_pos(front, other) implies keys[i].0 != other by {
                assert(keys[i] == front[i]);
            }
            if key_pos(front, other) < front.len() {
                lemma_key_pos_is(keys, other, key_pos(front, other) as int);
                lemma_key_pos_is(after, other, key_pos(rest, other) as int);
            } else if keys.last().0 == other {
                lemma_key_pos_is(keys, other, front.len() as int);
                lemma_key_pos_is(after, other, rest.len() as int);
            } else {
                lemma_key_pos_is(keys, other, keys.len() as int);
                lemma_key_pos_is(after, other, after.len() as int);
            }
        }
    }
}

/// Can the pair be written to a line from which it can be read again? Its key
/// is one that a line can have, its value ends with no white space, and the
/// line is neither a comment nor a group header.
pub open spec fn writable_pair(p: Pair) -> bool {
    &&& readable_pair(p)
    &&& !(p.0[0] == '[' && p.1.len() > 0 && p.1.last() == ']')
}

/// Can a line have the pair?
pub open spec fn readable_pair(p: Pair) -> bool {
    &&& p.0.len() > 0
    &&& trim(p.0) == p.0
    &&& p.0[0] != '#'
    &&& !has_char(p.0, '=')
    &&& !has_char(p.0, '\n')
    &&& !has_char(p.1, '\n')
    &&& trim_end(p.1) == p.1
}

/// Can the group header be read again as that of a further group?
pub open spec fn readable_name(name: Seq<char>) -> bool {
    !has_char(name, '\n') && name != "Desktop Entry"@
}

pub open spec fn writable_pairs(keys: Seq<Pair>) -> bool {
    forall|i: int| 0 <= i < keys.len() ==> writable_pair(#[trigger] keys[i])
}

pub open spec fn readable_pairs(keys: Seq<Pair>) -> bool {
    forall|i: int| 0 <= i < keys.len() ==> readable_pair(#[trigger] keys[i])
}

/// Can all of the entry be written such that it can be read again?
pub open spec fn writable(e: DesktopView) -> bool {
    &&& writable_pairs(e.keys)
    &&& forall|i: int|
        0 <= i < e.groups.len() ==> readable_name((#[trigger] e.groups[i]).name) && writable_pairs(
            e.groups[i].keys,
        )
}

/// Is there no pair that would read as a group header?
pub open spec fn no_header_pair(keys: Seq<Pair>) -> bool {
    forall|i: int|
        0 <= i < keys.len() ==> !((#[trigger] keys[i]).0.len() > 0 && keys[i].0[0] == '['
            && keys[i].1.len() > 0 && keys[i].1.last() == ']')
}

pub(crate) proof fn lemma_read_append(state: Reading, a: Seq<Seq<char>>, b: Seq<Seq<char>>)
    ensures
        read_lines(state, a + b) == read_lines(read_lines(state, a), b),
    decreases b.len(),
{
    if b.len() == 0 {
        assert(a + b =~= a);
    } else {
        lemma_read_append(state, a, b.drop_last());
        assert((a + b).drop_last() =~= a + b.drop_last());
    }
}

pub(crate) proof fn lemma_read_one(state: Reading, l: Seq<char>)
    ensures
        read_lines(state, seq![l]) == read_line(state, l),
{
    reveal_with_fuel(read_lines, 2);
    assert(seq![l].drop_last() =~= seq![]);
}

/// The state with one more pair.
spec fn with_pair(state: Reading, p: Pair) -> Reading {
    if state.in_main {
        Reading {
            entry: DesktopView { keys: state.entry.keys.push(p), groups: state.entry.groups },
            in_main: true,
        }
    } else {
        Reading {
            entry: DesktopView {
                keys: state.entry.keys,
                groups: extend_last(state.entry.groups, p),
            },
            in_main: false,
        }
    }
}

proof fn lemma_pair_line(p: Pair)
    requires
        writable_pair(p),
    ensures
        pair_line(p) == (p.0 + "="@ + p.1).push('\n'),
        !has_char(p.0 + "="@ + p.1, '\n'),
        !whitespace((p.0 + "="@ + p.1).last()),
        line_pair(p.0 + "="@ + p.1) == Some(p),
{
    reveal_strlit("=");
    reveal_strlit("\n");
    let l = p.0 + "="@ + p.1;
    assert(pair_line(p) =~= l.push('\n'));
    assert forall|i: int| 0 <= i < l.len() implies l[i] != '\n' by {
        if i < p.0.len() {
            assert(l[i] == p.0[i]);
        } else if i > p.0.len() {
            assert(l[i] == p.1[i - p.0.len() - 1]);
        }
    }
    lemma_trim_end(p.1);
    if p.1.len() > 0 {
        assert(l.last() == p.1.last());
    }
    assert forall|i: int| 0 <= i < p.0.len() implies l[i] != '=' by {
        assert(l[i] == p.0[i]);
    }
    lemma_char_pos_is(l, '=', p.0.len() as int);
    assert(l.take(p.0.len() as int) =~= p.0);
    assert(l.skip(p.0.len() + 1int) =~= p.1);
}

proof fn lemma_read_pair_line(state: Reading, p: Pair)
    requires
        writable_pair(p),
    ensures
        read_lines(state, lines(pair_line(p))) == with_pair(state, p),
        ended(pair_line(p)),
{
    let l = p.0 + "="@ + p.1;
    lemma_pair_line(p);
    lemma_one_line(l);
    lemma_trim(p.0);
    assert(without_cr(l) == l);
    lemma_trim_id(l);
    assert(l[0] == p.0[0]);
    assert(!is_comment(l));
    assert(!is_header(l)) by {
        reveal_strlit("=");
        if p.1.len() > 0 {
            assert(l.last() == p.1.last());
        } else {
            assert(l.last() == '=');
        }
    }
    lemma_read_one(state, l);
}

/// The state with more pairs.
spec fn with_pairs(state: Reading, keys: Seq<Pair>) -> Reading
    decreases keys.len(),
{
    if keys.len() == 0 {
        state
    } else {
        with_pair(with_pairs(state, keys.drop_last()), keys.last())
    }
}

proof fn lemma_read_pairs(state: Reading, keys: Seq<Pair>)
    requires
        writable_pairs(keys),
    ensures
        read_lines(state, lines(pairs_text(keys))) == with_pairs(state, keys),
        ended(pairs_text(keys)),
    decreases keys.len(),
{
    if keys.len() > 0 {
        let front = keys.drop_last();
        lemma_read_pairs(state, front);
        lemma_read_pair_line(with_pairs(state, front), keys.last());
        lemma_lines_append(pairs_text(front), pair_line(keys.last()));
        lemma_read_append(state, lines(pairs_text(front)), lines(pair_line(keys.last())));
    }
}

proof fn lemma_with_pairs_main(state: Reading, keys: Seq<Pair>)
    requires
        state.in_main,
    ensures
        with_pairs(state, keys) == (Reading {
            entry: DesktopView { keys: state.entry.keys + keys, groups: state.entry.groups },
            in_main: true,
        }),
    decreases keys.len(),
{
    if keys.len() == 0 {
        assert(state.entry.keys + keys =~= state.entry.keys);
    } else {
        lemma_with_pairs_main(state, keys.drop_last());
        assert((state.entry.keys + keys.drop_last()).push(keys.last()) =~= state.entry.keys + keys);
    }
}

proof fn lemma_with_pairs_group(state: Reading, g: GroupView, keys: Seq<Pair>)
    requires
        !state.in_main,
        state.entry.groups.len() > 0,
        state.entry.groups.last() == g,
    ensures
        with_pairs(state, keys) == (Reading {
            entry: DesktopView {
                keys: state.entry.keys,
                groups: state.entry.groups.drop_last().push(
                    GroupView { name: g.name, keys: g.keys + keys },
                ),
            },
            in_main: false,
        }),
    decreases keys.len(),
{
    let base = state.entry.groups.drop_last();
    if keys.len() == 0 {
        assert(g.keys + keys =~= g.keys);
        assert(base.push(g) =~= state.entry.groups);
    } else {
        lemma_with_pairs_group(state, g, keys.drop_last());
        let front = base.push(GroupView { name: g.name, keys: g.keys + keys.drop_last() });
        assert((g.keys + keys.drop_last()).push(keys.last()) =~= g.keys + keys);
        assert(extend_last(front, keys.last()) =~= base.push(
            GroupView { name: g.name, keys: g.keys + keys },
        ));
    }
}

proof fn lemma_read_header(state: Reading, name: Seq<char>)
    requires
        readable_name(name),
    ensures
        read_lines(state, lines(group_header(name))) == (Reading {
            entry: DesktopView {
                keys: state.entry.keys,
                groups: state.entry.groups.push(GroupView { name, keys: seq![] }),
            },
            in_main: false,
        }),
        ended(group_header(name)),
{
    reveal_strlit("\n[");
    reveal_strlit("]\n");
    reveal_strlit("Desktop Entry");
    reveal_strlit("[Desktop Entry]");
    let blank = Seq::<char>::empty();
    let l = seq!['['] + name + seq![']'];
    assert(group_header(name) =~= blank.push('\n') + l.push('\n'));
    lemma_one_line(blank);
    assert forall|i: int| 0 <= i < l.len() implies l[i] != '\n' by {
        if 1 <= i <= name.len() {
            assert(l[i] == name[i - 1]);
        }
    }
    lemma_one_line(l);
    lemma_lines_append(blank.push('\n'), l.push('\n'));
    assert(without_cr(l) == l);
    lemma_trim_id(l);
    assert(l.subrange(1, l.len() - 1) =~= name);
    if l == "[Desktop Entry]"@ {
        assert(name =~= "Desktop Entry"@);
    }
    assert(!is_comment(l));
    lemma_read_append(state, lines(blank.push('\n')), lines(l.push('\n')));
    lemma_read_one(state, without_cr(blank));
    lemma_read_one(state, l);
    assert(trim_end(without_cr(blank)).len() == 0);
}

proof fn lemma_read_groups(state: Reading, groups: Seq<GroupView>)
    requires
        forall|i: int|
            0 <= i < groups.len() ==> readable_name((#[trigger] groups[i]).name) && writable_pairs(
                groups[i].keys,
            ),
    ensures
        read_lines(state, lines(groups_text(groups))).entry == (DesktopView {
            keys: state.entry.keys,
            groups: state.entry.groups + groups,
        }),
        ended(groups_text(groups)),
    decreases groups.len(),
{
    if groups.len() == 0 {
        assert(state.entry.groups + groups =~= state.entry.groups);
    } else {
        let front = groups.drop_last();
        let g = groups.last();
        assert(g == groups[groups.len() - 1]);
        assert forall|i: int| 0 <= i < front.len() implies readable_name(
            (#[trigger] front[i]).name,
        ) && writable_pairs(front[i].keys) by {
            assert(front[i] == groups[i]);
        }
        lemma_read_groups(state, front);
        let s1 = read_lines(state, lines(groups_text(front)));
        lemma_read_header(s1, g.name);
        let s2 = read_lines(s1, lines(group_header(g.name)));
        lemma_read_pairs(s2, g.keys);
        let block = group_header(g.name) + pairs_text(g.keys);
        lemma_lines_append(group_header(g.name), pairs_text(g.keys));
        lemma_read_append(s1, lines(group_header(g.name)), lines(pairs_text(g.keys)));
        lemma_lines_append(groups_text(front), block);
        lemma_read_append(state, lines(groups_text(front)), lines(block));
        lemma_with_pairs_group(s2, GroupView { name: g.name, keys: seq![] }, g.keys);
        assert(seq![] + g.keys =~= g.keys);
        assert(s2.entry.groups.drop_last() =~= state.entry.groups + front);
        assert((state.entry.groups + front).push(g) =~= state.entry.groups + groups);
        assert(ended(block));
    }
}

/// What is written is read again as it was: writing an entry and parsing the
/// text gives the same pairs and the same groups in the same order.
pub proof fn law_write_then_parse(e: DesktopView)
    requires
        writable(e),
    ensures
        parsed(written(e)) == e,
{
    reveal_strlit("[Desktop Entry]\n");
    reveal_strlit("[Desktop Entry]");
    let l = "[Desktop Entry]"@;
    assert("[Desktop Entry]\n"@ =~= l.push('\n'));
    lemma_one_line(l);
    assert(without_cr(l) == l);
    lemma_trim_id(l);
    lemma_read_one(unread(), l);
    let s1 = read_lines(unread(), lines(l.push('\n')));
    assert(s1 == (Reading { entry: unread().entry, in_main: true }));
    lemma_read_pairs(s1, e.keys);
    lemma_with_pairs_main(s1, e.keys);
    assert(unread().entry.keys + e.keys =~= e.keys);
    let s2 = read_lines(s1, lines(pairs_text(e.keys)));
    lemma_read_groups(s2, e.groups);
    assert(unread().entry.groups + e.groups =~= e.groups);
    let head = l.push('\n') + pairs_text(e.keys);
    lemma_lines_append(l.push('\n'), pairs_text(e.keys));
    lemma_read_append(unread(), lines(l.push('\n')), lines(pairs_text(e.keys)));
    lemma_lines_append(head, groups_text(e.groups));
    lemma_read_append(unread(), lines(head), lines(groups_text(e.groups)));
    assert(parsed(written(e)) =~= e);
}

/// Does everything in the entry look like something that was read?
pub open spec fn readable(e: DesktopView) -> bool {
    &&& readable_pairs(e.keys)
    &&& forall|i: int|
        0 <= i < e.groups.len() ==> readable_name((#[trigger] e.groups[i]).name) && readable_pairs(
            e.groups[i].keys,
        )
}

proof fn lemma_line_pair_readable(line: Seq<char>)
    requires
        !has_char(line, '\n'),
        trim_end(line) == line,
        !is_comment(line),
        line_pair(line) is Some,
    ensures
        readable_pair(line_pair(line)->0),
{
    lemma_char_pos(line, '=');
    let n = char_pos(line, '=') as int;
    let before = line.take(n);
    let v = line.skip(n + 1);
    let k = trim(before);
    lemma_trim(before);
    lemma_trim_end(before);
    lemma_trim_start(trim_end(before));
    let from = trim_end(before).len() - k.len();
    assert forall|i: int| 0 <= i < k.len() implies k[i] == line[from + i] by {}
    assert(!has_char(k, '='));
    assert(!has_char(k, '\n'));
    assert(!has_char(v, '\n')) by {
        if has_char(v, '\n') {
            let i = choose|i: int| 0 <= i < v.len() && v[i] == '\n';
            assert(line[n + 1 + i] == '\n');
        }
    }
    lemma_trim_end(line);
    if v.len() > 0 {
        assert(v.last() == line.last());
    }
    lemma_trim_id(v);
    // The key starts where the line shows its first character.
    assert forall|i: int| 0 <= i < from implies whitespace(line[i]) by {
        assert(trim_end(before)[i] == line[i]);
    }
    assert(!whitespace(line[from])) by {
        assert(k[0] == line[from]);
    }
    crate::text::lemma_trim_start_is(line, from);
    assert(trim_start(line)[0] == k[0]);
}

proof fn lemma_read_line_readable(state: Reading, raw: Seq<char>)
    requires
        readable(state.entry),
        !has_char(raw, '\n'),
    ensures
        readable(read_line(state, raw).entry),
{
    let line = trim_end(raw);
    lemma_trim_end(raw);
    assert(!has_char(line, '\n')) by {
        if has_char(line, '\n') {
            let i = choose|i: int| 0 <= i < line.len() && line[i] == '\n';
            assert(raw[i] == '\n');
        }
    }
    lemma_trim_id(line);
    if is_comment(line) {
    } else if is_header(line) {
        let name = line.subrange(1, line.len() - 1);
        assert(!has_char(name, '\n')) by {
            if has_char(name, '\n') {
                let i = choose|i: int| 0 <= i < name.len() && name[i] == '\n';
                assert(line[i + 1] == '\n');
            }
        }
        reveal_strlit("Desktop Entry");
        reveal_strlit("[Desktop Entry]");
        if name == "Desktop Entry"@ {
            assert(line =~= seq!['['] + name + seq![']']);
            assert("[Desktop Entry]"@ =~= seq!['['] + "Desktop Entry"@ + seq![']']);
        }
    } else if line_pair(line) is Some {
        lemma_line_pair_readable(line);
        let p = line_pair(line)->0;
        if !state.in_main && state.entry.groups.len() > 0 {
            let gs = state.entry.groups;
            assert(gs.last() == gs[gs.len() - 1]);
        }
    }
}

proof fn lemma_read_lines_readable(state: Reading, ls: Seq<Seq<char>>)
    requires
        readable(state.entry),
        forall|i: int| 0 <= i < ls.len() ==> !has_char(#[trigger] ls[i], '\n'),
    ensures
        readable(read_lines(state, ls).entry),
    decreases ls.len(),
{
    if ls.len() > 0 {
        assert forall|i: int| 0 <= i < ls.drop_last().len() implies !has_char(
            #[trigger] ls.drop_last()[i],
            '\n',
        ) by {
            assert(ls.drop_last()[i] == ls[i]);
        }
        lemma_read_lines_readable(state, ls.drop_last());
        assert(!has_char(ls[ls.len() - 1], '\n'));
        lemma_read_line_readable(read_lines(state, ls.drop_last()), ls.last());
    }
}

/// Whatever was parsed survives being written and parsed again, with all its
/// groups. Left out are entries with a pair that would read as a group header,
/// which a line has only behind white space.
pub proof fn law_parse_write_parse(content: Seq<char>)
    requires
        no_header_pair(parsed(content).keys),
        forall|i: int|
            0 <= i < parsed(content).groups.len() ==> no_header_pair(
                (#[trigger] parsed(content).groups[i]).keys,
            ),
    ensures
        parsed(written(parsed(content))) == parsed(content),
{
    lemma_lines_no_feed(content);
    lemma_read_lines_readable(unread(), lines(content));
    law_write_then_parse(parsed(content));
}

/// A pair can be written where its key is plain and its value is one line
/// without white space at its end.
pub proof fn lemma_writable_pair(key: Seq<char>, value: Seq<char>)
    requires
        key.len() > 0,
        !whitespace(key[0]),
        !whitespace(key.last()),
        key[0] != '#',
        key[0] != '[',
        forall|i: int| 0 <= i < key.len() ==> key[i] != '=' && key[i] != '\n',
        trim_end(value) == value,
        !has_char(value, '\n'),
    ensures
        writable_pair((key, value)),
{
    lemma_trim_id(key);
}

/// Setting a key to what can be written leaves what can be written.
pub proof fn lemma_assign_writable(keys: Seq<Pair>, key: Seq<char>, value: Seq<char>)
    requires
        writable_pairs(keys),
        writable_pair((key, value)),
    ensures
        writable_pairs(assign(keys, key, value)),
{
    lemma_key_pos(keys, key);
    let after = assign(keys, key, value);
    assert forall|i: int| 0 <= i < after.len() implies writable_pair(#[trigger] after[i]) by {
        if i < keys.len() && i != key_pos(keys, key) {
            assert(after[i] == keys[i]);
        }
    }
}

/// Removing a key leaves what can be written.
pub proof fn lemma_without_key_writable(keys: Seq<Pair>, key: Seq<char>)
    requires
        writable_pairs(keys),
    ensures
        writable_pairs(without_key(keys, key)),
    decreases keys.len(),
{
    if keys.len() > 0 {
        let rest = keys.drop_last();
        assert forall|i: int| 0 <= i < rest.len() implies writable_pair(#[trigger] rest[i]) by {
            assert(rest[i] == keys[i]);
        }
        lemma_without_key_writable(rest, key);
        assert(writable_pair(keys[keys.len() - 1]));
        let after = without_key(keys, key);
        assert forall|i: int| 0 <= i < after.len() implies writable_pair(#[trigger] after[i]) by {
            if i < without_key(rest, key).len() {
                assert(after[i] == without_key(rest, key)[i]);
            }
        }
    }
}

/// A value that is looked up is one of those that can be written.
pub proof fn lemma_lookup_writable(keys: Seq<Pair>, key: Seq<char>)
    requires
        writable_pairs(keys),
        lookup(keys, key) is Some,
    ensures
        trim_end(lookup(keys, key)->0) == lookup(keys, key)->0,
        !has_char(lookup(keys, key)->0, '\n'),
{
    lemma_key_pos(keys, key);
    assert(writable_pair(keys[key_pos(keys, key) as int]));
}

} // verus!
