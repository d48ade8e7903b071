//! How desktop entries are read, changed and written.
use vstd::prelude::*;

use crate::desktop::{assign, is_comment, is_header, lemma_key_pos_is, lemma_read_append,
    lemma_read_one, line_pair, lists_map, lookup, pairs_map, pairs_text, parsed, read_line,
    read_lines, unread, without_key, written, DesktopView, GroupView, Pair, Reading};
use crate::laws::text::{blank, law_split, law_trim, tight};
use crate::text::{lemma_lines_append, lemma_one_line, lemma_trim_end, lemma_trim_end_is,
    lemma_trim_id, lemma_trim_start_is, lines, text_less, trim_end, trim_start, whitespace,
    without_cr};

verus! {

// ---------------------------------------------------------------------------
// Reading
// ---------------------------------------------------------------------------
/// One line, without the line feed that ends it.
pub open spec fn one_line(l: Seq<char>) -> bool {
    forall|i: int| 0 <= i < l.len() ==> l[i] != '\n'
}

/// Lines that are all ended by a line feed.
pub open spec fn whole_lines(x: Seq<char>) -> bool {
    x.len() == 0 || x.last() == '\n'
}

/// What has been read of a desktop entry once the text is read up to here.
pub open spec fn reading(x: Seq<char>) -> Reading {
    read_lines(unread(), lines(x))
}

proof fn lemma_next_line(x: Seq<char>, l: Seq<char>)
    requires
        whole_lines(x),
        one_line(l),
    ensures
        reading(x + l + seq!['\n']) == read_line(reading(x), without_cr(l)),
        whole_lines(x + l + seq!['\n']),
{
    lemma_one_line(l);
    lemma_lines_append(x, l.push('\n'));
    assert(x + l + seq!['\n'] =~= x + l.push('\n'));
    lemma_read_append(unread(), lines(x), seq![without_cr(l)]);
    lemma_read_one(reading(x), without_cr(l));
}

proof fn lemma_lines_after(x: Seq<char>, l: Seq<char>, y: Seq<char>)
    requires
        whole_lines(x),
        one_line(l),
        read_line(reading(x), without_cr(l)) == reading(x),
    ensures
        reading(x + l + seq!['\n'] + y) == reading(x + y),
{
    let xl = x + l + seq!['\n'];
    lemma_next_line(x, l);
    lemma_lines_append(xl, y);
    lemma_lines_append(x, y);
    lemma_read_append(unread(), lines(xl), lines(y));
    lemma_read_append(unread(), lines(x), lines(y));
}

/// Reading starts with no pair and no group, and reads what it is given to the
/// end.
pub proof fn law_nothing_to_read()
    ensures
        parsed(Seq::<char>::empty()) == (DesktopView { keys: seq![], groups: seq![] }),
        !reading(Seq::<char>::empty()).in_main,
        forall|x: Seq<char>| #[trigger] parsed(x) == reading(x).entry,
{
    assert(lines(Seq::<char>::empty()) =~= seq![]);
}

proof fn lemma_comment_line(state: Reading, l: Seq<char>, n: int)
    requires
        0 <= n < l.len(),
        forall|i: int| 0 <= i < n ==> whitespace(#[trigger] l[i]),
        l[n] == '#',
    ensures
        read_line(state, l) == state,
{
    let t = trim_end(l);
    lemma_trim_end(l);
    if t.len() <= n {
        assert(whitespace(l[n]));
    }
    assert forall|i: int| 0 <= i < n implies whitespace(t[i]) by {
        assert(t[i] == l[i]);
    }
    assert(t[n] == l[n]);
    lemma_trim_start_is(t, n);
}

proof fn lemma_blank_line(state: Reading, l: Seq<char>)
    requires
        blank(l),
    ensures
        read_line(state, l) == state,
{
    lemma_trim_end_is(l, 0);
    assert(trim_end(l).len() == 0);
}

/// A comment, whatever it says and however far it is moved in, has no effect
/// wherever it stands, and neither has a blank line: the text reads as it does
/// without.
pub proof fn law_comments_have_no_effect(
    x: Seq<char>,
    indent: Seq<char>,
    comment: Seq<char>,
    y: Seq<char>,
)
    requires
        whole_lines(x),
        blank(indent),
        one_line(indent),
        one_line(comment),
    ensures
        parsed(x + (indent + seq!['#'] + comment) + seq!['\n'] + y) == parsed(x + y),
        parsed(x + indent + seq!['\n'] + y) == parsed(x + y),
{
    let l = indent + seq!['#'] + comment;
    let n = indent.len() as int;
    assert forall|i: int| 0 <= i < l.len() implies l[i] != '\n' by {
        if i < n {
            assert(l[i] == indent[i]);
        } else if i > n {
            assert(l[i] == comment[i - n - 1]);
        }
    }
    let c = without_cr(l);
    assert(l[n] == '#');
    assert forall|i: int| 0 <= i < n implies whitespace(#[trigger] c[i]) by {
        assert(c[i] == l[i]);
        assert(whitespace(indent[i]));
    }
    assert(c[n] == '#');
    lemma_comment_line(reading(x), c, n);
    lemma_lines_after(x, l, y);
    let b = without_cr(indent);
    assert forall|i: int| 0 <= i < b.len() implies whitespace(#[trigger] b[i]) by {
        assert(whitespace(indent[i]));
    }
    lemma_blank_line(reading(x), b);
    lemma_lines_after(x, indent, y);
}

/// The same of lines: with a comment between them some lines read as they do
/// without.
pub proof fn law_comment_between_lines(
    a: Seq<Seq<char>>,
    indent: Seq<char>,
    comment: Seq<char>,
    b: Seq<Seq<char>>,
)
    requires
        blank(indent),
    ensures
        read_lines(unread(), a + seq![indent + seq!['#'] + comment] + b) == read_lines(
            unread(),
            a + b,
        ),
        read_lines(unread(), a + seq![indent] + b) == read_lines(unread(), a + b),
{
    let l = indent + seq!['#'] + comment;
    let s = read_lines(unread(), a);
    assert forall|i: int| 0 <= i < indent.len() implies whitespace(#[trigger] l[i]) by {
        assert(whitespace(indent[i]));
    }
    lemma_comment_line(s, l, indent.len() as int);
    lemma_blank_line(s, indent);
    lemma_read_one(s, l);
    lemma_read_one(s, indent);
    lemma_read_append(unread(), a, seq![l]);
    lemma_read_append(unread(), a, seq![indent]);
    lemma_read_append(unread(), a + seq![l], b);
    lemma_read_append(unread(), a + seq![indent], b);
    lemma_read_append(unread(), a, b);
}

proof fn lemma_trailing_blank(l: Seq<char>, w: Seq<char>)
    requires
        l.len() > 0,
        !whitespace(l.last()),
        blank(w),
    ensures
        trim_end(l + w) == l,
        trim_end(without_cr(l + w)) == l,
{
    let s = l + w;
    assert forall|i: int| l.len() <= i < s.len() implies whitespace(s[i]) by {
        assert(whitespace(w[i - l.len()]));
    }
    lemma_trim_end_is(s, l.len() as int);
    assert(s.take(l.len() as int) =~= l);
    let c = without_cr(s);
    assert(l.last() != '\r');
    if w.len() > 0 {
        assert(s.last() == w.last());
    }
    assert forall|i: int| l.len() <= i < c.len() implies whitespace(c[i]) by {
        assert(c[i] == s[i]);
    }
    lemma_trim_end_is(c, l.len() as int);
    assert(c.take(l.len() as int) =~= l);
}

/// A line in square brackets opens a group: the main one where it says
/// `Desktop Entry`, and otherwise a further one of that name. Nothing that was
/// read before is lost. White space behind it, such as a carriage return, does
/// not count.
pub proof fn law_header_opens_a_group(x: Seq<char>, name: Seq<char>, w: Seq<char>)
    requires
        whole_lines(x),
        one_line(name),
        one_line(w),
        blank(w),
    ensures
        ({
            let before = reading(x);
            let after = reading(x + (seq!['['] + name + seq![']'] + w) + seq!['\n']);
            &&& name == "Desktop Entry"@ ==> after.entry == before.entry && after.in_main
            &&& name != "Desktop Entry"@ ==> {
                &&& !after.in_main
                &&& after.entry.keys == before.entry.keys
                &&& after.entry.groups == before.entry.groups.push(
                    GroupView { name, keys: seq![] },
                )
            }
        }),
{
    let l = seq!['['] + name + seq![']'];
    let raw = l + w;
    assert forall|i: int| 0 <= i < raw.len() implies raw[i] != '\n' by {
        if 1 <= i <= name.len() {
            assert(raw[i] == name[i - 1]);
        } else if i > name.len() + 1 {
            assert(raw[i] == w[i - l.len()]);
        }
    }
    lemma_next_line(x, raw);
    lemma_trailing_blank(l, w);
    lemma_trim_id(l);
    assert(l[0] == '[' && l.last() == ']');
    assert(l.subrange(1, l.len() - 1) =~= name);
    reveal_strlit("Desktop Entry");
    reveal_strlit("[Desktop Entry]");
    assert("[Desktop Entry]"@ =~= seq!['['] + "Desktop Entry"@ + seq![']']);
    if l == "[Desktop Entry]"@ {
        assert(name =~= "Desktop Entry"@) by {
            assert("[Desktop Entry]"@.subrange(1, l.len() - 1) =~= "Desktop Entry"@);
        }
    }
}

proof fn lemma_pair_line(before: Seq<char>, key: Seq<char>, behind: Seq<char>, value: Seq<char>)
    requires
        blank(before),
        blank(behind),
        tight(key),
        forall|i: int| 0 <= i < key.len() ==> key[i] != '=',
    ensures
        line_pair(before + key + behind + seq!['='] + value) == Some((key, value)),
{
    let k = before + key + behind;
    assert forall|i: int| 0 <= i < k.len() implies k[i] != '=' by {
        if i < before.len() {
            assert(whitespace(before[i]));
        } else if i < before.len() + key.len() {
            assert(k[i] == key[i - before.len()]);
        } else {
            assert(whitespace(behind[i - before.len() - key.len()]));
        }
    }
    law_split(k, '=', value);
    law_trim(before, key, behind);
}

/// A line with an equals sign is a pair: what stands before the first equals
/// sign, without white space around it, is the key, and all that stands behind it
/// the value. Where nothing stands before it, or there is none, there is no pair.
pub proof fn law_pair_line(
    before: Seq<char>,
    key: Seq<char>,
    behind: Seq<char>,
    value: Seq<char>,
    other: Seq<char>,
)
    requires
        blank(before),
        blank(behind),
        tight(key),
        forall|i: int| 0 <= i < key.len() ==> key[i] != '=',
        forall|i: int| 0 <= i < other.len() ==> other[i] != '=',
    ensures
        line_pair(before + key + behind + seq!['='] + value) == Some((key, value)),
        line_pair(before + seq!['='] + value) is None,
        line_pair(other) is None,
{
    lemma_pair_line(before, key, behind, value);
    assert forall|i: int| 0 <= i < before.len() implies before[i] != '=' by {
        assert(whitespace(before[i]));
    }
    law_split(before, '=', value);
    law_trim(before, key, behind);
    law_split(other, '=', value);
}

/// A pair belongs to the group that is open: to the main one, or to the last of
/// the further ones; before any header it belongs nowhere. It comes behind the
/// pairs that the group had. White space at the end of the line does not count.
pub proof fn law_pair_joins_the_open_group(
    x: Seq<char>,
    before: Seq<char>,
    key: Seq<char>,
    behind: Seq<char>,
    value: Seq<char>,
    w: Seq<char>,
)
    requires
        whole_lines(x),
        blank(before),
        blank(behind),
        blank(w),
        tight(key),
        key[0] != '#',
        !(before.len() == 0 && key[0] == '[' && value.len() > 0 && value.last() == ']'),
        value.len() > 0 ==> !whitespace(value.last()),
        forall|i: int| 0 <= i < key.len() ==> key[i] != '=',
        one_line(before + key + behind + seq!['='] + value + w),
    ensures
        ({
            let old_entry = reading(x).entry;
            let n = old_entry.groups.len() as int;
            let after = reading(x + (before + key + behind + seq!['='] + value + w) + seq!['\n']);
            &&& after.in_main == reading(x).in_main
            &&& after.in_main ==> after.entry.keys == old_entry.keys.push((key, value))
                && after.entry.groups == old_entry.groups
            &&& !after.in_main ==> after.entry.keys == old_entry.keys
            &&& !after.in_main && n == 0 ==> after.entry.groups == old_entry.groups
            &&& !after.in_main && n > 0 ==> {
                &&& after.entry.groups.len() == n
                &&& forall|i: int|
                    0 <= i < n - 1 ==> after.entry.groups[i] == #[trigger] old_entry.groups[i]
                &&& after.entry.groups[n - 1].name == old_entry.groups[n - 1].name
                &&& after.entry.groups[n - 1].keys == old_entry.groups[n - 1].keys.push(
                    (key, value),
                )
            }
        }),
{
    let l = before + key + behind + seq!['='] + value;
    let raw = l + w;
    lemma_next_line(x, raw);
    assert(!whitespace('='));
    assert(!whitespace(l.last())) by {
        if value.len() > 0 {
            assert(l.last() == value.last());
        } else {
            assert(l.last() == '=');
        }
    }
    lemma_trailing_blank(l, w);
    let n = before.len() as int;
    assert forall|i: int| 0 <= i < n implies whitespace(l[i]) by {
        assert(whitespace(before[i]));
        assert(l[i] == before[i]);
    }
    assert(l[n] == key[0]);
    lemma_trim_start_is(l, n);
    assert(trim_start(l)[0] == key[0]);
    assert(!is_comment(l));
    assert(!is_header(l)) by {
        if is_header(l) {
            if n > 0 {
                assert(whitespace(before[0]));
                assert(l[0] == before[0]);
            } else {
                assert(l[0] == key[0]);
            }
            if value.len() > 0 {
                assert(l.last() == value.last());
            } else {
                assert(l.last() == '=');
            }
        }
    }
    lemma_pair_line(before, key, behind, value);
}

/// A line without an equals sign that is no header has no effect, and neither has
/// one with nothing before the equals sign.
pub proof fn law_stray_lines_have_no_effect(
    x: Seq<char>,
    stray: Seq<char>,
    before: Seq<char>,
    value: Seq<char>,
    y: Seq<char>,
)
    requires
        whole_lines(x),
        one_line(stray),
        forall|i: int| 0 <= i < stray.len() ==> stray[i] != '=',
        stray.len() > 0 ==> stray[0] != '[',
        blank(before),
        one_line(before + seq!['='] + value),
    ensures
        parsed(x + stray + seq!['\n'] + y) == parsed(x + y),
        parsed(x + (before + seq!['='] + value) + seq!['\n'] + y) == parsed(x + y),
{
    let l = trim_end(without_cr(stray));
    lemma_trim_end(without_cr(stray));
    assert forall|i: int| 0 <= i < l.len() implies l[i] == stray[i] by {}
    law_split(l, '=', seq![]);
    lemma_lines_after(x, stray, y);
    let raw = before + seq!['='] + value;
    let m = trim_end(without_cr(raw));
    let n = before.len() as int;
    lemma_trim_end(without_cr(raw));
    assert(raw[n] == '=');
    assert(without_cr(raw).len() > n);
    if m.len() <= n {
        assert(whitespace(without_cr(raw)[n]));
    }
    assert(m =~= before + seq!['='] + m.skip(n + 1));
    assert forall|i: int| 0 <= i < n implies before[i] != '=' && whitespace(m[i]) by {
        assert(whitespace(before[i]));
        assert(m[i] == before[i]);
    }
    law_split(before, '=', m.skip(n + 1));
    law_trim(before, seq!['='], Seq::<char>::empty());
    assert(m[n] == '=');
    lemma_trim_start_is(m, n);
    assert(!is_header(m)) by {
        if n > 0 {
            assert(whitespace(m[0]));
        } else {
            assert(m[0] == '=');
        }
    }
    lemma_lines_after(x, raw, y);
}

// ---------------------------------------------------------------------------
// Keys
// ---------------------------------------------------------------------------
/// A key has the value of the first pair that has it, and none where no pair
/// does.
pub proof fn law_lookup(keys: Seq<Pair>, key: Seq<char>, k: int)
    requires
        0 <= k <= keys.len(),
        forall|i: int| 0 <= i < k ==> (#[trigger] keys[i]).0 != key,
        k < keys.len() ==> keys[k].0 == key,
    ensures
        k < keys.len() ==> lookup(keys, key) == Some(keys[k].1),
        k == keys.len() ==> lookup(keys, key) is None,
{
    lemma_key_pos_is(keys, key, k);
}

/// Setting a key changes the first pair that has it, where it stands, or adds one
/// at the end; every other pair stays where it is.
pub proof fn law_assign(keys: Seq<Pair>, key: Seq<char>, value: Seq<char>, k: int)
    requires
        0 <= k <= keys.len(),
        forall|i: int| 0 <= i < k ==> (#[trigger] keys[i]).0 != key,
        k < keys.len() ==> keys[k].0 == key,
    ensures
        assign(keys, key, value).len() == (if k < keys.len() {
            keys.len()
        } else {
            keys.len() + 1
        }),
        assign(keys, key, value)[k] == (key, value),
        forall|i: int|
            0 <= i < keys.len() && i != k ==> assign(keys, key, value)[i] == #[trigger] keys[i],
{
    lemma_key_pos_is(keys, key, k);
}

/// Removing a key takes away every pair that has it and leaves the others, in
/// their order.
pub proof fn law_without_key(keys: Seq<Pair>, key: Seq<char>)
    ensures
        without_key(keys, key) == keys.filter(|p: Pair| p.0 != key),
    decreases keys.len(),
{
    reveal(Seq::filter);
    if keys.len() > 0 {
        law_without_key(keys.drop_last(), key);
    }
}

proof fn lemma_map_value(keys: Seq<Pair>, k: int)
    requires
        0 <= k < keys.len(),
        forall|i: int| k < i < keys.len() ==> (#[trigger] keys[i]).0 != keys[k].0,
    ensures
        pairs_map(keys).dom().contains(keys[k].0),
        pairs_map(keys)[keys[k].0] == keys[k].1,
    decreases keys.len(),
{
    if k < keys.len() - 1 {
        let front = keys.drop_last();
        assert forall|i: int| k < i < front.len() implies (#[trigger] front[i]).0 != front[k].0 by {
            assert(front[i] == keys[i]);
        }
        lemma_map_value(front, k);
        assert(keys.last() == keys[keys.len() - 1]);
    }
}

proof fn lemma_last_with_key(keys: Seq<Pair>, key: Seq<char>) -> (k: int)
    requires
        pairs_map(keys).dom().contains(key),
    ensures
        0 <= k < keys.len(),
        keys[k].0 == key,
        forall|i: int| k < i < keys.len() ==> (#[trigger] keys[i]).0 != key,
    decreases keys.len(),
{
    if keys.last().0 == key {
        keys.len() - 1
    } else {
        let k = lemma_last_with_key(keys.drop_last(), key);
        assert forall|i: int| k < i < keys.len() implies (#[trigger] keys[i]).0 != key by {
            if i < keys.len() - 1 {
                assert(keys[i] == keys.drop_last()[i]);
            }
        }
        k
    }
}

/// The map of an entry lists every key once, with the last value that it has, in
/// the order of the keys.
pub proof fn law_as_map(keys: Seq<Pair>, ps: Seq<Pair>)
    requires
        lists_map(ps, pairs_map(keys)),
    ensures
        forall|i: int, j: int| 0 <= i < j < ps.len() ==> text_less(ps[i].0, ps[j].0),
        forall|k: int|
            0 <= k < keys.len() && (forall|i: int|
                k < i < keys.len() ==> (#[trigger] keys[i]).0 != keys[k].0) ==> ps.contains(
                #[trigger] keys[k],
            ),
        forall|j: int|
            0 <= j < ps.len() ==> exists|k: int|
                {
                    &&& 0 <= k < keys.len()
                    &&& #[trigger] keys[k] == #[trigger] ps[j]
                    &&& forall|i: int| k < i < keys.len() ==> (#[trigger] keys[i]).0 != ps[j].0
                },
{
    assert forall|k: int|
        0 <= k < keys.len() && (forall|i: int|
            k < i < keys.len() ==> (#[trigger] keys[i]).0 != keys[k].0) implies ps.contains(
        #[trigger] keys[k],
    ) by {
        lemma_map_value(keys, k);
        let j = choose|j: int| 0 <= j < ps.len() && #[trigger] ps[j].0 == keys[k].0;
        assert(ps[j] == keys[k]);
    }
    assert forall|j: int| 0 <= j < ps.len() implies exists|k: int|
        {
            &&& 0 <= k < keys.len()
            &&& #[trigger] keys[k] == #[trigger] ps[j]
            &&& forall|i: int| k < i < keys.len() ==> (#[trigger] keys[i]).0 != ps[j].0
        } by {
        assert(pairs_map(keys).dom().contains(ps[j].0));
        let k = lemma_last_with_key(keys, ps[j].0);
        lemma_map_value(keys, k);
        assert(keys[k] == ps[j]);
    }
}

// ---------------------------------------------------------------------------
// Writing
// ---------------------------------------------------------------------------
/// The text of an entry: the header of the main group, a line for each of its
/// pairs, and each further group behind a blank line, with a line for each of its
/// pairs. Nothing is left out and nothing else is written.
pub proof fn law_written(e: DesktopView, p: Pair, g: GroupView)
    ensures
        written(DesktopView { keys: seq![], groups: seq![] }) == "[Desktop Entry]"@ + seq!['\n'],
        e.groups.len() == 0 ==> written(DesktopView { keys: e.keys.push(p), groups: e.groups })
            == written(e) + p.0 + seq!['='] + p.1 + seq!['\n'],
        written(
            DesktopView {
                keys: e.keys,
                groups: e.groups.push(GroupView { name: g.name, keys: seq![] }),
            },
        ) == written(e) + seq!['\n', '['] + g.name + seq![']', '\n'],
        written(
            DesktopView {
                keys: e.keys,
                groups: e.groups.push(GroupView { name: g.name, keys: g.keys.push(p) }),
            },
        ) == written(DesktopView { keys: e.keys, groups: e.groups.push(g) }) + p.0 + seq!['=']
            + p.1 + seq!['\n'],
{
    reveal_strlit("[Desktop Entry]");
    reveal_strlit("[Desktop Entry]\n");
    reveal_strlit("=");
    reveal_strlit("\n");
    reveal_strlit("\n[");
    reveal_strlit("]\n");
    let none = Seq::<Pair>::empty();
    assert(pairs_text(none) =~= seq![]);
    assert(written(DesktopView { keys: seq![], groups: seq![] }) =~= "[Desktop Entry]"@
        + seq!['\n']);
    assert(e.keys.push(p).drop_last() =~= e.keys);
    assert(written(DesktopView { keys: e.keys.push(p), groups: e.groups }) =~= written(
        DesktopView { keys: e.keys.push(p), groups: seq![] },
    ) || e.groups.len() > 0) by {
        if e.groups.len() == 0 {
            assert(e.groups =~= seq![]);
        }
    }
    if e.groups.len() == 0 {
        assert(written(DesktopView { keys: e.keys.push(p), groups: e.groups }) =~= written(e) + p.0
            + seq!['='] + p.1 + seq!['\n']);
    }
    let g0 = GroupView { name: g.name, keys: none };
    assert(e.groups.push(g0).drop_last() =~= e.groups);
    assert(written(DesktopView { keys: e.keys, groups: e.groups.push(g0) }) =~= written(e) + seq![
        '\n',
        '[',
    ] + g.name + seq![']', '\n']);
    let g1 = GroupView { name: g.name, keys: g.keys.push(p) };
    assert(g.keys.push(p).drop_last() =~= g.keys);
    assert(e.groups.push(g1).drop_last() =~= e.groups);
    assert(e.groups.push(g).drop_last() =~= e.groups);
    assert(written(DesktopView { keys: e.keys, groups: e.groups.push(g1) }) =~= written(
        DesktopView { keys: e.keys, groups: e.groups.push(g) },
    ) + p.0 + seq!['='] + p.1 + seq!['\n']);
}

} // verus!
