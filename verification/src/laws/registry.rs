//! How the record of the installs is read, changed and written.
use vstd::prelude::*;

use crate::failure::IoFailure;
use crate::laws::desktop::{one_line, whole_lines};
use crate::laws::paths::law_join_path;
use crate::laws::text::{blank, law_split, law_trim, tight};
use crate::paths::join_path;
use crate::registry::{data_home, entries_text, entry_text, find, home_unset, lemma_name_pos_is,
    lemma_read_append, lemma_read_one, preamble, read_line, registry_entries, registry_text,
    removed, upserted, EntryView};
use crate::text::{lemma_lines_append, lemma_one_line, lines, trim, whitespace, without_cr};

verus! {

// ---------------------------------------------------------------------------
// Reading
// ---------------------------------------------------------------------------
proof fn lemma_next_line(x: Seq<char>, l: Seq<char>)
    requires
        whole_lines(x),
        one_line(l),
    ensures
        registry_entries(x + l + seq!['\n']) == read_line(registry_entries(x), without_cr(l)),
{
    lemma_one_line(l);
    lemma_lines_append(x, l.push('\n'));
    assert(x + l + seq!['\n'] =~= x + l.push('\n'));
    lemma_read_append(seq![], lines(x), seq![without_cr(l)]);
    lemma_read_one(registry_entries(x), without_cr(l));
}

proof fn lemma_line_without_effect(x: Seq<char>, l: Seq<char>, y: Seq<char>)
    requires
        whole_lines(x),
        one_line(l),
        read_line(registry_entries(x), without_cr(l)) == registry_entries(x),
    ensures
        registry_entries(x + l + seq!['\n'] + y) == registry_entries(x + y),
{
    let xl = x + l + seq!['\n'];
    lemma_next_line(x, l);
    lemma_lines_append(xl, y);
    lemma_lines_append(x, y);
    lemma_read_append(seq![], lines(xl), lines(y));
    lemma_read_append(seq![], lines(x), lines(y));
}

/// White space around a line, such as a carriage return at its end, does not
/// count.
proof fn lemma_trimmed_line(before: Seq<char>, l: Seq<char>, w: Seq<char>)
    requires
        blank(before),
        blank(w),
        tight(l),
    ensures
        trim(without_cr(before + l + w)) == l,
{
    let s = before + l + w;
    if w.len() > 0 && w.last() == '\r' {
        let v = w.drop_last();
        assert forall|i: int| 0 <= i < v.len() implies whitespace(#[trigger] v[i]) by {
            assert(whitespace(w[i]));
        }
        assert(s.drop_last() =~= before + l + v);
        assert(s.last() == w.last());
        law_trim(before, l, v);
    } else {
        law_trim(before, l, w);
        if w.len() > 0 {
            assert(s.last() == w.last());
        } else {
            assert(s.last() == l.last());
        }
    }
}

/// A comment has no effect, whatever it says and wherever it stands, and neither
/// has a blank line or one that sets nothing.
pub proof fn law_registry_comments(
    x: Seq<char>,
    indent: Seq<char>,
    comment: Seq<char>,
    stray: Seq<char>,
    y: Seq<char>,
)
    requires
        whole_lines(x),
        blank(indent),
        one_line(indent),
        one_line(comment),
        comment.len() > 0 ==> !whitespace(comment.last()),
        one_line(stray),
        tight(stray),
        stray[0] != '[',
        forall|i: int| 0 <= i < stray.len() ==> stray[i] != '=',
    ensures
        registry_entries(Seq::<char>::empty()) == Seq::<EntryView>::empty(),
        registry_entries(x + (indent + seq!['#'] + comment) + seq!['\n'] + y) == registry_entries(
            x + y,
        ),
        registry_entries(x + indent + seq!['\n'] + y) == registry_entries(x + y),
        registry_entries(x + (indent + stray) + seq!['\n'] + y) == registry_entries(x + y),
{
    let none = Seq::<char>::empty();
    assert(lines(none) =~= seq![]);
    let c = seq!['#'] + comment;
    let l = indent + seq!['#'] + comment;
    assert(l =~= indent + c + none);
    if comment.len() > 0 {
        assert(c.last() == comment.last());
    }
    lemma_trimmed_line(indent, c, none);
    assert forall|i: int| 0 <= i < l.len() implies l[i] != '\n' by {
        if i < indent.len() {
            assert(l[i] == indent[i]);
        } else if i > indent.len() {
            assert(l[i] == comment[i - indent.len() - 1]);
        }
    }
    assert(c[0] == '#');
    lemma_line_without_effect(x, l, y);
    let b = without_cr(indent);
    assert forall|i: int| 0 <= i < b.len() implies whitespace(#[trigger] b[i]) by {
        assert(whitespace(indent[i]));
    }
    law_trim(b, seq!['x'], none);
    lemma_line_without_effect(x, indent, y);
    let m = indent + stray;
    assert(m =~= indent + stray + none);
    lemma_trimmed_line(indent, stray, none);
    assert forall|i: int| 0 <= i < m.len() implies m[i] != '\n' by {
        if i < indent.len() {
            assert(m[i] == indent[i]);
        } else {
            assert(m[i] == stray[i - indent.len()]);
        }
    }
    law_split(stray, '=', none);
    lemma_line_without_effect(x, m, y);
}

/// A line in square brackets starts a new install of that name, of which nothing
/// else is known yet, behind those that were read before.
pub proof fn law_registry_header(
    x: Seq<char>,
    before: Seq<char>,
    name: Seq<char>,
    w: Seq<char>,
)
    requires
        whole_lines(x),
        blank(before),
        blank(w),
        one_line(before + (seq!['['] + name + seq![']']) + w),
    ensures
        registry_entries(x + (before + (seq!['['] + name + seq![']']) + w) + seq!['\n'])
            == registry_entries(x).push(
            EntryView {
                name,
                display_name: seq![],
                binary: seq![],
                desktop: seq![],
                icon: seq![],
                source: seq![],
            },
        ),
{
    let l = seq!['['] + name + seq![']'];
    lemma_next_line(x, before + l + w);
    assert(l[0] == '[' && l.last() == ']');
    lemma_trimmed_line(before, l, w);
    assert(l.subrange(1, l.len() - 1) =~= name);
}

/// A line with an equals sign sets one field of the install that was started last:
/// the field that the key names, to all that stands behind the equals sign, also
/// where that holds blanks or equals signs. The other fields and the other
/// installs stay as they are; a key that names no field, and a line before any
/// install, set nothing.
pub proof fn law_registry_field(
    x: Seq<char>,
    before: Seq<char>,
    key: Seq<char>,
    behind: Seq<char>,
    value: Seq<char>,
    w: Seq<char>,
)
    requires
        whole_lines(x),
        blank(before),
        blank(behind),
        blank(w),
        tight(key),
        key[0] != '#',
        key[0] != '[',
        forall|i: int| 0 <= i < key.len() ==> key[i] != '=',
        value.len() > 0 ==> !whitespace(value.last()),
        one_line(before + (key + behind + seq!['='] + value) + w),
    ensures
        ({
            let old_list = registry_entries(x);
            let new_list = registry_entries(
                x + (before + (key + behind + seq!['='] + value) + w) + seq!['\n'],
            );
            let n = old_list.len() as int;
            &&& new_list.len() == n
            &&& forall|i: int| 0 <= i < n - 1 ==> new_list[i] == #[trigger] old_list[i]
            &&& n > 0 ==> {
                let a = old_list[n - 1];
                let b = new_list[n - 1];
                &&& b.name == a.name
                &&& b.display_name == (if key == "display"@ { value } else { a.display_name })
                &&& b.binary == (if key == "binary"@ { value } else { a.binary })
                &&& b.desktop == (if key == "desktop"@ { value } else { a.desktop })
                &&& b.icon == (if key == "icon"@ { value } else { a.icon })
                &&& b.source == (if key == "source"@ { value } else { a.source })
            }
        }),
{
    let l = key + behind + seq!['='] + value;
    lemma_next_line(x, before + l + w);
    assert(l[0] == key[0]);
    assert(!whitespace(l.last())) by {
        if value.len() > 0 {
            assert(l.last() == value.last());
        } else {
            assert(l.last() == '=');
        }
    }
    lemma_trimmed_line(before, l, w);
    let k = key + behind;
    assert forall|i: int| 0 <= i < k.len() implies k[i] != '=' by {
        if i < key.len() {
            assert(k[i] == key[i]);
        } else {
            assert(whitespace(behind[i - key.len()]));
        }
    }
    law_split(k, '=', value);
    let none = Seq::<char>::empty();
    law_trim(none, key, behind);
    assert(none + key + behind =~= k);
    reveal_strlit("display");
    reveal_strlit("binary");
    reveal_strlit("desktop");
    reveal_strlit("icon");
    reveal_strlit("source");
    assert("display"@[1] == 'i' && "binary"@[0] == 'b' && "desktop"@[1] == 'e' && "icon"@[0] == 'i'
        && "source"@[0] == 's' && "display"@[0] == 'd' && "desktop"@[0] == 'd');
}

// ---------------------------------------------------------------------------
// Writing
// ---------------------------------------------------------------------------
/// The text of the record: two lines of comment, and for each install its name in
/// brackets behind a blank line and one line for each field.
pub proof fn law_registry_text(es: Seq<EntryView>, e: EntryView)
    ensures
        registry_text(Seq::<EntryView>::empty())
            == "# AppImage Manager — installed AppImages. Managed automatically;\n"@
            + "# edit only if you know what you are doing.\n"@,
        registry_text(es.push(e)) == registry_text(es) + ("\n["@ + e.name + "]\n"@ + ("display"@
            + "="@ + e.display_name + "\n"@) + ("binary"@ + "="@ + e.binary + "\n"@) + ("desktop"@
            + "="@ + e.desktop + "\n"@) + ("icon"@ + "="@ + e.icon + "\n"@) + ("source"@ + "="@
            + e.source + "\n"@)),
{
    assert(entries_text(Seq::<EntryView>::empty()) =~= seq![]);
    assert(preamble() + Seq::<char>::empty() =~= preamble());
    assert(es.push(e).drop_last() =~= es);
    let before = entries_text(es);
    let text = entry_text(e);
    assert(preamble() + (before + text) =~= (preamble() + before) + text);
}

// ---------------------------------------------------------------------------
// The set of installs
// ---------------------------------------------------------------------------
/// An install is found by its whole name: the first of that name, or none.
pub proof fn law_find(es: Seq<EntryView>, name: Seq<char>, k: int)
    requires
        0 <= k <= es.len(),
        forall|i: int| 0 <= i < k ==> (#[trigger] es[i]).name != name,
        k < es.len() ==> es[k].name == name,
    ensures
        k < es.len() ==> find(es, name) == Some(es[k]),
        k == es.len() ==> find(es, name) is None,
{
    lemma_name_pos_is(es, name, k);
}

/// Recording an install puts it in the place of the one of its name, or at the
/// end; removing one takes it away and closes the gap. The other installs stay as
/// they are, in their order.
pub proof fn law_others_stay(es: Seq<EntryView>, e: EntryView, k: int)
    requires
        0 <= k <= es.len(),
        forall|i: int| 0 <= i < k ==> (#[trigger] es[i]).name != e.name,
        k < es.len() ==> es[k].name == e.name,
    ensures
        k < es.len() ==> upserted(es, e) == es.take(k) + seq![e] + es.skip(k + 1),
        k == es.len() ==> upserted(es, e) == es + seq![e],
        k < es.len() ==> removed(es, e.name) == es.take(k) + es.skip(k + 1),
        k == es.len() ==> removed(es, e.name) == es,
{
    lemma_name_pos_is(es, e.name, k);
    if k < es.len() {
        assert(upserted(es, e) =~= es.take(k) + seq![e] + es.skip(k + 1));
        assert(removed(es, e.name) =~= es.take(k) + es.skip(k + 1));
    } else {
        assert(upserted(es, e) =~= es + seq![e]);
    }
}

/// The record is kept where `XDG_DATA_HOME` says, where that starts at the root,
/// and else in the home.
pub proof fn law_data_home(xdg: Seq<char>, home: Seq<char>, any: Option<Seq<char>>)
    requires
        home.len() > 0,
        home.last() != '/',
    ensures
        xdg.len() > 0 && xdg[0] == '/' ==> data_home(Some(xdg), any) == Some(xdg),
        !(xdg.len() > 0 && xdg[0] == '/') ==> data_home(Some(xdg), any) == data_home(None, any),
        data_home(None, Some(home)) == Some(home + "/.local/share"@),
        data_home(None, None) is None,
        forall|e: IoFailure| #[trigger]
            home_unset(e) ==> e.not_found && e.message@ == "HOME is not set"@,
{
    reveal_strlit(".local/share");
    reveal_strlit("/.local/share");
    law_join_path(home, ".local/share"@);
    assert(join_path(home, ".local/share"@) =~= home + "/.local/share"@);
}

} // verus!
