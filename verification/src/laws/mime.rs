//! Which MIME types are claimed, and what becomes of the associations.
use vstd::prelude::*;

use crate::failure::IoFailure;
use crate::laws::paths::law_join_path;
use crate::laws::text::{blank, law_split, law_trim, tight};
use crate::messages::MessageView;
use crate::mime::{as_seq, association, base_dir, claimed_types, disowned, failure_messages,
    handler_keys, handlers, in_dir, is_obsolete, law_merged_lists, lemma_association, lemma_others,
    merged, merged_all, obsolete_handlers, others, plain_handler, register_failure, stripped,
    stripped_line, types_where, Registration, ToolStatus};
use crate::text::{has_char, join, split, texts, whitespace};

verus! {

/// Exactly the two types of AppImages are claimed.
pub proof fn law_claimed_types(t: Seq<char>)
    ensures
        claimed_types().contains(t) <==> t == "application/vnd.appimage"@ || t
            == "application/x-appimage"@,
{
    let c = claimed_types();
    assert(c[0] == "application/vnd.appimage"@ && c[1] == "application/x-appimage"@);
    if c.contains(t) {
        let i = choose|i: int| 0 <= i < c.len() && c[i] == t;
        assert(i == 0 || i == 1);
    }
}

/// The two lists of a user's associations: in the directory that the variable
/// names, whatever it is, or else in the home.
pub proof fn law_mimeapps_dirs(
    dir: Seq<char>,
    home: Seq<char>,
    tail: Seq<char>,
    any: Option<Seq<char>>,
)
    requires
        home.len() > 0,
        home.last() != '/',
        tail.len() > 0,
        tail[0] != '/',
        dir.len() > 0,
        dir.last() != '/',
    ensures
        base_dir(Some(dir), any, tail) == Some(dir),
        base_dir(None, Some(home), tail) == Some(home + seq!['/'] + tail),
        base_dir(None, None, tail) is None,
        in_dir(Some(dir), tail) == Some(dir + seq!['/'] + tail),
        in_dir(None, tail) is None,
        as_seq(Some(dir)) == seq![dir],
        as_seq(None).len() == 0,
{
    law_join_path(home, tail);
    law_join_path(dir, tail);
}

// ---------------------------------------------------------------------------
// Associations
// ---------------------------------------------------------------------------
proof fn lemma_handlers_append(a: Seq<Seq<char>>, b: Seq<Seq<char>>)
    ensures
        handlers(a + b) == handlers(a) + handlers(b),
    decreases b.len(),
{
    if b.len() == 0 {
        assert(a + b =~= a);
        assert(handlers(a) + handlers(b) =~= handlers(a));
    } else {
        lemma_handlers_append(a, b.drop_last());
        assert((a + b).drop_last() =~= a + b.drop_last());
        assert((a + b).last() == b.last());
        assert(handlers(a + b) =~= handlers(a) + handlers(b));
    }
}

/// Each piece of a list of handlers is one, without the white space around it, in
/// the order of the list; a blank piece is none.
pub proof fn law_handlers(
    a: Seq<Seq<char>>,
    b: Seq<Seq<char>>,
    before: Seq<char>,
    h: Seq<char>,
    behind: Seq<char>,
)
    requires
        blank(before),
        blank(behind),
        tight(h),
    ensures
        handlers(a + b) == handlers(a) + handlers(b),
        handlers(seq![before + h + behind]) == seq![h],
        handlers(seq![before]) == Seq::<Seq<char>>::empty(),
{
    lemma_handlers_append(a, b);
    law_trim(before, h, behind);
    reveal_with_fuel(handlers, 2);
    assert(seq![before].drop_last() =~= seq![]);
    let x = before + h + behind;
    assert(seq![x].drop_last() =~= seq![]);
    assert(seq![x].last() == x);
    assert(handlers(seq![x]) =~= seq![h]);
}

/// The other handlers are all but the one of this tool, in their order.
pub proof fn law_others(hs: Seq<Seq<char>>)
    ensures
        others(hs) == hs.filter(|h: Seq<char>| h != "appimage-handler.desktop"@),
    decreases hs.len(),
{
    reveal(Seq::filter);
    if hs.len() > 0 {
        law_others(hs.drop_last());
    }
}

/// A line is about the disowned type where that is its key, with or without white
/// space around it; a line with any other key, or with none, is left as it is.
pub proof fn law_only_the_disowned_type(
    before: Seq<char>,
    key: Seq<char>,
    behind: Seq<char>,
    value: Seq<char>,
    other: Seq<char>,
)
    requires
        blank(before),
        blank(behind),
        tight(key),
        forall|i: int| 0 <= i < key.len() ==> key[i] != '=',
        forall|i: int| 0 <= i < other.len() ==> other[i] != '=',
    ensures
        ({
            let line = before + key + behind + seq!['='] + value;
            &&& key == "application/octet-stream"@ ==> obsolete_handlers(line) == Some(
                handlers(split(value, ';')),
            )
            &&& key != "application/octet-stream"@ ==> {
                &&& stripped_line(line) == line + seq!['\n']
                &&& disowned(seq![line]) == Seq::<Seq<char>>::empty()
            }
        }),
        stripped_line(other) == other + seq!['\n'],
        disowned(seq![other]) == Seq::<Seq<char>>::empty(),
{
    reveal_strlit("\n");
    assert("\n"@ =~= seq!['\n']);
    let k = before + key + behind;
    let line = k + seq!['='] + value;
    assert forall|i: int| 0 <= i < k.len() implies k[i] != '=' by {
        if i < before.len() {
            assert(whitespace(before[i]));
        } else if i < before.len() + key.len() {
            assert(k[i] == key[i - before.len()]);
        } else {
            assert(whitespace(behind[i - before.len() - key.len()]));
        }
    }
    law_split(k, '=', value);
    law_trim(before, key, behind);
    law_split(other, '=', value);
    lemma_disowned_one(line);
    lemma_disowned_one(other);
}

proof fn lemma_disowned_one(line: Seq<char>)
    ensures
        disowned(seq![line]) == (if is_obsolete(line) {
            seq!["application/octet-stream"@]
        } else {
            Seq::<Seq<char>>::empty()
        }),
        stripped(seq![line]) == stripped_line(line),
{
    reveal_with_fuel(disowned, 2);
    reveal_with_fuel(stripped, 2);
    assert(seq![line].drop_last() =~= seq![]);
    assert(seq![line].last() == line);
    assert(Seq::<char>::empty() + stripped_line(line) =~= stripped_line(line));
    if is_obsolete(line) {
        assert(disowned(seq![line]) =~= seq!["application/octet-stream"@]);
    }
}

/// The line that associates the disowned type with some handlers stays as it is
/// where this tool is none of them. Otherwise this tool is taken out, the others
/// stay in their order, and the type is reported; with no other handler left the
/// line goes too.
pub proof fn law_strip_association(hs: Seq<Seq<char>>)
    requires
        hs.len() > 0,
        forall|i: int| 0 <= i < hs.len() ==> tight(#[trigger] hs[i]),
        forall|i: int, j: int|
            0 <= i < hs.len() && 0 <= j < hs[i].len() ==> (#[trigger] hs[i][j]) != ';' && hs[i][j]
                != '\n',
    ensures
        ({
            let line = "application/octet-stream"@ + "="@ + join(hs, ";"@) + ";"@;
            let left = hs.filter(|h: Seq<char>| h != "appimage-handler.desktop"@);
            &&& !hs.contains("appimage-handler.desktop"@) ==> {
                &&& stripped_line(line) == line + "\n"@
                &&& disowned(seq![line]) == Seq::<Seq<char>>::empty()
            }
            &&& hs.contains("appimage-handler.desktop"@) ==> {
                &&& left.len() > 0 ==> stripped_line(line) == "application/octet-stream"@ + "="@
                    + join(left, ";"@) + ";\n"@
                &&& left.len() == 0 ==> stripped_line(line).len() == 0
                &&& disowned(seq![line]) == seq!["application/octet-stream"@]
            }
        }),
{
    let line = association(hs);
    let none = Seq::<char>::empty();
    assert forall|i: int| 0 <= i < hs.len() implies plain_handler(#[trigger] hs[i]) by {
        let h = hs[i];
        assert(tight(h));
        law_trim(none, h, none);
        assert(none + h + none =~= h);
        if has_char(h, ';') {
            let j = choose|j: int| 0 <= j < h.len() && h[j] == ';';
            assert(hs[i][j] != ';');
        }
        if has_char(h, '\n') {
            let j = choose|j: int| 0 <= j < h.len() && h[j] == '\n';
            assert(hs[i][j] != '\n');
        }
    }
    lemma_association(hs);
    lemma_others(hs);
    law_others(hs);
    lemma_disowned_one(line);
}

/// A list of associations is stripped line by line, in its order.
pub proof fn law_strip_lines(a: Seq<Seq<char>>, b: Seq<Seq<char>>, line: Seq<char>)
    ensures
        stripped(a + b) == stripped(a) + stripped(b),
        disowned(a + b) == disowned(a) + disowned(b),
        stripped(seq![line]) == stripped_line(line),
        stripped(Seq::<Seq<char>>::empty()) == Seq::<char>::empty(),
    decreases b.len(),
{
    lemma_disowned_one(line);
    if b.len() == 0 {
        assert(a + b =~= a);
        assert(stripped(a) + stripped(b) =~= stripped(a));
        assert(disowned(a) + disowned(b) =~= disowned(a));
    } else {
        law_strip_lines(a, b.drop_last(), line);
        assert((a + b).drop_last() =~= a + b.drop_last());
        assert((a + b).last() == b.last());
        assert(stripped(a + b) =~= stripped(a) + stripped(b));
        assert(disowned(a + b) =~= disowned(a) + disowned(b));
    }
}

/// The types that were stripped are told once each: all that any of the lists
/// names, and no others.
pub proof fn law_merged_all(lists: Seq<Vec<String>>, t: Seq<char>)
    ensures
        merged_all(lists).no_duplicates(),
        merged_all(lists).contains(t) <==> exists|i: int|
            0 <= i < lists.len() && texts((#[trigger] lists[i])@).contains(t),
    decreases lists.len(),
{
    if lists.len() > 0 {
        let rest = lists.drop_last();
        law_merged_all(rest, t);
        law_merged_lists(merged_all(rest), texts(lists.last()@));
        assert(lists.last() == lists[lists.len() - 1]);
        if merged_all(rest).contains(t) {
            let i = choose|i: int| 0 <= i < rest.len() && texts((#[trigger] rest[i])@).contains(t);
            assert(texts(lists[i]@).contains(t));
        }
        if exists|i: int| 0 <= i < lists.len() && texts((#[trigger] lists[i])@).contains(t) {
            let i = choose|i: int|
                0 <= i < lists.len() && texts((#[trigger] lists[i])@).contains(t);
            if i < rest.len() {
                assert(texts(rest[i]@).contains(t));
            }
        }
    }
}

/// What is merged into a list comes behind what the list has.
pub proof fn law_merged_keeps_the_order(list: Seq<Seq<char>>, new: Seq<Seq<char>>)
    ensures
        merged(list, new).len() >= list.len(),
        merged(list, new).take(list.len() as int) == list,
    decreases new.len(),
{
    if new.len() > 0 {
        law_merged_keeps_the_order(list, new.drop_last());
        assert(merged(list, new).take(list.len() as int) =~= merged(list, new.drop_last()).take(
            list.len() as int,
        ));
    } else {
        assert(list.take(list.len() as int) =~= list);
    }
}

// ---------------------------------------------------------------------------
// The handler
// ---------------------------------------------------------------------------
/// The handler starts this tool, wherever it is, with the file to handle; nothing
/// else in its entry depends on where the tool is.
pub proof fn law_handler_keys(bin: Seq<char>, other: Seq<char>)
    ensures
        handler_keys(bin)[5] == ("Exec"@, bin + " handle %f"@),
        handler_keys(bin).len() == handler_keys(other).len() == 11,
        forall|i: int| 0 <= i < 11 && i != 5 ==> handler_keys(bin)[i] == handler_keys(other)[i],
        handler_keys(bin)[9] == ("MimeType"@, "application/vnd.appimage;application/x-appimage;"@),
        handler_keys(bin)[0] == ("Type"@, "Application"@),
        handler_keys(bin)[7] == ("NoDisplay"@, "true"@),
{
}

/// A registration fails where the tool could not run or did not succeed, and says
/// why.
pub proof fn law_register_failure(status: ToolStatus, e: IoFailure)
    ensures
        status.success ==> register_failure(Ok(status)) is None,
        !status.success ==> register_failure(Ok(status)) == Some(
            "xdg-mime exited "@ + status.text@,
        ),
        register_failure(Err(e)) == Some(e.message@),
{
}

/// Every type is reported on the side that its registration came out on, and every
/// failure is told with its type and its reason, in their order.
pub proof fn law_registrations(rs: Seq<Registration>)
    ensures
        types_where(rs, true) == rs.filter(|r: Registration| r.outcome is Ok).map_values(
            |r: Registration| r.mime@,
        ),
        types_where(rs, false) == rs.filter(|r: Registration| r.outcome is Err).map_values(
            |r: Registration| r.mime@,
        ),
        failure_messages(rs) == rs.filter(|r: Registration| r.outcome is Err).map_values(
            |r: Registration|
                MessageView {
                    key: "warn_register_mime"@,
                    args: seq![("mime"@, r.mime@), ("reason"@, r.outcome->Err_0@)],
                },
        ),
    decreases rs.len(),
{
    reveal(Seq::filter);
    let good = |r: Registration| r.outcome is Ok;
    let bad = |r: Registration| r.outcome is Err;
    let mime = |r: Registration| r.mime@;
    let told = |r: Registration|
        MessageView {
            key: "warn_register_mime"@,
            args: seq![("mime"@, r.mime@), ("reason"@, r.outcome->Err_0@)],
        };
    if rs.len() > 0 {
        let rest = rs.drop_last();
        let last = rs.last();
        law_registrations(rest);
        let g = rest.filter(good);
        let b = rest.filter(bad);
        assert(g.push(last).map_values(mime) =~= g.map_values(mime).push(last.mime@));
        assert(b.push(last).map_values(mime) =~= b.map_values(mime).push(last.mime@));
        assert(b.push(last).map_values(told) =~= b.map_values(told).push(told(last)));
        assert(types_where(rs, true) =~= rs.filter(good).map_values(mime));
        assert(types_where(rs, false) =~= rs.filter(bad).map_values(mime));
        assert(failure_messages(rs) =~= rs.filter(bad).map_values(told));
    } else {
        assert(types_where(rs, true) =~= rs.filter(good).map_values(mime));
        assert(types_where(rs, false) =~= rs.filter(bad).map_values(mime));
        assert(failure_messages(rs) =~= rs.filter(bad).map_values(told));
    }
}

} // verus!
